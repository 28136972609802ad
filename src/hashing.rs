use vstd::prelude::*;

verus! {

/// The seed of the hasher that places keys in the table.
pub const HASH_SEED: u64 = 3;

/// The hash of a key under a seed, as wyhash computes it.
pub uninterp spec fn wyhash_of(seed: u64, key: Seq<char>) -> u64;

/// Relies on `wyhash::WyHash` (`with_seed`, then `Hasher::finish`) fed with
/// the key through `str`'s `Hash`: the result depends on the seed and the
/// characters of the key alone.
#[verifier::external_body]
pub(crate) fn key_hash(seed: u64, key: &str) -> (r: u64)
    ensures
        r == wyhash_of(seed, key@),
{
    let mut hasher = wyhash::WyHash::with_seed(seed);
    std::hash::Hash::hash(key, &mut hasher);
    std::hash::Hasher::finish(&hasher)
}

} // verus!
