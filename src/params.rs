use vstd::prelude::*;

use crate::error::RcuError;

verus! {

/// `n` is a power of two: 1, 2, 4, 8, ...
pub open spec fn is_pow2(n: nat) -> bool
    decreases n,
{
    if n == 1 {
        true
    } else if n == 0 || n % 2 == 1 {
        false
    } else {
        is_pow2(n / 2)
    }
}

/// The sizing rules of a table: the initial and the minimal allocated
/// bucket counts are powers of two, and the maximal one is a power of two
/// or zero, which stands for "unbounded".
pub open spec fn valid_params(init_size: u64, min_nr_alloc_buckets: u64, max_nr_buckets: u64) -> bool {
    &&& is_pow2(init_size as nat)
    &&& is_pow2(min_nr_alloc_buckets as nat)
    &&& (max_nr_buckets == 0 || is_pow2(max_nr_buckets as nat))
}

/// Tells whether `n` is a power of two.
pub fn power_of_two(n: u64) -> (r: bool)
    ensures
        r == is_pow2(n as nat),
{
    if n == 0 {
        return false;
    }
    let mut m: u64 = n;
    while m > 1 && m % 2 == 0
        invariant
            m >= 1,
            is_pow2(m as nat) == is_pow2(n as nat),
        decreases m,
    {
        m = m / 2;
    }
    m == 1
}

/// Checks the sizing parameters of a new table.
pub fn validate_params(init_size: u64, min_nr_alloc_buckets: u64, max_nr_buckets: u64) -> (r: Result<(), RcuError>)
    ensures
        r is Ok <==> valid_params(init_size, min_nr_alloc_buckets, max_nr_buckets),
        r is Err ==> r == Err::<(), RcuError>(RcuError::InvalidParameters),
{
    if power_of_two(init_size) && power_of_two(min_nr_alloc_buckets) && (max_nr_buckets == 0
        || power_of_two(max_nr_buckets)) {
        Ok(())
    } else {
        Err(RcuError::InvalidParameters)
    }
}

} // verus!
