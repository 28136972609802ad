use vstd::prelude::*;

use crate::table::{RcuHt, Unlinked};

verus! {

/// Once `v` has been stored under `k`, a lookup of `k` finds `v`.
pub proof fn law_insert_then_get<V>(before: RcuHt<V>, after: RcuHt<V>, k: Seq<char>, v: V)
    requires
        RcuHt::inserted(before, after, k, v),
    ensures
        after.lookup(k) == Some(v),
{
}

/// Storing `v1` and then `v2` under `k` leaves exactly one live entry for
/// `k`, and a lookup of `k` finds `v2`.
pub proof fn law_replace<V>(
    t0: RcuHt<V>,
    t1: RcuHt<V>,
    t2: RcuHt<V>,
    k: Seq<char>,
    v1: V,
    v2: V,
)
    requires
        t2.wf(),
        RcuHt::inserted(t0, t1, k, v1),
        RcuHt::inserted(t1, t2, k, v2),
    ensures
        t2.lookup(k) == Some(v2),
        t2.single_entry(k),
{
    t2.lemma_single_entry(k);
}

/// Once the entry of `k` has been removed, a lookup of `k` finds nothing.
pub proof fn law_remove_then_get<V>(before: RcuHt<V>, after: RcuHt<V>, k: Seq<char>)
    requires
        RcuHt::removed(before, after, k),
    ensures
        after.lookup(k) is None,
{
}

/// A read session that is open while the entry of `k` is removed keeps the
/// removed value from being reclaimed: a reclamation right after the removal
/// retains the key, the value and the epoch of the unlinking.
pub proof fn law_reader_keeps_removed_value<V>(
    before: RcuHt<V>,
    after: RcuHt<V>,
    start: u64,
    k: Seq<char>,
)
    requires
        before.wf(),
        before.reader_open(start),
        before.contents().contains_key(k),
        RcuHt::removed(before, after, k),
    ensures
        after.after_reclaim().contains((k, before.contents()[k], before.epoch())),
{
    before.lemma_reader_started(start);
    let x: Unlinked<V> = (k, before.contents()[k], before.epoch());
    let s = after.retired_view();
    let j = choose|j: int| 0 <= j < before.readers().len() && before.readers()[j] == start;
    assert(after.readers()[j] <= x.2);
    assert(after.protected(x.2));
    assert(s[s.len() - 1] == x);
    s.lemma_filter_contains(after.survives(), s.len() - 1);
}

/// An unlinked entry that an open read session may still reference
/// survives a reclamation; as the read sessions stay the same across a
/// reclamation, it survives every reclamation until that session ends.
pub proof fn law_reclaim_keeps_protected<V>(t: RcuHt<V>, x: Unlinked<V>)
    requires
        t.retired_view().contains(x),
        t.protected(x.2),
    ensures
        t.after_reclaim().contains(x),
{
    let s = t.retired_view();
    let i = choose|i: int| 0 <= i < s.len() && s[i] == x;
    s.lemma_filter_contains(t.survives(), i);
}

/// Two write sessions never overlap: once one is granted, the next request
/// is refused until it closes.
pub proof fn law_writers_exclusive<V>(t0: RcuHt<V>, t1: RcuHt<V>, t2: RcuHt<V>, second: bool)
    requires
        RcuHt::write_requested(t0, t1, true),
        RcuHt::write_requested(t1, t2, second),
    ensures
        !second,
{
}

} // verus!
