use vstd::prelude::*;

use crate::error::RcuError;
use crate::hashing::{key_hash, wyhash_of, HASH_SEED};
use crate::params::{valid_params, validate_params};
use crate::registration::ThreadRegistration;

verus! {

/// One entry of the table: a key, its hash and its value.
pub struct Node<V> {
    key: String,
    hash: u64,
    value: V,
}

/// An entry that a writer unlinked at `epoch`, waiting for its grace period.
pub struct Retired<V> {
    node: Node<V>,
    epoch: u64,
}

/// What the table keeps of an unlinked entry: its key, its value and the
/// epoch at which it was unlinked.
pub type Unlinked<V> = (Seq<char>, V, u64);

/// The token of the write lock. While no write session is open it rests in
/// the table; the open write session holds it.
pub struct RcuHtWriterGuard {
    held: bool,
}

impl RcuHtWriterGuard {
    /// A fresh token for the write lock of a new table.
    pub fn new() -> (r: RcuHtWriterGuard)
        ensures
            !r.held(),
    {
        RcuHtWriterGuard { held: false }
    }

    /// The token is in the hands of a write session.
    pub closed spec fn held(&self) -> bool {
        self.held
    }
}

/// A read-copy-update hash table from string keys to values.
///
/// Readers look keys up inside read sessions; one write session at a time
/// inserts, replaces and removes entries. An entry that a writer unlinks is
/// kept, with the epoch of its unlinking, until no read session that was
/// open at that epoch remains.
pub struct RcuHt<V> {
    live: Vec<Node<V>>,
    retired: Vec<Retired<V>>,
    readers: Vec<u64>,
    guard: Option<RcuHtWriterGuard>,
    threads: ThreadRegistration,
    epoch: u64,
    init_size: u64,
    min_nr_alloc_buckets: u64,
    max_nr_buckets: u64,
    autoresize: bool,
    contents: Ghost<Map<Seq<char>, V>>,
}

/// A thread context: the handle that opens sessions.
pub struct RcuHtThread {
    first: bool,
}

/// An open read session, started at epoch `start`.
pub struct RcuHtRead {
    start: u64,
}

/// The open write session: it holds the write lock's token.
pub struct RcuHtWriter {
    guard: RcuHtWriterGuard,
}

impl<V> RcuHt<V> {
    /// The map from each key in the table to its value.
    pub closed spec fn contents(&self) -> Map<Seq<char>, V> {
        self.contents@
    }

    /// What a lookup of `k` finds.
    pub open spec fn lookup(&self, k: Seq<char>) -> Option<V> {
        if self.contents().contains_key(k) {
            Some(self.contents()[k])
        } else {
            None
        }
    }

    /// The keys of the live entries, in the table's order.
    pub closed spec fn live_keys(&self) -> Seq<Seq<char>> {
        self.live@.map_values(|n: Node<V>| n.key@)
    }

    /// The unlinked entries that wait for their grace period.
    pub closed spec fn retired_view(&self) -> Seq<Unlinked<V>> {
        self.retired@.map_values(|r: Retired<V>| view_of(r))
    }

    /// The start epochs of the open read sessions.
    pub closed spec fn readers(&self) -> Seq<u64> {
        self.readers@
    }

    /// The current epoch: it advances at each unlinking.
    pub closed spec fn epoch(&self) -> u64 {
        self.epoch
    }

    /// No write session is open.
    pub closed spec fn lock_free(&self) -> bool {
        self.guard is Some
    }

    /// The sizing parameters the table was made with.
    pub closed spec fn sizing_params(&self) -> (u64, u64, u64, bool) {
        (self.init_size, self.min_nr_alloc_buckets, self.max_nr_buckets, self.autoresize)
    }

    /// The nesting count of thread contexts.
    pub closed spec fn registration(&self) -> ThreadRegistration {
        self.threads
    }

    /// A read session that started at `start` is open.
    pub open spec fn reader_open(&self, start: u64) -> bool {
        self.readers().contains(start)
    }

    /// An entry unlinked at epoch `e` may still be referenced: some open
    /// read session started no later than `e`.
    pub open spec fn protected(&self, e: u64) -> bool {
        exists|j: int| 0 <= j < self.readers().len() && self.readers()[j] <= e
    }

    /// Which unlinked entries survive a reclamation now: the protected ones.
    pub open spec fn survives(&self) -> spec_fn(Unlinked<V>) -> bool {
        |x: Unlinked<V>| self.protected(x.2)
    }

    /// The unlinked entries that survive a reclamation now.
    pub open spec fn after_reclaim(&self) -> Seq<Unlinked<V>> {
        self.retired_view().filter(self.survives())
    }

    /// The key `k` has exactly one live entry.
    pub open spec fn single_entry(&self, k: Seq<char>) -> bool {
        exists|i: int|
            0 <= i < self.live_keys().len() && self.live_keys()[i] == k && forall|j: int|
                0 <= j < self.live_keys().len() && self.live_keys()[j] == k ==> j == i
    }

    /// The table's internal invariant.
    pub closed spec fn wf(&self) -> bool {
        &&& forall|i: int|
            0 <= i < self.live@.len() ==> #[trigger] self.live@[i].hash == wyhash_of(
                HASH_SEED,
                self.live@[i].key@,
            )
        &&& forall|i: int, j: int|
            0 <= i < self.live@.len() && 0 <= j < self.live@.len() && #[trigger] self.live@[i].key@
                == #[trigger] self.live@[j].key@ ==> i == j
        &&& forall|i: int|
            0 <= i < self.live@.len() ==> #[trigger] self.contents@.contains_key(self.live@[i].key@)
                && self.contents@[self.live@[i].key@] == self.live@[i].value
        &&& forall|k: Seq<char>|
            #[trigger] self.contents@.contains_key(k) ==> exists|i: int|
                0 <= i < self.live@.len() && #[trigger] self.live@[i].key@ == k
        &&& forall|j: int| 0 <= j < self.readers@.len() ==> #[trigger] self.readers@[j] <= self.epoch
        &&& self.guard matches Some(g) ==> !g.held()
        &&& valid_params(self.init_size, self.min_nr_alloc_buckets, self.max_nr_buckets)
    }

    /// Makes a table with the given sizing parameters: the initial and the
    /// minimal allocated bucket counts must be powers of two, and the
    /// maximal one a power of two or zero (unbounded).
    pub fn new(init_size: u64, min_nr_alloc_buckets: u64, max_nr_buckets: u64, autoresize: bool) -> (r:
        Result<RcuHt<V>, RcuError>)
        ensures
            r is Err <==> !valid_params(init_size, min_nr_alloc_buckets, max_nr_buckets),
            r is Err ==> r == Err::<RcuHt<V>, RcuError>(RcuError::InvalidParameters),
            r matches Ok(t) ==> {
                &&& t.wf()
                &&& t.contents() == Map::<Seq<char>, V>::empty()
                &&& t.live_keys() == Seq::<Seq<char>>::empty()
                &&& t.retired_view() == Seq::<Unlinked<V>>::empty()
                &&& t.readers() == Seq::<u64>::empty()
                &&& t.lock_free()
                &&& t.registration().count() == 0
                &&& t.epoch() == 0
                &&& t.sizing_params() == (init_size, min_nr_alloc_buckets, max_nr_buckets, autoresize)
            },
    {
        match validate_params(init_size, min_nr_alloc_buckets, max_nr_buckets) {
            Err(e) => Err(e),
            Ok(()) => {
                let t = RcuHt {
                    live: Vec::new(),
                    retired: Vec::new(),
                    readers: Vec::new(),
                    guard: Some(RcuHtWriterGuard::new()),
                    threads: ThreadRegistration::new(),
                    epoch: 0,
                    init_size,
                    min_nr_alloc_buckets,
                    max_nr_buckets,
                    autoresize,
                    contents: Ghost(Map::empty()),
                };
                proof {
                    assert(t.live_keys() =~= Seq::<Seq<char>>::empty());
                    assert(t.retired_view() =~= Seq::<Unlinked<V>>::empty());
                }
                Ok(t)
            },
        }
    }

    /// `after` is `before` with `v` stored under `k`: a displaced entry is
    /// unlinked at the current epoch, which then advances.
    pub open spec fn inserted(before: Self, after: Self, k: Seq<char>, v: V) -> bool {
        &&& after.contents() == before.contents().insert(k, v)
        &&& after.retired_view() == if before.contents().contains_key(k) {
            before.retired_view().push((k, before.contents()[k], before.epoch()))
        } else {
            before.retired_view()
        }
        &&& after.epoch() == if before.contents().contains_key(k) {
            next_epoch(before.epoch())
        } else {
            before.epoch()
        }
        &&& after.readers() == before.readers()
        &&& after.lock_free() == before.lock_free()
        &&& after.registration() == before.registration()
    }

    /// `after` is `before` with the entry of `k`, which is present, unlinked
    /// at the current epoch, which then advances.
    pub open spec fn removed(before: Self, after: Self, k: Seq<char>) -> bool {
        &&& after.contents() == before.contents().remove(k)
        &&& after.retired_view() == before.retired_view().push(
            (k, before.contents()[k], before.epoch()),
        )
        &&& after.epoch() == next_epoch(before.epoch())
        &&& after.readers() == before.readers()
        &&& after.lock_free() == before.lock_free()
        &&& after.registration() == before.registration()
    }

    /// `after` follows a request for the write lock on `before`, and
    /// `granted` tells whether it was granted: exactly when the lock was free.
    /// Either way the lock is taken afterwards.
    pub open spec fn write_requested(before: Self, after: Self, granted: bool) -> bool {
        &&& granted == before.lock_free()
        &&& !after.lock_free()
        &&& Self::same_entries(before, after)
        &&& after.readers() == before.readers()
        &&& after.registration() == before.registration()
    }

    /// Well-formedness carries over to a table with the same live entries,
    /// the same read sessions, a later epoch and a free or held lock.
    proof fn lemma_wf_transfer(a: Self, b: Self)
        requires
            a.wf(),
            b.live@ == a.live@,
            b.readers@ == a.readers@,
            b.contents == a.contents,
            b.epoch >= a.epoch,
            b.init_size == a.init_size,
            b.min_nr_alloc_buckets == a.min_nr_alloc_buckets,
            b.max_nr_buckets == a.max_nr_buckets,
            b.guard matches Some(g) ==> !g.held(),
        ensures
            b.wf(),
    {
        assert forall|j: int| 0 <= j < b.readers@.len() implies #[trigger] b.readers@[j] <= b.epoch by {
            assert(a.readers@[j] <= a.epoch);
        }
    }

    /// A well-formed table holds at most one live entry per key.
    pub proof fn lemma_single_entry(&self, k: Seq<char>)
        requires
            self.wf(),
            self.contents().contains_key(k),
        ensures
            self.single_entry(k),
    {
        let i = choose|i: int| 0 <= i < self.live@.len() && #[trigger] self.live@[i].key@ == k;
        assert(self.live_keys()[i] == k);
    }

    /// Every open read session started no later than the current epoch.
    pub proof fn lemma_reader_started(&self, start: u64)
        requires
            self.wf(),
            self.reader_open(start),
        ensures
            start <= self.epoch(),
    {
        let j = choose|j: int| 0 <= j < self.readers@.len() && self.readers@[j] == start;
        assert(self.readers@[j] <= self.epoch);
    }

    /// `after` holds the same entries as `before`, live and unlinked.
    pub open spec fn same_entries(before: Self, after: Self) -> bool {
        &&& after.contents() == before.contents()
        &&& after.retired_view() == before.retired_view()
        &&& after.epoch() == before.epoch()
    }

    /// `after` has the same open sessions and contexts as `before`.
    pub open spec fn same_sessions(before: Self, after: Self) -> bool {
        &&& after.readers() == before.readers()
        &&& after.lock_free() == before.lock_free()
        &&& after.registration() == before.registration()
    }

    /// Opens a thread context: the first one registers the thread.
    pub fn thread(&mut self) -> (r: RcuHtThread)
        requires
            old(self).wf(),
            old(self).registration().count() < u32::MAX,
        ensures
            final(self).wf(),
            final(self).registration().count() == old(self).registration().count() + 1,
            Self::same_entries(*old(self), *final(self)),
            final(self).readers() == old(self).readers(),
            final(self).lock_free() == old(self).lock_free(),
            r.first() == (old(self).registration().count() == 0),
    {
        let ghost before = *self;
        let first = self.threads.acquire();
        proof {
            RcuHt::lemma_wf_transfer(before, *self);
        }
        RcuHtThread { first }
    }

    /// The sizing parameters the table was made with: the initial, minimal
    /// allocated and maximal bucket counts, and whether it resizes itself.
    pub fn sizing(&self) -> (r: (u64, u64, u64, bool))
        requires
            self.wf(),
        ensures
            r == self.sizing_params(),
            valid_params(r.0, r.1, r.2),
    {
        (self.init_size, self.min_nr_alloc_buckets, self.max_nr_buckets, self.autoresize)
    }

    /// Frees the unlinked entries whose grace period is over: those that no
    /// open read session may still reference. Returns how many were freed.
    pub fn reclaim(&mut self) -> (freed: usize)
        requires
            old(self).wf(),
        ensures
            final(self).wf(),
            final(self).retired_view() == old(self).after_reclaim(),
            freed == old(self).retired_view().len() - final(self).retired_view().len(),
            final(self).contents() == old(self).contents(),
            final(self).epoch() == old(self).epoch(),
            Self::same_sessions(*old(self), *final(self)),
    {
        let ghost orig = self.retired_view();
        let mut rest: Vec<Retired<V>> = Vec::new();
        std::mem::swap(&mut rest, &mut self.retired);
        let total = rest.len();
        let ghost n = rest@.len();
        let mut rest_rev: Vec<Retired<V>> = Vec::new();
        while rest.len() > 0
            invariant
                n == orig.len(),
                rest@.len() + rest_rev@.len() == n,
                forall|j: int| 0 <= j < rest@.len() ==> #[trigger] view_of(rest@[j]) == orig[j],
                forall|j: int|
                    0 <= j < rest_rev@.len() ==> #[trigger] view_of(rest_rev@[j]) == orig[n - 1 - j],
            decreases rest@.len(),
        {
            let r = rest.pop().unwrap();
            rest_rev.push(r);
        }
        let ghost pred = old(self).survives();
        let mut kept: Vec<Retired<V>> = Vec::new();
        let mut freed: usize = 0;
        let mut k: usize = 0;
        while rest_rev.len() > 0
            invariant
                n == orig.len(),
                n == total,
                pred == old(self).survives(),
                self.readers@ == old(self).readers@,
                k + rest_rev@.len() == n,
                forall|j: int|
                    0 <= j < rest_rev@.len() ==> #[trigger] view_of(rest_rev@[j]) == orig[n - 1 - j],
                kept@.map_values(|r: Retired<V>| view_of(r)) == orig.subrange(0, k as int).filter(pred),
                freed + kept@.len() == k,
            decreases rest_rev@.len(),
        {
            let r = rest_rev.pop().unwrap();
            let ghost x = view_of(r);
            let ghost prev = kept@.map_values(|r: Retired<V>| view_of(r));
            proof {
                assert(x == orig[k as int]);
                assert(orig.subrange(0, k + 1) =~= orig.subrange(0, k as int).push(x));
                orig.subrange(0, k as int).lemma_filter_push(x, pred);
            }
            let keep = self.is_protected(r.epoch);
            proof {
                assert(self.readers() == old(self).readers());
                assert(x.2 == r.epoch);
                assert(pred(x) == old(self).protected(x.2));
                assert(keep == pred(x));
            }
            if keep {
                kept.push(r);
                proof {
                    assert(kept@.map_values(|r: Retired<V>| view_of(r)) =~= prev.push(x));
                }
            } else {
                freed = freed + 1;
            }
            k = k + 1;
        }
        proof {
            assert(orig.subrange(0, n as int) =~= orig);
        }
        let ghost before = *self;
        self.retired = kept;
        assert(self.live@ == before.live@);
        freed
    }

    /// Unlinks `node` at the current epoch, which then advances.
    fn retire(&mut self, node: Node<V>)
        ensures
            final(self).retired_view() == old(self).retired_view().push(
                (node.key@, node.value, old(self).epoch()),
            ),
            final(self).epoch() == next_epoch(old(self).epoch()),
            final(self).live@ == old(self).live@,
            final(self).readers@ == old(self).readers@,
            final(self).guard == old(self).guard,
            final(self).threads == old(self).threads,
            final(self).contents == old(self).contents,
            final(self).init_size == old(self).init_size,
            final(self).min_nr_alloc_buckets == old(self).min_nr_alloc_buckets,
            final(self).max_nr_buckets == old(self).max_nr_buckets,
    {
        let ghost prev = self.retired_view();
        let ghost x = (node.key@, node.value, self.epoch);
        self.retired.push(Retired { node, epoch: self.epoch });
        assert(self.retired_view() =~= prev.push(x));
        if self.epoch < u64::MAX {
            self.epoch = self.epoch + 1;
        }
    }

    /// Tells whether an entry unlinked at `e` may still be referenced.
    fn is_protected(&self, e: u64) -> (r: bool)
        ensures
            r == self.protected(e),
    {
        let mut j: usize = 0;
        while j < self.readers.len()
            invariant
                j <= self.readers@.len(),
                forall|i: int| 0 <= i < j ==> self.readers@[i] > e,
            decreases self.readers@.len() - j,
        {
            if self.readers[j] <= e {
                assert(self.readers()[j as int] <= e);
                return true;
            }
            j = j + 1;
        }
        false
    }

    /// Finds the position of the live entry with key `key` and hash `h`.
    fn find(&self, key: &String, h: u64) -> (r: Option<usize>)
        requires
            self.wf(),
            h == wyhash_of(HASH_SEED, key@),
        ensures
            r matches Some(i) ==> i < self.live@.len() && self.live@[i as int].key@ == key@,
            r is None ==> forall|i: int| 0 <= i < self.live@.len() ==> self.live@[i].key@ != key@,
    {
        let mut i: usize = 0;
        while i < self.live.len()
            invariant
                self.wf(),
                h == wyhash_of(HASH_SEED, key@),
                i <= self.live@.len(),
                forall|j: int| 0 <= j < i ==> self.live@[j].key@ != key@,
            decreases self.live@.len() - i,
        {
            let n = &self.live[i];
            if n.hash == h && n.key == *key {
                return Some(i);
            }
            i = i + 1;
        }
        None
    }
}


impl RcuHtThread {
    /// This context was the thread's first: opening it registered the thread.
    pub closed spec fn first(&self) -> bool {
        self.first
    }

    /// Closes this thread context; returns whether it was the thread's last,
    /// whose closing unregisters the thread.
    pub fn close<V>(self, ht: &mut RcuHt<V>) -> (last: bool)
        requires
            old(ht).wf(),
            old(ht).registration().count() > 0,
        ensures
            final(ht).wf(),
            final(ht).registration().count() == old(ht).registration().count() - 1,
            RcuHt::same_entries(*old(ht), *final(ht)),
            final(ht).readers() == old(ht).readers(),
            final(ht).lock_free() == old(ht).lock_free(),
            last == (final(ht).registration().count() == 0),
    {
        let ghost before = *ht;
        let last = ht.threads.release();
        proof {
            RcuHt::lemma_wf_transfer(before, *ht);
        }
        last
    }

    /// Opens a read session, which starts at the current epoch. It never
    /// waits for a writer.
    pub fn rdlock<V>(&self, ht: &mut RcuHt<V>) -> (r: RcuHtRead)
        requires
            old(ht).wf(),
            old(ht).registration().registered(),
        ensures
            final(ht).wf(),
            r.start() == old(ht).epoch(),
            final(ht).readers() == old(ht).readers().push(old(ht).epoch()),
            final(ht).reader_open(r.start()),
            RcuHt::same_entries(*old(ht), *final(ht)),
            final(ht).lock_free() == old(ht).lock_free(),
            final(ht).registration() == old(ht).registration(),
    {
        let ghost before = *ht;
        let start = ht.epoch;
        ht.readers.push(start);
        assert(ht.readers()[ht.readers().len() - 1] == start);
        assert(ht.live@ == before.live@);
        RcuHtRead { start }
    }

    /// Opens the write session, if no other is open; `None` tells that the
    /// caller would have to wait for the open one to end.
    pub fn wrlock<V>(&self, ht: &mut RcuHt<V>) -> (r: Option<RcuHtWriter>)
        requires
            old(ht).wf(),
            old(ht).registration().registered(),
        ensures
            final(ht).wf(),
            RcuHt::write_requested(*old(ht), *final(ht), r is Some),
    {
        let ghost before = *ht;
        let mut slot: Option<RcuHtWriterGuard> = None;
        std::mem::swap(&mut slot, &mut ht.guard);
        assert(ht.live@ == before.live@);
        match slot {
            Some(g) => {
                let mut g = g;
                g.held = true;
                Some(RcuHtWriter { guard: g })
            },
            None => None,
        }
    }
}

impl RcuHtRead {
    /// The epoch at which this session started.
    pub closed spec fn start(&self) -> u64 {
        self.start
    }

    /// Looks `key` up: the value stored under it, if any.
    pub fn get<'a, V>(&self, ht: &'a RcuHt<V>, key: &str) -> (r: Option<&'a V>)
        requires
            ht.wf(),
            ht.reader_open(self.start()),
        ensures
            r is None <==> ht.lookup(key@) is None,
            r matches Some(v) ==> ht.lookup(key@) == Some(*v),
    {
        let owned = key.to_string();
        let h = key_hash(HASH_SEED, key);
        match ht.find(&owned, h) {
            Some(i) => Some(&ht.live[i].value),
            None => None,
        }
    }

    /// Ends this read session; entries unlinked while it was open may then
    /// become reclaimable.
    pub fn close<V>(self, ht: &mut RcuHt<V>)
        requires
            old(ht).wf(),
            old(ht).reader_open(self.start()),
        ensures
            final(ht).wf(),
            exists|i: int|
                0 <= i < old(ht).readers().len() && old(ht).readers()[i] == self.start()
                    && final(ht).readers() == old(ht).readers().remove(i),
            RcuHt::same_entries(*old(ht), *final(ht)),
            final(ht).lock_free() == old(ht).lock_free(),
            final(ht).registration() == old(ht).registration(),
    {
        let ghost before = *ht;
        let mut j: usize = 0;
        while j < ht.readers.len() && ht.readers[j] != self.start
            invariant
                *ht == before,
                before.readers@.contains(self.start),
                j <= ht.readers@.len(),
                forall|i: int| 0 <= i < j ==> ht.readers@[i] != self.start,
            decreases ht.readers@.len() - j,
        {
            j = j + 1;
        }
        proof {
            if j == ht.readers@.len() {
                let w = choose|w: int| 0 <= w < before.readers@.len() && before.readers@[w] == self.start;
                assert(ht.readers@[w] != self.start);
            }
        }
        ht.readers.remove(j);
        assert(ht.live@ == before.live@);
        assert(ht.readers() == before.readers().remove(j as int));
    }
}

impl RcuHtWriter {
    /// Stores `value` under `key`. An entry already stored under `key` is
    /// unlinked and handed to reclamation; it is not freed now.
    pub fn insert_or_replace<V>(&mut self, ht: &mut RcuHt<V>, key: String, value: V)
        requires
            old(ht).wf(),
            !old(ht).lock_free(),
        ensures
            final(ht).wf(),
            RcuHt::inserted(*old(ht), *final(ht), key@, value),
    {
        let ghost before = *ht;
        let ghost k = key@;
        let ghost v = value;
        let h = key_hash(HASH_SEED, key.as_str());
        let found = ht.find(&key, h);
        let node = Node { key, hash: h, value };
        ht.live.push(node);
        match found {
            Some(i) => {
                let old_node = ht.live.swap_remove(i);
                let ghost ov = old_node.value;
                proof {
                    assert(old_node == before.live@[i as int]);
                    assert(before.contents@.contains_key(before.live@[i as int].key@));
                    assert(before.contents@[k] == ov);
                    assert(ht.live@ =~= before.live@.update(i as int, node));
                    ht.contents@ = ht.contents@.insert(k, v);
                }
                ht.retire(old_node);
                assert(ht.live@ == before.live@.update(i as int, node));
                assert(ht.wf()) by {
                    assert forall|k2: Seq<char>| #[trigger] ht.contents@.contains_key(k2) implies exists|j: int|
                        0 <= j < ht.live@.len() && #[trigger] ht.live@[j].key@ == k2 by {
                        if k2 == k {
                            assert(ht.live@[i as int].key@ == k2);
                        } else {
                            let j = choose|j: int| 0 <= j < before.live@.len() && #[trigger] before.live@[j].key@ == k2;
                            assert(ht.live@[j].key@ == k2);
                        }
                    }
                }
                proof {
                    assert(before.contents()[k] == ov);
                    assert(ht.retired_view() == before.retired_view().push((k, ov, before.epoch())));
                }
            },
            None => {
                proof {
                    ht.contents@ = ht.contents@.insert(k, v);
                    assert(ht.live@ == before.live@.push(node));
                    let n = before.live@.len() as int;
                    assert(ht.live@[n].key@ == k);
                    assert forall|k2: Seq<char>| #[trigger] ht.contents@.contains_key(k2) implies exists|j: int|
                        0 <= j < ht.live@.len() && #[trigger] ht.live@[j].key@ == k2 by {
                        if k2 == k {
                            assert(ht.live@[n].key@ == k2);
                        } else {
                            let j = choose|j: int| 0 <= j < before.live@.len() && #[trigger] before.live@[j].key@ == k2;
                            assert(ht.live@[j].key@ == k2);
                        }
                    }
                    assert(!before.contents().contains_key(k));
                    assert(ht.retired_view() =~= before.retired_view());
                }
            },
        }
    }

    /// Removes the entry stored under `key`, if there is one, and hands it
    /// to reclamation; it is not freed now.
    pub fn remove<V>(&mut self, ht: &mut RcuHt<V>, key: &str) -> (r: Result<(), RcuError>)
        requires
            old(ht).wf(),
            !old(ht).lock_free(),
        ensures
            final(ht).wf(),
            r is Ok <==> old(ht).contents().contains_key(key@),
            r is Err ==> r == Err::<(), RcuError>(RcuError::NotFound) && *final(ht) == *old(ht),
            r is Ok ==> RcuHt::removed(*old(ht), *final(ht), key@),
    {
        let ghost before = *ht;
        let ghost k = key@;
        let owned = key.to_string();
        let h = key_hash(HASH_SEED, key);
        match ht.find(&owned, h) {
            None => {
                proof {
                    if before.contents().contains_key(k) {
                        let j = choose|j: int| 0 <= j < before.live@.len() && #[trigger] before.live@[j].key@ == k;
                    }
                }
                Err(RcuError::NotFound)
            },
            Some(i) => {
                let ghost last = ht.live@.len() - 1;
                let old_node = ht.live.swap_remove(i);
                let ghost ov = old_node.value;
                proof {
                    assert(old_node == before.live@[i as int]);
                    assert(before.contents@.contains_key(before.live@[i as int].key@));
                    assert(before.contents@[k] == ov);
                    ht.contents@ = ht.contents@.remove(k);
                    assert forall|k2: Seq<char>| #[trigger] ht.contents@.contains_key(k2) implies exists|j: int|
                        0 <= j < ht.live@.len() && #[trigger] ht.live@[j].key@ == k2 by {
                        let j = choose|j: int| 0 <= j < before.live@.len() && #[trigger] before.live@[j].key@ == k2;
                        if j == last {
                            assert(ht.live@[i as int].key@ == k2);
                        } else {
                            assert(ht.live@[j].key@ == k2);
                        }
                    }
                }
                proof {
                    assert forall|a: int| 0 <= a < ht.live@.len() implies #[trigger] ht.live@[a].hash
                        == wyhash_of(HASH_SEED, ht.live@[a].key@) by {
                        if a == i {
                            assert(ht.live@[a] == before.live@[last]);
                        } else {
                            assert(ht.live@[a] == before.live@[a]);
                        }
                    }
                    assert forall|a: int, b: int|
                        0 <= a < ht.live@.len() && 0 <= b < ht.live@.len() && #[trigger] ht.live@[a].key@
                            == #[trigger] ht.live@[b].key@ implies a == b by {
                        let a0 = if a == i { last } else { a };
                        let b0 = if b == i { last } else { b };
                        assert(ht.live@[a] == before.live@[a0]);
                        assert(ht.live@[b] == before.live@[b0]);
                    }
                    assert forall|a: int| 0 <= a < ht.live@.len() implies #[trigger] ht.contents@.contains_key(
                        ht.live@[a].key@,
                    ) && ht.contents@[ht.live@[a].key@] == ht.live@[a].value by {
                        let a0 = if a == i { last } else { a };
                        assert(ht.live@[a] == before.live@[a0]);
                        assert(before.contents@.contains_key(before.live@[a0].key@));
                        assert(before.live@[a0].key@ != k);
                    }
                    assert(ht.wf());
                }
                let ghost mid = *ht;
                ht.retire(old_node);
                proof {
                    RcuHt::lemma_wf_transfer(mid, *ht);
                    assert(ht.contents() == before.contents().remove(k));
                    assert(ht.retired_view() == before.retired_view().push((k, ov, before.epoch())));
                    assert(ht.readers() == before.readers());
                }
                Ok(())
            },
        }
    }

    /// Ends the write session: the write lock is free again.
    pub fn close<V>(self, ht: &mut RcuHt<V>)
        requires
            old(ht).wf(),
            !old(ht).lock_free(),
        ensures
            final(ht).wf(),
            final(ht).lock_free(),
            RcuHt::same_entries(*old(ht), *final(ht)),
            final(ht).readers() == old(ht).readers(),
            final(ht).registration() == old(ht).registration(),
    {
        let ghost before = *ht;
        let mut g = self.guard;
        g.held = false;
        ht.guard = Some(g);
        proof {
            RcuHt::lemma_wf_transfer(before, *ht);
        }
    }
}

/// The epoch that follows `e`; it stays put at the largest value.
pub open spec fn next_epoch(e: u64) -> u64 {
    if e < u64::MAX {
        (e + 1) as u64
    } else {
        e
    }
}

/// What the table keeps of an unlinked entry.
spec fn view_of<V>(r: Retired<V>) -> Unlinked<V> {
    (r.node.key@, r.node.value, r.epoch)
}

} // verus!
