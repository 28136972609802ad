use vstd::prelude::*;

verus! {

/// The lookup counts of one reader thread of a benchmark run.
pub struct ThreadData {
    pub key_found: u64,
    pub key_not_found: u64,
}

impl ThreadData {
    /// Counts that start at zero.
    pub fn new() -> (r: ThreadData)
        ensures
            r.key_found == 0,
            r.key_not_found == 0,
    {
        ThreadData { key_found: 0, key_not_found: 0 }
    }

    /// Counts one lookup, which found its key or not.
    pub fn record(&mut self, found: bool)
        requires
            found ==> old(self).key_found < u64::MAX,
            !found ==> old(self).key_not_found < u64::MAX,
        ensures
            final(self).key_found == old(self).key_found + if found { 1int } else { 0int },
            final(self).key_not_found == old(self).key_not_found + if found { 0int } else { 1int },
    {
        if found {
            self.key_found = self.key_found + 1;
        } else {
            self.key_not_found = self.key_not_found + 1;
        }
    }
}

} // verus!
