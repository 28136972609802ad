use vstd::prelude::*;

verus! {

/// The nesting count of the thread contexts that one thread holds.
///
/// The first acquisition is when the thread registers with the store, and
/// the release that brings the count back to zero is when it unregisters.
pub struct ThreadRegistration {
    count: u32,
}

impl ThreadRegistration {
    /// How many contexts the thread holds.
    pub closed spec fn count(&self) -> nat {
        self.count as nat
    }

    /// The thread is registered with the store.
    pub open spec fn registered(&self) -> bool {
        self.count() > 0
    }

    /// A thread that holds no context.
    pub fn new() -> (r: ThreadRegistration)
        ensures
            r.count() == 0,
    {
        ThreadRegistration { count: 0 }
    }

    /// Takes one more context; returns whether the thread must register now,
    /// which is exactly when the count leaves zero.
    pub fn acquire(&mut self) -> (register: bool)
        requires
            old(self).count() < u32::MAX,
        ensures
            final(self).count() == old(self).count() + 1,
            register == (old(self).count() == 0),
    {
        self.count = self.count + 1;
        self.count == 1
    }

    /// Gives one context back; returns whether the thread must unregister
    /// now, which is exactly when the count comes back to zero.
    pub fn release(&mut self) -> (unregister: bool)
        requires
            old(self).count() > 0,
        ensures
            final(self).count() == old(self).count() - 1,
            unregister == (final(self).count() == 0),
    {
        self.count = self.count - 1;
        self.count == 0
    }

    /// How many contexts the thread holds.
    pub fn contexts(&self) -> (r: u32)
        ensures
            r as nat == self.count(),
    {
        self.count
    }
}

} // verus!
