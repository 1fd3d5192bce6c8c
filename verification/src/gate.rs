//! Bounding how many pipelines execute at once.
//!
//! Each concurrent run gets its own memory limit and its own engine process, so
//! N at once needs roughly N times the memory and spawns N times the threads.
use vstd::prelude::*;

verus! {

/// The permits that runs hold while they execute.
pub struct RunGate {
    permits: usize,
    free: usize,
}

impl RunGate {
    /// How many runs may execute at once.
    pub closed spec fn permits(self) -> nat {
        self.permits as nat
    }

    /// How many permits are free.
    pub closed spec fn free(self) -> nat {
        self.free as nat
    }

    #[verifier::type_invariant]
    spec fn inv(self) -> bool {
        0 < self.permits && self.free <= self.permits
    }

    /// A gate with that many permits, and at least one.
    pub fn new(permits: usize) -> (r: RunGate)
        ensures
            r.permits() == if permits == 0 {
                1
            } else {
                permits as nat
            },
            r.free() == r.permits(),
    {
        let n: usize = if permits == 0 {
            1
        } else {
            permits
        };
        RunGate { permits: n, free: n }
    }

    /// Take a permit, unless all are held.
    pub fn try_acquire(&mut self) -> (r: bool)
        ensures
            final(self).permits() == old(self).permits(),
            r == (old(self).free() > 0),
            r ==> final(self).free() == old(self).free() - 1,
            !r ==> final(self).free() == old(self).free(),
    {
        proof {
            use_type_invariant(&*self);
        }
        if self.free == 0 {
            false
        } else {
            self.free = self.free - 1;
            true
        }
    }

    /// Give a permit back.
    pub fn release(&mut self)
        requires
            old(self).free() < old(self).permits(),
        ensures
            final(self).permits() == old(self).permits(),
            final(self).free() == old(self).free() + 1,
    {
        proof {
            use_type_invariant(&*self);
        }
        self.free = self.free + 1;
    }

    /// Whether any permit is held.
    pub fn is_held(&self) -> (r: bool)
        ensures
            r == (self.free() < self.permits()),
            self.free() <= self.permits(),
            self.permits() > 0,
    {
        proof {
            use_type_invariant(self);
        }
        self.free < self.permits
    }
}

} // verus!
