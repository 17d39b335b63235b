//! One permit per worker that measures.
//!
//! The extraction loop runs ahead of the measurements. Without a bound it would
//! pull every track out of the archive as fast as the zip decompresses and hand
//! them all to the pool at once, which holds the whole library decoded. A
//! permit is taken before a track is extracted and given back when its report
//! arrives, so the number of tracks in flight is the number of workers
//! measuring them.
//!
//! This is the count and its decisions. The page waits on it: it asks again
//! whenever a permit comes back.

use vstd::prelude::*;

verus! {

pub struct Permits {
    total: usize,
    free: usize,
}

impl Permits {
    #[verifier::type_invariant]
    spec fn inv(self) -> bool {
        1 <= self.total && self.free <= self.total
    }

    /// How many permits there are.
    pub closed spec fn spec_total(self) -> nat {
        self.total as nat
    }

    /// How many are not out.
    pub closed spec fn spec_free(self) -> nat {
        self.free as nat
    }

    /// One permit per worker, and at least one: a pool that reports no workers
    /// still measures one track at a time rather than none.
    pub fn new(total: usize) -> (r: Permits)
        ensures
            r.spec_total() == (if total == 0 { 1 } else { total }),
            r.spec_free() == r.spec_total(),
    {
        let total = if total == 0 { 1 } else { total };
        Permits { total, free: total }
    }

    /// Take a free permit if there is one. `false` means every worker is busy
    /// and the caller waits for one to come back.
    pub fn take(&mut self) -> (taken: bool)
        ensures
            taken == (old(self).spec_free() > 0),
            taken ==> final(self).spec_free() == old(self).spec_free() - 1,
            !taken ==> final(self).spec_free() == old(self).spec_free(),
            final(self).spec_total() == old(self).spec_total(),
    {
        proof {
            use_type_invariant(&*self);
        }
        if self.free > 0 {
            self.free = self.free - 1;
            true
        } else {
            false
        }
    }

    /// Whether every permit is back, which is when every measurement handed
    /// out has finished.
    pub fn drain(&self) -> (done: bool)
        ensures
            done == (self.spec_free() == self.spec_total()),
    {
        self.free == self.total
    }

    /// Give back a permit that was taken.
    pub fn give_back(&mut self)
        requires
            old(self).spec_free() < old(self).spec_total(),
        ensures
            final(self).spec_free() == old(self).spec_free() + 1,
            final(self).spec_total() == old(self).spec_total(),
    {
        self.free = self.free + 1;
    }

    /// How many permits are out.
    pub fn out(&self) -> (n: usize)
        ensures
            n == self.spec_total() - self.spec_free(),
    {
        proof {
            use_type_invariant(self);
        }
        self.total - self.free
    }
}

} // verus!
