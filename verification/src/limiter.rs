//! Admission-control gates bounding how many deliveries may share a key.
//!
//! A limiter is immutable after construction except for its in-flight
//! counter. `try_admit` succeeds and takes a slot exactly when the counter
//! is below the bound; `release` gives the slot back and must be called
//! once per successful admission.

use vstd::prelude::*;

verus! {

/// An admission gate: at most `max_concurrent` deliveries sharing this
/// limiter may be in flight at once.
#[derive(Clone, Copy, PartialEq, Eq, Structural, Debug)]
pub struct ConcurrencyLimiter {
    /// Upper bound on simultaneous admissions; fixed at construction.
    pub max_concurrent: u64,
    /// Number of admissions currently outstanding.
    pub concurrent: u64,
}

impl ConcurrencyLimiter {
    /// A limiter never admits more than its bound.
    pub open spec fn wf(&self) -> bool {
        self.concurrent <= self.max_concurrent
    }

    /// Whether the limiter currently has a spare slot.
    pub open spec fn has_spare(&self) -> bool {
        self.concurrent < self.max_concurrent
    }

    pub fn new(max_concurrent: u64) -> (r: ConcurrencyLimiter)
        ensures
            r.wf(),
            r.max_concurrent == max_concurrent,
            r.concurrent == 0,
    {
        ConcurrencyLimiter { max_concurrent, concurrent: 0 }
    }

    /// Takes a slot iff the counter is below the bound; reports failure
    /// otherwise and leaves the limiter unchanged.
    pub fn try_admit(&mut self) -> (admitted: bool)
        requires
            old(self).wf(),
        ensures
            final(self).wf(),
            final(self).max_concurrent == old(self).max_concurrent,
            admitted == old(self).has_spare(),
            admitted ==> final(self).concurrent == old(self).concurrent + 1,
            !admitted ==> final(self).concurrent == old(self).concurrent,
    {
        if self.concurrent < self.max_concurrent {
            self.concurrent = self.concurrent + 1;
            true
        } else {
            false
        }
    }

    /// Gives back one slot taken by a successful `try_admit`.
    pub fn release(&mut self)
        requires
            old(self).wf(),
            old(self).concurrent > 0,
        ensures
            final(self).wf(),
            final(self).max_concurrent == old(self).max_concurrent,
            final(self).concurrent == old(self).concurrent - 1,
    {
        self.concurrent = self.concurrent - 1;
    }

    /// Whether any admission is outstanding; an idle limiter may be
    /// forgotten by reclamation passes.
    pub fn is_active(&self) -> (r: bool)
        ensures
            r == (self.concurrent > 0),
    {
        self.concurrent > 0
    }
}

} // verus!
