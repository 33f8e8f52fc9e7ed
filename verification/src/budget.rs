//! The budget meter: remaining capacity for one invocation.
//!
//! The driver consults the meter before every unit of work.  A charge that
//! would drive the remaining capacity negative is rejected before anything
//! is consumed, so the meter never goes below zero.

use vstd::prelude::*;

verus! {

/// Remaining capacity of the current invocation, in units of work.
pub struct BudgetMeter {
    limit: u64,
    remaining: u64,
}

impl BudgetMeter {
    /// The capacity the meter was created with.
    pub closed spec fn spec_limit(&self) -> u64 {
        self.limit
    }

    /// The capacity still available.
    pub closed spec fn spec_remaining(&self) -> u64 {
        self.remaining
    }

    /// Consumed capacity never exceeds the limit.
    pub open spec fn wf(&self) -> bool {
        self.spec_remaining() <= self.spec_limit()
    }

    /// A fresh meter with the whole budget available.
    pub fn new(limit: u64) -> (m: Self)
        ensures
            m.spec_limit() == limit,
            m.spec_remaining() == limit,
            m.wf(),
    {
        BudgetMeter { limit, remaining: limit }
    }

    /// The capacity the meter was created with.
    pub fn limit(&self) -> (l: u64)
        ensures
            l == self.spec_limit(),
    {
        self.limit
    }

    /// The capacity still available.
    pub fn remaining(&self) -> (r: u64)
        ensures
            r == self.spec_remaining(),
    {
        self.remaining
    }

    /// Charges `cost` units if they are available, and says whether they
    /// were; a rejected charge leaves the meter unchanged.
    pub fn try_consume(&mut self, cost: u64) -> (charged: bool)
        ensures
            final(self).spec_limit() == old(self).spec_limit(),
            charged == (cost <= old(self).spec_remaining()),
            charged ==> final(self).spec_remaining() == old(self).spec_remaining() - cost,
            !charged ==> final(self).spec_remaining() == old(self).spec_remaining(),
            old(self).wf() ==> final(self).wf(),
    {
        if cost <= self.remaining {
            self.remaining = self.remaining - cost;
            true
        } else {
            false
        }
    }
}

} // verus!
