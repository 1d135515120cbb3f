//! Counting permit pool that bounds how many transfers run at once.
//!
//! A worker takes one permit before it moves any bytes and gives it back
//! only when its task reaches a terminal state or is interrupted, so at
//! most `capacity` tasks are ever mid-transfer.

use vstd::prelude::*;

verus! {

/// A bounded pool of permits.  `in_use` counts permits currently held.
pub struct PermitPool {
    pub capacity: usize,
    pub in_use: usize,
}

impl PermitPool {
    /// A pool never hands out more permits than its capacity.
    pub open spec fn wf(&self) -> bool {
        self.in_use <= self.capacity
    }

    pub fn new(capacity: usize) -> (pool: Self)
        ensures
            pool.wf(),
            pool.capacity == capacity,
            pool.in_use == 0,
    {
        PermitPool { capacity, in_use: 0 }
    }

    /// Take one permit if any is free; report whether one was granted.
    pub fn try_acquire(&mut self) -> (granted: bool)
        requires
            old(self).wf(),
        ensures
            final(self).wf(),
            final(self).capacity == old(self).capacity,
            granted == (old(self).in_use < old(self).capacity),
            final(self).in_use == if granted {
                old(self).in_use + 1
            } else {
                old(self).in_use as int
            },
    {
        if self.in_use < self.capacity {
            self.in_use = self.in_use + 1;
            true
        } else {
            false
        }
    }

    /// Give one permit back.
    pub fn release(&mut self)
        requires
            old(self).wf(),
            old(self).in_use > 0,
        ensures
            final(self).wf(),
            final(self).capacity == old(self).capacity,
            final(self).in_use == old(self).in_use - 1,
    {
        self.in_use = self.in_use - 1;
    }
}

} // verus!
