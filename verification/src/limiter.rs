//! Bound on concurrently-processed inbound broadcasts. Excess requests
//! are rejected at once, never queued, so a burst of inbound gossip
//! cannot build unbounded latency; the sender's own backoff covers the
//! retry.

use vstd::prelude::*;

verus! {

/// Counting gate with a fixed ceiling.
pub struct InboundSyncLimiter {
    pub limit: usize,
    pub active: usize,
}

impl InboundSyncLimiter {
    /// Never more work in flight than the ceiling allows.
    pub open spec fn inv(&self) -> bool {
        self.active <= self.limit
    }

    pub fn new(limit: usize) -> (r: InboundSyncLimiter)
        ensures
            r.inv(),
            r.limit == limit,
            r.active == 0,
    {
        InboundSyncLimiter { limit, active: 0 }
    }

    /// Take a slot if one is free; a full limiter refuses and is left
    /// unchanged.
    pub fn acquire(&mut self) -> (granted: bool)
        requires
            old(self).inv(),
        ensures
            final(self).inv(),
            final(self).limit == old(self).limit,
            granted == (old(self).active < old(self).limit),
            granted ==> final(self).active == old(self).active + 1,
            !granted ==> *final(self) == *old(self),
    {
        if self.active < self.limit {
            self.active = self.active + 1;
            true
        } else {
            false
        }
    }

    /// Give a slot back once the inbound batch is fully processed.
    pub fn release(&mut self)
        requires
            old(self).inv(),
            old(self).active > 0,
        ensures
            final(self).inv(),
            final(self).limit == old(self).limit,
            final(self).active == old(self).active - 1,
    {
        self.active = self.active - 1;
    }
}

} // verus!
