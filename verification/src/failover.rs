//! Choice among redundant network instances of one peer: after enough
//! consecutive failures the next untried alternate is selected; when all
//! are exhausted the peer stays where it is.

use vstd::prelude::*;

verus! {

/// Decides when and where a peer's broadcasts fail over.
pub struct FailoverCoordinator {
    /// Consecutive unacknowledged attempts before switching instances;
    /// an operational tuning knob.
    pub failover_threshold: u64,
    /// The primary plus the configured number of alternates.
    pub num_instances: u64,
}

impl FailoverCoordinator {
    pub open spec fn inv(&self) -> bool {
        self.num_instances >= 1
    }

    pub fn new(failover_threshold: u64, default_failovers: u64) -> (r: FailoverCoordinator)
        requires
            default_failovers < u64::MAX,
        ensures
            r.inv(),
            r.failover_threshold == failover_threshold,
            r.num_instances == default_failovers + 1,
    {
        FailoverCoordinator {
            failover_threshold,
            num_instances: default_failovers + 1,
        }
    }

    /// The failure streak has crossed the switching threshold.
    pub fn should_failover(&self, failures: u64) -> (r: bool)
        ensures
            r == (failures >= self.failover_threshold),
    {
        failures >= self.failover_threshold
    }

    /// The next untried instance after `current`, or none when every
    /// alternate has been used.
    pub fn next_instance(&self, current: u64) -> (r: Option<u64>)
        requires
            self.inv(),
            current < self.num_instances,
        ensures
            r == (if current + 1 < self.num_instances {
                Some((current + 1) as u64)
            } else {
                None::<u64>
            }),
    {
        if current + 1 < self.num_instances {
            Some(current + 1)
        } else {
            None
        }
    }
}

} // verus!
