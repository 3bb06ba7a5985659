//! Configuration surface of the shared mempool.

use vstd::prelude::*;

verus! {

/// Upper bound on a single application-level network message, in bytes.
pub const MAX_APPLICATION_MESSAGE_SIZE: u64 = 64 * 1024 * 1024;

/// Tunable parameters of the pool: capacity limits, broadcast pacing,
/// backoff, expiry, and inbound-sync concurrency.
#[derive(Clone, Copy, Debug, PartialEq, Eq, Structural)]
pub struct MempoolConfig {
    pub capacity: usize,
    pub capacity_bytes: usize,
    pub capacity_per_user: usize,
    /// number of failovers to broadcast to when the primary network is alive
    pub default_failovers: usize,
    pub max_broadcasts_per_peer: usize,
    pub mempool_snapshot_interval_secs: u64,
    pub shared_mempool_ack_timeout_ms: u64,
    pub shared_mempool_backoff_interval_ms: u64,
    pub shared_mempool_batch_size: usize,
    pub shared_mempool_max_batch_bytes: u64,
    pub shared_mempool_max_concurrent_inbound_syncs: usize,
    pub shared_mempool_tick_interval_ms: u64,
    pub system_transaction_timeout_secs: u64,
    pub system_transaction_gc_interval_ms: u64,
    pub shared_mempool_validator_broadcast: bool,
    pub shared_mempool_early_expiry_secs: u64,
}

impl MempoolConfig {
    /// The stock configuration of a node.
    pub open spec fn spec_default() -> MempoolConfig {
        MempoolConfig {
            shared_mempool_tick_interval_ms: 50,
            shared_mempool_backoff_interval_ms: 30_000,
            shared_mempool_batch_size: 100,
            shared_mempool_max_batch_bytes: MAX_APPLICATION_MESSAGE_SIZE,
            shared_mempool_ack_timeout_ms: 2_000,
            shared_mempool_max_concurrent_inbound_syncs: 4,
            max_broadcasts_per_peer: 1,
            mempool_snapshot_interval_secs: 180,
            capacity: 2_000_000,
            capacity_bytes: 2_147_483_648,
            capacity_per_user: 100,
            default_failovers: 3,
            system_transaction_timeout_secs: 600,
            system_transaction_gc_interval_ms: 60_000,
            shared_mempool_validator_broadcast: true,
            shared_mempool_early_expiry_secs: 2,
        }
    }
}

impl Default for MempoolConfig {
    fn default() -> (r: MempoolConfig)
        ensures
            r == MempoolConfig::spec_default(),
    {
        MempoolConfig {
            shared_mempool_tick_interval_ms: 50,
            shared_mempool_backoff_interval_ms: 30_000,
            shared_mempool_batch_size: 100,
            shared_mempool_max_batch_bytes: MAX_APPLICATION_MESSAGE_SIZE,
            shared_mempool_ack_timeout_ms: 2_000,
            shared_mempool_max_concurrent_inbound_syncs: 4,
            max_broadcasts_per_peer: 1,
            mempool_snapshot_interval_secs: 180,
            capacity: 2_000_000,
            capacity_bytes: 2_147_483_648,
            capacity_per_user: 100,
            default_failovers: 3,
            system_transaction_timeout_secs: 600,
            system_transaction_gc_interval_ms: 60_000,
            shared_mempool_validator_broadcast: true,
            shared_mempool_early_expiry_secs: 2,
        }
    }
}

} // verus!
