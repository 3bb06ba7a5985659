use shared_mempool::broadcast::{backoff_delay, BroadcastScheduler, PeerBroadcastState, PeerPhase};
use shared_mempool::config::MempoolConfig;
use shared_mempool::failover::FailoverCoordinator;
use shared_mempool::limiter::InboundSyncLimiter;
use shared_mempool::mempool::{InboundError, SharedMempool};
use shared_mempool::reaper::ExpiryReaper;
use shared_mempool::record::{TransactionRecord, TxnOrigin};
use shared_mempool::store::MempoolStore;

fn rec(sender: u64, seq: u64, priority: u64, size: usize, expiration_secs: u64) -> TransactionRecord {
    TransactionRecord::new(sender, seq, priority, vec![0u8; size], expiration_secs, TxnOrigin::Local)
}

#[test]
fn backoff_delay_doubles_per_failure_and_caps() {
    assert_eq!(backoff_delay(30_000, 0), 30_000);
    assert_eq!(backoff_delay(30_000, 1), 60_000);
    assert_eq!(backoff_delay(30_000, 2), 120_000);
    // the exponent is capped
    assert_eq!(backoff_delay(1, 16), 65_536);
    assert_eq!(backoff_delay(1, 1_000), 65_536);
    // and the product saturates instead of wrapping
    assert_eq!(backoff_delay(u64::MAX, 3), u64::MAX);
}

#[test]
fn two_consecutive_timeouts_schedule_third_retry_after_four_bases() {
    let mut store = MempoolStore::new(10, 1_000_000, 10);
    store.submit(rec(1, 1, 5, 4, 1_000_000), 0).unwrap();
    let mut p = PeerBroadcastState::new(7, 0, true);

    let batch = p.start_broadcast(&store, 10, 1_000_000, 0);
    assert_eq!(batch.len(), 1);
    p.mark_dispatched(2_000, 0);
    assert!(p.on_timeout(30_000, 2_000));
    assert_eq!(p.failures, 1);
    assert_eq!(p.backoff_deadline_ms, 2_000 + 60_000);

    let retry_at = p.backoff_deadline_ms;
    let batch2 = p.start_broadcast(&store, 10, 1_000_000, retry_at);
    assert_eq!(batch2.len(), 1);
    p.mark_dispatched(2_000, retry_at);
    let second_timeout_at = retry_at + 2_000;
    assert!(p.on_timeout(30_000, second_timeout_at));
    assert_eq!(p.failures, 2);
    // the third retry is held back by four base intervals from the
    // moment of the second timeout
    assert_eq!(p.backoff_deadline_ms, second_timeout_at + 30_000 * 4);
    assert!(p.backoff_deadline_ms >= second_timeout_at + 120_000);
}

#[test]
fn timeout_rolls_back_cursor_so_batch_reappears() {
    let mut store = MempoolStore::new(10, 1_000_000, 10);
    store.submit(rec(1, 1, 5, 4, 1_000_000), 0).unwrap();
    store.submit(rec(2, 5, 3, 4, 1_000_000), 0).unwrap();
    let mut p = PeerBroadcastState::new(7, 0, true);

    let first = p.start_broadcast(&store, 10, 1_000_000, 0);
    let first_keys: Vec<(u64, u64)> =
        first.iter().map(|t| (t.sender, t.sequence_number)).collect();
    assert_eq!(first_keys.len(), 2);
    p.mark_dispatched(2_000, 0);
    // while in flight nothing more is eligible for this peer
    assert!(p.on_timeout(30_000, 2_000));

    // after the rollback the very same transactions are eligible again
    let again = p.start_broadcast(&store, 10, 1_000_000, p.backoff_deadline_ms);
    let again_keys: Vec<(u64, u64)> =
        again.iter().map(|t| (t.sender, t.sequence_number)).collect();
    assert_eq!(first_keys, again_keys);
}

#[test]
fn ack_confirms_cursor_and_resets_failures() {
    let mut store = MempoolStore::new(10, 1_000_000, 10);
    store.submit(rec(1, 1, 5, 4, 1_000_000), 0).unwrap();
    let mut p = PeerBroadcastState::new(7, 0, true);

    let batch = p.start_broadcast(&store, 10, 1_000_000, 0);
    assert_eq!(batch.len(), 1);
    p.mark_dispatched(2_000, 0);
    let attempt = p.attempt;
    assert!(p.on_ack(attempt, 100));
    assert_eq!(p.phase, PeerPhase::Idle);
    assert_eq!(p.failures, 0);
    // the acknowledged transactions are not re-sent
    let after = p.start_broadcast(&store, 10, 1_000_000, 200);
    assert_eq!(after.len(), 0);
}

#[test]
fn stale_ack_is_ignored() {
    let mut store = MempoolStore::new(10, 1_000_000, 10);
    store.submit(rec(1, 1, 5, 4, 1_000_000), 0).unwrap();
    let mut p = PeerBroadcastState::new(7, 0, true);
    let _ = p.start_broadcast(&store, 10, 1_000_000, 0);
    p.mark_dispatched(2_000, 0);
    let stale = p.attempt - 1;
    assert!(!p.on_ack(stale, 100));
    assert_eq!(p.phase, PeerPhase::AwaitingAck);
}

#[test]
fn limiter_rejects_second_concurrent_sync_until_first_completes() {
    let mut limiter = InboundSyncLimiter::new(1);
    assert!(limiter.acquire());
    // the second concurrent inbound batch is refused, not queued
    assert!(!limiter.acquire());
    limiter.release();
    // once the first completes, the next succeeds
    assert!(limiter.acquire());
}

#[test]
fn inbound_broadcast_busy_while_limit_held() {
    let cfg = MempoolConfig {
        capacity: 10,
        capacity_bytes: 1_000_000,
        capacity_per_user: 10,
        shared_mempool_max_concurrent_inbound_syncs: 1,
        ..MempoolConfig::default()
    };
    let mut pool = SharedMempool::new(&cfg);
    // another inbound batch is being processed concurrently
    pool.limiter.active = 1;
    let r = pool.handle_inbound_broadcast(9, vec![rec(1, 1, 5, 4, 1000)], 0);
    assert_eq!(r, Err(InboundError::Busy));
    // the slot frees and the same batch is accepted
    pool.limiter.active = 0;
    let r2 = pool.handle_inbound_broadcast(9, vec![rec(1, 1, 5, 4, 1000)], 0);
    assert_eq!(r2, Ok(vec![Ok(())]));
    assert!(pool.store.contains_key(1, 1));
}

#[test]
fn submit_local_and_commit_notification() {
    let cfg = MempoolConfig {
        capacity: 10,
        capacity_bytes: 1_000_000,
        capacity_per_user: 10,
        ..MempoolConfig::default()
    };
    let mut pool = SharedMempool::new(&cfg);
    assert!(pool.submit_local(rec(1, 1, 5, 4, 1000), 0).is_ok());
    assert!(pool.on_committed(1, 1, 5));
    assert!(!pool.on_committed(1, 2, 5));
}

#[test]
fn scheduler_caps_concurrent_broadcasts() {
    let cfg = MempoolConfig {
        capacity: 10,
        capacity_bytes: 1_000_000,
        capacity_per_user: 10,
        max_broadcasts_per_peer: 1,
        ..MempoolConfig::default()
    };
    let mut store = MempoolStore::new(10, 1_000_000, 10);
    store.submit(rec(1, 1, 5, 4, 1_000_000), 0).unwrap();
    let mut sched = BroadcastScheduler::new(&cfg);
    assert!(sched.add_peer(100, true));
    assert!(sched.add_peer(200, true));
    assert!(!sched.add_peer(200, true));

    let first = sched.tick_peer(0, &store, 0);
    assert!(first.is_some());
    // the single broadcast slot is taken: the second peer must wait
    let second = sched.tick_peer(1, &store, 0);
    assert!(second.is_none());

    sched.dispatched_peer(0, 0);
    let attempt = sched.peers[0].attempt;
    assert!(sched.ack_peer(0, attempt, 100));
    // the slot is free again
    let third = sched.tick_peer(1, &store, 100);
    assert!(third.is_some());
}

#[test]
fn scheduler_validator_gate() {
    let cfg = MempoolConfig {
        capacity: 10,
        capacity_bytes: 1_000_000,
        capacity_per_user: 10,
        shared_mempool_validator_broadcast: false,
        ..MempoolConfig::default()
    };
    let mut store = MempoolStore::new(10, 1_000_000, 10);
    store.submit(rec(1, 1, 5, 4, 1_000_000), 0).unwrap();
    let mut sched = BroadcastScheduler::new(&cfg);
    assert!(sched.add_peer(100, false));
    assert!(sched.add_peer(200, true));
    // non-validator peers are not scheduled when validator-only
    // broadcast is configured
    assert!(sched.tick_peer(0, &store, 0).is_none());
    assert!(sched.tick_peer(1, &store, 0).is_some());
}

#[test]
fn scheduler_timeout_frees_slot_and_backs_off() {
    let cfg = MempoolConfig {
        capacity: 10,
        capacity_bytes: 1_000_000,
        capacity_per_user: 10,
        ..MempoolConfig::default()
    };
    let mut store = MempoolStore::new(10, 1_000_000, 10);
    store.submit(rec(1, 1, 5, 4, 1_000_000), 0).unwrap();
    let mut sched = BroadcastScheduler::new(&cfg);
    assert!(sched.add_peer(100, true));
    assert!(sched.tick_peer(0, &store, 0).is_some());
    sched.dispatched_peer(0, 0);
    assert!(!sched.timeout_peer(0, 1_999));
    assert!(sched.timeout_peer(0, 2_000));
    assert_eq!(sched.in_flight, 0);
    assert_eq!(sched.peers[0].phase, PeerPhase::Backoff);
    assert_eq!(sched.peers[0].backoff_deadline_ms, 2_000 + 60_000);
}

#[test]
fn failover_moves_to_next_untried_instance() {
    let fc = FailoverCoordinator::new(2, 3);
    assert!(!fc.should_failover(1));
    assert!(fc.should_failover(2));
    assert_eq!(fc.next_instance(0), Some(1));
    assert_eq!(fc.next_instance(2), Some(3));
    assert_eq!(fc.next_instance(3), None);

    let cfg = MempoolConfig {
        capacity: 10,
        capacity_bytes: 1_000_000,
        capacity_per_user: 10,
        ..MempoolConfig::default()
    };
    let mut sched = BroadcastScheduler::new(&cfg);
    assert!(sched.add_peer(100, true));
    // below the threshold nothing happens
    assert!(!sched.maybe_failover(0, &fc));
    sched.peers[0].failures = 2;
    assert!(sched.maybe_failover(0, &fc));
    assert_eq!(sched.peers.len(), 2);
    assert_eq!(sched.peers[1].peer, 100);
    assert_eq!(sched.peers[1].instance, 1);
    assert_eq!(sched.peers[1].phase, PeerPhase::Idle);
    // the old instance keeps its own state untouched
    assert_eq!(sched.peers[0].failures, 2);
    // the alternate already exists: nothing more is created
    assert!(!sched.maybe_failover(0, &fc));
}

#[test]
fn failover_exhausted_instances_stay_put() {
    let fc = FailoverCoordinator::new(1, 0);
    let cfg = MempoolConfig {
        capacity: 10,
        capacity_bytes: 1_000_000,
        capacity_per_user: 10,
        ..MempoolConfig::default()
    };
    let mut sched = BroadcastScheduler::new(&cfg);
    assert!(sched.add_peer(100, true));
    sched.peers[0].failures = 5;
    // a single instance means there is nowhere to go
    assert!(!sched.maybe_failover(0, &fc));
    assert_eq!(sched.peers.len(), 1);
}

#[test]
fn scheduler_disconnect_abandons_in_flight_attempt() {
    let cfg = MempoolConfig {
        capacity: 10,
        capacity_bytes: 1_000_000,
        capacity_per_user: 10,
        ..MempoolConfig::default()
    };
    let mut store = MempoolStore::new(10, 1_000_000, 10);
    store.submit(rec(1, 1, 5, 4, 1_000_000), 0).unwrap();
    let mut sched = BroadcastScheduler::new(&cfg);
    assert!(sched.add_peer(100, true));
    assert!(sched.tick_peer(0, &store, 0).is_some());
    assert_eq!(sched.in_flight, 1);
    sched.disconnect_peer(0);
    assert_eq!(sched.peers.len(), 0);
    assert_eq!(sched.in_flight, 0);
}

#[test]
fn reaper_sweeps_on_period_and_snapshots() {
    let mut store = MempoolStore::new(10, 1_000_000, 10);
    store.submit(rec(1, 1, 5, 4, 0), 0).unwrap();
    let mut reaper = ExpiryReaper::new(60_000, 180, 10, 2);
    // before the period nothing runs
    assert!(!reaper.gc_due(59_999));
    assert_eq!(reaper.run_gc(&mut store, 59_999, 9), None);
    assert_eq!(store.len(), 1);
    // on the period the expired record goes
    assert_eq!(reaper.run_gc(&mut store, 60_000, 10), Some(1));
    assert_eq!(store.len(), 0);
    // the next sweep waits a full period again
    assert_eq!(reaper.run_gc(&mut store, 60_001, 11), None);

    let snap = reaper.take_snapshot(&store, 180).expect("snapshot due");
    assert_eq!(snap.count, 0);
    assert_eq!(reaper.take_snapshot(&store, 181), None);
}

#[test]
fn tick_yields_a_batch_exactly_when_backlog_is_nonempty() {
    let cfg = MempoolConfig {
        capacity: 10,
        capacity_bytes: 1_000_000,
        capacity_per_user: 10,
        ..MempoolConfig::default()
    };
    let empty_store = MempoolStore::new(10, 1_000_000, 10);
    let mut sched = BroadcastScheduler::new(&cfg);
    assert!(sched.add_peer(100, true));
    // an admitted, ready peer with an empty backlog yields nothing
    assert!(sched.tick_peer(0, &empty_store, 0).is_none());
    assert_eq!(sched.in_flight, 0);
    // once a transaction is retained, the tick must produce a batch
    let mut store = MempoolStore::new(10, 1_000_000, 10);
    store.submit(rec(1, 1, 5, 4, 1_000_000), 0).unwrap();
    let batch = sched.tick_peer(0, &store, 0).expect("non-empty backlog owes a batch");
    assert_eq!(batch.len(), 1);
    assert_eq!(sched.in_flight, 1);
}
