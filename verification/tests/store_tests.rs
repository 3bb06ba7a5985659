use shared_mempool::admission::AdmissionError;
use shared_mempool::config::{MempoolConfig, MAX_APPLICATION_MESSAGE_SIZE};
use shared_mempool::cursor::SenderCursor;
use shared_mempool::record::{TransactionRecord, TxnOrigin};
use shared_mempool::store::MempoolStore;

fn rec(sender: u64, seq: u64, priority: u64, size: usize, expiration_secs: u64) -> TransactionRecord {
    TransactionRecord::new(sender, seq, priority, vec![0u8; size], expiration_secs, TxnOrigin::Local)
}

#[test]
fn config_default_values() {
    let cfg = MempoolConfig::default();
    assert_eq!(cfg.shared_mempool_tick_interval_ms, 50);
    assert_eq!(cfg.shared_mempool_backoff_interval_ms, 30_000);
    assert_eq!(cfg.shared_mempool_batch_size, 100);
    assert_eq!(cfg.shared_mempool_max_batch_bytes, MAX_APPLICATION_MESSAGE_SIZE);
    assert_eq!(cfg.shared_mempool_ack_timeout_ms, 2_000);
    assert_eq!(cfg.shared_mempool_max_concurrent_inbound_syncs, 4);
    assert_eq!(cfg.max_broadcasts_per_peer, 1);
    assert_eq!(cfg.mempool_snapshot_interval_secs, 180);
    assert_eq!(cfg.capacity, 2_000_000);
    assert_eq!(cfg.capacity_bytes, 2_147_483_648);
    assert_eq!(cfg.capacity_per_user, 100);
    assert_eq!(cfg.default_failovers, 3);
    assert_eq!(cfg.system_transaction_timeout_secs, 600);
    assert_eq!(cfg.system_transaction_gc_interval_ms, 60_000);
    assert!(cfg.shared_mempool_validator_broadcast);
    assert_eq!(cfg.shared_mempool_early_expiry_secs, 2);
}

#[test]
fn eviction_by_priority_at_capacity() {
    // capacity 2: A(priority 5), B(priority 3), C(priority 10) in order;
    // B, the lowest-priority record, is evicted and {A, C} stay.
    let mut store = MempoolStore::new(2, 1_000_000, 10);
    assert!(store.submit(rec(1, 1, 5, 4, 1000), 0).is_ok());
    assert!(store.submit(rec(2, 1, 3, 4, 1000), 0).is_ok());
    assert!(store.submit(rec(3, 1, 10, 4, 1000), 0).is_ok());
    assert_eq!(store.len(), 2);
    assert!(store.contains_key(1, 1));
    assert!(!store.contains_key(2, 1));
    assert!(store.contains_key(3, 1));
}

#[test]
fn duplicate_lower_or_equal_priority_rejected() {
    let mut store = MempoolStore::new(10, 1_000_000, 10);
    assert!(store.submit(rec(1, 1, 5, 4, 1000), 0).is_ok());
    assert_eq!(store.submit(rec(1, 1, 5, 4, 1000), 0), Err(AdmissionError::DuplicateLowerPriority));
    assert_eq!(store.submit(rec(1, 1, 4, 4, 1000), 0), Err(AdmissionError::DuplicateLowerPriority));
    assert_eq!(store.len(), 1);
    // a strictly higher priority replaces in place
    assert!(store.submit(rec(1, 1, 9, 4, 1000), 0).is_ok());
    assert_eq!(store.len(), 1);
    assert!(store.contains_key(1, 1));
}

#[test]
fn per_sender_quota_with_priority_replacement() {
    let mut store = MempoolStore::new(10, 1_000_000, 1);
    assert!(store.submit(rec(1, 1, 5, 4, 1000), 0).is_ok());
    assert_eq!(store.submit(rec(1, 2, 3, 4, 1000), 0), Err(AdmissionError::QuotaExceeded));
    assert_eq!(store.submit(rec(1, 3, 5, 4, 1000), 0), Err(AdmissionError::QuotaExceeded));
    // a higher-priority record replaces the sender's lowest
    assert!(store.submit(rec(1, 4, 7, 4, 1000), 0).is_ok());
    assert_eq!(store.len(), 1);
    assert!(!store.contains_key(1, 1));
    assert!(store.contains_key(1, 4));
    // another sender is unaffected by sender 1's quota
    assert!(store.submit(rec(2, 1, 1, 4, 1000), 0).is_ok());
}

#[test]
fn expired_at_submission_rejected() {
    let mut store = MempoolStore::new(10, 1_000_000, 10);
    assert_eq!(store.submit(rec(1, 1, 5, 4, 5), 10), Err(AdmissionError::Expired));
    assert_eq!(store.len(), 0);
}

#[test]
fn byte_capacity_enforced() {
    let mut store = MempoolStore::new(10, 10, 10);
    assert!(store.submit(rec(1, 1, 5, 8, 1000), 0).is_ok());
    // no strictly lower-priority victim frees enough bytes
    assert_eq!(store.submit(rec(2, 1, 5, 8, 1000), 0), Err(AdmissionError::CapacityExceeded));
    // a strictly higher-priority record evicts the old one
    assert!(store.submit(rec(2, 2, 9, 8, 1000), 0).is_ok());
    assert!(!store.contains_key(1, 1));
    assert!(store.contains_key(2, 2));
    assert_eq!(store.bytes_used(), 8);
}

#[test]
fn select_batch_orders_by_priority_then_age() {
    let mut store = MempoolStore::new(10, 1_000_000, 10);
    store.submit(rec(1, 1, 1, 4, 1000), 0).unwrap();
    store.submit(rec(2, 1, 5, 4, 1000), 1).unwrap();
    store.submit(rec(3, 1, 3, 4, 1000), 2).unwrap();
    store.submit(rec(4, 1, 5, 4, 1000), 3).unwrap();
    let cursor = SenderCursor::new();
    let batch = store.select_batch(&cursor, 10, 1_000_000);
    let keys: Vec<(u64, u64)> = batch.iter().map(|t| (t.sender, t.priority)).collect();
    // priority descending; the tie at priority 5 broken by older insertion
    assert_eq!(keys, vec![(2, 5), (4, 5), (3, 3), (1, 1)]);
}

#[test]
fn select_batch_truncates_to_count_and_bytes() {
    let mut store = MempoolStore::new(10, 1_000_000, 10);
    store.submit(rec(1, 1, 9, 4, 1000), 0).unwrap();
    store.submit(rec(2, 1, 8, 4, 1000), 0).unwrap();
    store.submit(rec(3, 1, 7, 4, 1000), 0).unwrap();
    let cursor = SenderCursor::new();
    let by_count = store.select_batch(&cursor, 2, 1_000_000);
    assert_eq!(by_count.len(), 2);
    assert_eq!(by_count[0].sender, 1);
    assert_eq!(by_count[1].sender, 2);
    // 4 + 4 bytes fit, the third record does not
    let by_bytes = store.select_batch(&cursor, 10, 8);
    assert_eq!(by_bytes.len(), 2);
}

#[test]
fn select_batch_returns_oversized_record_alone() {
    let mut store = MempoolStore::new(10, 1_000_000, 10);
    store.submit(rec(1, 1, 9, 100, 1000), 0).unwrap();
    store.submit(rec(2, 1, 8, 2, 1000), 0).unwrap();
    let cursor = SenderCursor::new();
    let batch = store.select_batch(&cursor, 10, 10);
    assert_eq!(batch.len(), 1);
    assert_eq!(batch[0].sender, 1);
    assert_eq!(batch[0].payload.len(), 100);
}

#[test]
fn select_batch_respects_cursor() {
    let mut store = MempoolStore::new(10, 1_000_000, 10);
    store.submit(rec(1, 1, 5, 4, 1000), 0).unwrap();
    store.submit(rec(1, 2, 5, 4, 1000), 0).unwrap();
    let mut cursor = SenderCursor::new();
    cursor.advance(1, 1);
    let batch = store.select_batch(&cursor, 10, 1_000_000);
    assert_eq!(batch.len(), 1);
    assert_eq!(batch[0].sequence_number, 2);
}

#[test]
fn gc_removes_expired_and_committed_after_grace() {
    let mut store = MempoolStore::new(10, 1_000_000, 10);
    store.submit(rec(1, 1, 5, 4, 0), 0).unwrap();
    store.submit(rec(2, 1, 5, 4, 100), 0).unwrap();
    // not yet: expiration 0 + timeout 10 has not elapsed at 9
    assert_eq!(store.gc(9, 10, 2), 0);
    assert_eq!(store.gc(10, 10, 2), 1);
    assert!(!store.contains_key(1, 1));
    // committed records leave after the early-expiry grace window
    assert!(store.mark_committed(2, 1, 20));
    assert_eq!(store.gc(21, 10, 2), 0);
    assert_eq!(store.gc(22, 10, 2), 1);
    assert_eq!(store.len(), 0);
}

#[test]
fn remove_key_deletes_exactly_one() {
    let mut store = MempoolStore::new(10, 1_000_000, 10);
    store.submit(rec(1, 1, 5, 4, 1000), 0).unwrap();
    store.submit(rec(1, 2, 5, 4, 1000), 0).unwrap();
    assert!(store.remove_key(1, 1));
    assert!(!store.remove_key(1, 1));
    assert_eq!(store.len(), 1);
    assert!(store.contains_key(1, 2));
}

#[test]
fn snapshot_reports_counts_bytes_and_ages() {
    let mut store = MempoolStore::new(10, 1_000_000, 10);
    let empty = store.snapshot();
    assert_eq!(empty.count, 0);
    assert_eq!(empty.oldest_insertion_secs, None);
    store.submit(rec(1, 1, 5, 4, 1000), 7).unwrap();
    store.submit(rec(2, 1, 5, 6, 1000), 3).unwrap();
    let snap = store.snapshot();
    assert_eq!(snap.count, 2);
    assert_eq!(snap.total_bytes, 10);
    assert_eq!(snap.oldest_insertion_secs, Some(3));
    assert_eq!(snap.newest_insertion_secs, Some(7));
}

#[test]
fn capacity_bounds_hold_under_many_submissions() {
    // a mixed stream of submissions: the count, byte and per-sender
    // bounds hold at every step
    let mut store = MempoolStore::new(5, 40, 2);
    for sender in 0..6u64 {
        for seq in 0..4u64 {
            let _ = store.submit(rec(sender, seq, sender + seq, 7, 1000), seq);
            assert!(store.len() <= 5);
            assert!(store.bytes_used() <= 40);
        }
    }
    // per-sender quota: no sender may hold more than 2 of the records
    let mut per_sender = [0usize; 6];
    for sender in 0..6u64 {
        for seq in 0..4u64 {
            if store.contains_key(sender, seq) {
                per_sender[sender as usize] += 1;
            }
        }
    }
    for count in per_sender {
        assert!(count <= 2);
    }
}
