//! Periodic maintenance: the expiry sweep on its own cadence, and a
//! slower read-only snapshot for observability. Neither blocks admission
//! or broadcast: the sweep works through `MempoolStore::gc`, the snapshot
//! only reads.

use vstd::prelude::*;
use crate::record::{TxnModel, expired_by_policy};
use crate::store::{MempoolStore, MempoolSnapshot};
use crate::admission::sum_bytes;

verus! {

/// Cadence and policy of the expiry sweep.
pub struct ExpiryReaper {
    pub gc_interval_ms: u64,
    pub snapshot_interval_secs: u64,
    pub timeout_secs: u64,
    pub early_expiry_secs: u64,
    pub last_gc_ms: u64,
    pub last_snapshot_secs: u64,
}

impl ExpiryReaper {
    pub fn new(
        gc_interval_ms: u64,
        snapshot_interval_secs: u64,
        timeout_secs: u64,
        early_expiry_secs: u64,
    ) -> (r: ExpiryReaper)
        ensures
            r.gc_interval_ms == gc_interval_ms,
            r.snapshot_interval_secs == snapshot_interval_secs,
            r.timeout_secs == timeout_secs,
            r.early_expiry_secs == early_expiry_secs,
            r.last_gc_ms == 0,
            r.last_snapshot_secs == 0,
    {
        ExpiryReaper {
            gc_interval_ms,
            snapshot_interval_secs,
            timeout_secs,
            early_expiry_secs,
            last_gc_ms: 0,
            last_snapshot_secs: 0,
        }
    }

    /// A full sweep period has elapsed since the last sweep.
    pub fn gc_due(&self, now_ms: u64) -> (r: bool)
        ensures
            r == (now_ms >= self.last_gc_ms + self.gc_interval_ms),
    {
        now_ms >= self.last_gc_ms && now_ms - self.last_gc_ms >= self.gc_interval_ms
    }

    /// A full snapshot period has elapsed since the last snapshot.
    pub fn snapshot_due(&self, now_secs: u64) -> (r: bool)
        ensures
            r == (now_secs >= self.last_snapshot_secs + self.snapshot_interval_secs),
    {
        now_secs >= self.last_snapshot_secs
            && now_secs - self.last_snapshot_secs >= self.snapshot_interval_secs
    }

    /// Sweep the store if the period has elapsed: every record the expiry
    /// policy has released is removed, nothing else. Off-period calls
    /// change nothing.
    pub fn run_gc(&mut self, store: &mut MempoolStore, now_ms: u64, now_secs: u64)
        -> (removed: Option<usize>)
        requires
            old(store).inv(),
        ensures
            final(store).inv(),
            final(store).limits(old(store).capacity, old(store).capacity_bytes,
                old(store).capacity_per_user),
            removed is Some <==> now_ms >= old(self).last_gc_ms + old(self).gc_interval_ms,
            removed is None ==> *final(store) == *old(store) && *final(self) == *old(self),
            removed is Some ==> final(self).last_gc_ms == now_ms
                && final(self).gc_interval_ms == old(self).gc_interval_ms
                && final(self).snapshot_interval_secs == old(self).snapshot_interval_secs
                && final(self).timeout_secs == old(self).timeout_secs
                && final(self).early_expiry_secs == old(self).early_expiry_secs
                && final(self).last_snapshot_secs == old(self).last_snapshot_secs
                && (forall|t: TxnModel| final(store)@.contains(t) <==> (old(store)@.contains(t)
                    && !expired_by_policy(t, now_secs, old(self).timeout_secs, old(self).early_expiry_secs)))
                && removed == Some((old(store)@.len() - final(store)@.len()) as usize),
    {
        if self.gc_due(now_ms) {
            let n = store.gc(now_secs, self.timeout_secs, self.early_expiry_secs);
            self.last_gc_ms = now_ms;
            Some(n)
        } else {
            None
        }
    }

    /// Emit the observability snapshot if the period has elapsed. Read
    /// only: the store is never touched.
    pub fn take_snapshot(&mut self, store: &MempoolStore, now_secs: u64)
        -> (r: Option<MempoolSnapshot>)
        requires
            store.inv(),
        ensures
            r is Some <==> now_secs >= old(self).last_snapshot_secs + old(self).snapshot_interval_secs,
            r is None ==> *final(self) == *old(self),
            match r {
                Some(snap) => final(self).last_snapshot_secs == now_secs
                    && final(self).last_gc_ms == old(self).last_gc_ms
                    && final(self).gc_interval_ms == old(self).gc_interval_ms
                    && final(self).snapshot_interval_secs == old(self).snapshot_interval_secs
                    && final(self).timeout_secs == old(self).timeout_secs
                    && final(self).early_expiry_secs == old(self).early_expiry_secs
                    && snap.count == store@.len()
                    && snap.total_bytes == sum_bytes(store@),
                None => true,
            },
    {
        if self.snapshot_due(now_secs) {
            let snap = store.snapshot();
            self.last_snapshot_secs = now_secs;
            Some(snap)
        } else {
            None
        }
    }
}

} // verus!
