//! The node-facing surface of the pool: local submission, inbound
//! broadcasts gated by the sync limiter, and commit notifications.

use vstd::prelude::*;
use crate::admission::{AdmissionError, submit_outcome, has_key, key_index};
use crate::config::MempoolConfig;
use crate::limiter::InboundSyncLimiter;
use crate::record::{TransactionRecord, TxnModel, TxnOrigin, admitted_model, with_commit};
use crate::store::{MempoolStore, models};

verus! {

/// Inbound broadcasts beyond the concurrency bound are refused at once;
/// the sending peer retries under its own backoff.
#[derive(Clone, Copy, Debug, PartialEq, Eq, Structural)]
pub enum InboundError {
    Busy,
}

/// The image of a record as an inbound batch stamps it: received from
/// `peer`.
pub open spec fn with_origin(t: TxnModel, peer: u64) -> TxnModel {
    TxnModel { origin: TxnOrigin::Peer(peer), ..t }
}

/// Verdicts and resulting pool of one inbound batch, submitted in order,
/// each record stamped as coming from `peer`.
pub open spec fn inbound_outcome(
    v: Seq<TxnModel>,
    batch: Seq<TxnModel>,
    peer: u64,
    now_secs: u64,
    capacity: usize,
    capacity_bytes: usize,
    capacity_per_user: usize,
) -> (Seq<Result<(), AdmissionError>>, Seq<TxnModel>)
    decreases batch.len(),
{
    if batch.len() == 0 {
        (Seq::<Result<(), AdmissionError>>::empty(), v)
    } else {
        let prev = inbound_outcome(v, batch.drop_last(), peer, now_secs,
            capacity, capacity_bytes, capacity_per_user);
        let o = submit_outcome(prev.1, admitted_model(with_origin(batch.last(), peer), now_secs),
            now_secs, capacity, capacity_bytes, capacity_per_user);
        (prev.0.push(o.verdict), o.pool)
    }
}

/// One node's shared mempool: the bounded store and the inbound-sync
/// gate, constructed once at startup and handed to every caller.
pub struct SharedMempool {
    pub store: MempoolStore,
    pub limiter: InboundSyncLimiter,
}

impl SharedMempool {
    pub open spec fn inv(&self) -> bool {
        self.store.inv() && self.limiter.inv()
    }

    pub fn new(cfg: &MempoolConfig) -> (r: SharedMempool)
        ensures
            r.inv(),
            r.store@ == Seq::<TxnModel>::empty(),
            r.store.limits(cfg.capacity, cfg.capacity_bytes, cfg.capacity_per_user),
            r.limiter.limit == cfg.shared_mempool_max_concurrent_inbound_syncs,
            r.limiter.active == 0,
    {
        SharedMempool {
            store: MempoolStore::new(cfg.capacity, cfg.capacity_bytes, cfg.capacity_per_user),
            limiter: InboundSyncLimiter::new(cfg.shared_mempool_max_concurrent_inbound_syncs),
        }
    }

    /// A transaction submitted on this node: stamped as local and put
    /// through admission.
    pub fn submit_local(&mut self, rec: TransactionRecord, now_secs: u64)
        -> (r: Result<(), AdmissionError>)
        requires
            old(self).inv(),
        ensures
            final(self).inv(),
            final(self).limiter == old(self).limiter,
            final(self).store.limits(old(self).store.capacity, old(self).store.capacity_bytes,
                old(self).store.capacity_per_user),
            ({
                let o = submit_outcome(old(self).store@,
                    admitted_model(with_origin_local(rec@), now_secs), now_secs,
                    old(self).store.capacity, old(self).store.capacity_bytes,
                    old(self).store.capacity_per_user);
                r == o.verdict && final(self).store@ == o.pool
            }),
            r is Err ==> final(self).store@ == old(self).store@,
    {
        let mut rec = rec;
        rec.origin = TxnOrigin::Local;
        self.store.submit(rec, now_secs)
    }

    /// A batch received from `peer`. If the inbound-sync bound is already
    /// met the whole batch is refused as `Busy` and nothing changes;
    /// otherwise each record is stamped with its origin and submitted in
    /// order, and the per-record verdicts are acknowledged back.
    pub fn handle_inbound_broadcast(
        &mut self,
        peer: u64,
        batch: Vec<TransactionRecord>,
        now_secs: u64,
    ) -> (r: Result<Vec<Result<(), AdmissionError>>, InboundError>)
        requires
            old(self).inv(),
        ensures
            final(self).inv(),
            final(self).limiter.limit == old(self).limiter.limit,
            final(self).limiter.active == old(self).limiter.active,
            final(self).store.limits(old(self).store.capacity, old(self).store.capacity_bytes,
                old(self).store.capacity_per_user),
            r is Err <==> old(self).limiter.active >= old(self).limiter.limit,
            r is Err ==> final(self).store@ == old(self).store@,
            match r {
                Ok(verdicts) => ({
                    let o = inbound_outcome(old(self).store@, models(batch@), peer, now_secs,
                        old(self).store.capacity, old(self).store.capacity_bytes,
                        old(self).store.capacity_per_user);
                    verdicts@ == o.0 && final(self).store@ == o.1
                }),
                Err(e) => e == InboundError::Busy,
            },
    {
        let ghost v0 = self.store@;
        let ghost batchm = models(batch@);
        if !self.limiter.acquire() {
            return Err(InboundError::Busy);
        }
        let mut verdicts: Vec<Result<(), AdmissionError>> = Vec::new();
        let mut i: usize = 0;
        proof {
            assert(batchm.take(0) =~= Seq::<TxnModel>::empty());
        }
        while i < batch.len()
            invariant
                i <= batch.len(),
                batchm == models(batch@),
                batchm.len() == batch@.len(),
                self.store.inv(),
                self.store.limits(old(self).store.capacity, old(self).store.capacity_bytes,
                    old(self).store.capacity_per_user),
                self.limiter.inv(),
                self.limiter.limit == old(self).limiter.limit,
                self.limiter.active == old(self).limiter.active + 1,
                ({
                    let o = inbound_outcome(v0, batchm.take(i as int), peer, now_secs,
                        old(self).store.capacity, old(self).store.capacity_bytes,
                        old(self).store.capacity_per_user);
                    verdicts@ == o.0 && self.store@ == o.1
                }),
            decreases batch.len() - i,
        {
            proof {
                assert(batchm.take(i + 1).drop_last() =~= batchm.take(i as int));
                assert(batchm.take(i + 1).last() == batchm[i as int]);
            }
            let mut rec = batch[i].duplicate();
            rec.origin = TxnOrigin::Peer(peer);
            proof {
                assert(rec@ == with_origin(batchm[i as int], peer));
            }
            let verdict = self.store.submit(rec, now_secs);
            verdicts.push(verdict);
            i = i + 1;
        }
        proof {
            assert(batchm.take(batchm.len() as int) =~= batchm);
        }
        self.limiter.release();
        Ok(verdicts)
    }

    /// The consensus layer reports a commit: the record is marked and
    /// left for the expiry sweep's grace window.
    pub fn on_committed(&mut self, sender: u64, seq: u64, now_secs: u64) -> (r: bool)
        requires
            old(self).inv(),
        ensures
            final(self).inv(),
            final(self).limiter == old(self).limiter,
            final(self).store.limits(old(self).store.capacity, old(self).store.capacity_bytes,
                old(self).store.capacity_per_user),
            r == has_key(old(self).store@, sender, seq),
            r ==> final(self).store@ == old(self).store@.update(
                key_index(old(self).store@, sender, seq),
                with_commit(old(self).store@[key_index(old(self).store@, sender, seq)], now_secs)),
            !r ==> final(self).store@ == old(self).store@,
    {
        self.store.mark_committed(sender, seq, now_secs)
    }
}

/// The image of a record as local submission stamps it.
pub open spec fn with_origin_local(t: TxnModel) -> TxnModel {
    TxnModel { origin: TxnOrigin::Local, ..t }
}

} // verus!
