//! Per-peer broadcast state machine: batch selection with optimistic
//! cursor advance, acknowledgement handling, ack-timeout rollback, and
//! exponential backoff.

use vstd::prelude::*;
use crate::arith::{sat64, sat_add, sat_mul};
use crate::cursor::{SenderCursor, cursor_eq, cursor_val, eligible, ge_opt};
use crate::record::{TransactionRecord, TxnModel};
use crate::admission::sum_bytes;
use crate::store::{MempoolStore, models, send_order_ge};

verus! {

/// Exponent cap on the backoff multiplier, keeping the delay bounded.
pub const BACKOFF_EXPONENT_CAP: u64 = 16;

/// Two to the `e`-th power.
pub open spec fn two_to(e: nat) -> nat
    decreases e,
{
    if e == 0 {
        1
    } else {
        2 * two_to((e - 1) as nat)
    }
}

pub proof fn lemma_two_to_monotone(a: nat, b: nat)
    requires
        a <= b,
    ensures
        two_to(a) <= two_to(b),
        two_to(a) >= 1,
    decreases b,
{
    if a == b {
        if a > 0 {
            lemma_two_to_monotone((a - 1) as nat, (b - 1) as nat);
        }
    } else {
        lemma_two_to_monotone(a, (b - 1) as nat);
    }
}

/// The backoff exponent after `failures` consecutive failures, capped.
pub open spec fn capped_exponent(failures: u64) -> nat {
    if failures < BACKOFF_EXPONENT_CAP {
        failures as nat
    } else {
        BACKOFF_EXPONENT_CAP as nat
    }
}

/// How long a peer waits before its next retry after `failures`
/// consecutive unacknowledged attempts: the base interval doubled per
/// failure, exponent capped, saturating at the largest representable
/// delay.
///
/// The exponent counts the streak with the current failure already
/// added, which pins the wait after two consecutive timeouts at four
/// base intervals; a successful acknowledgement clears the streak, and
/// the delay expression is back at the base interval.
pub open spec fn backoff_delay_spec(base: u64, failures: u64) -> int {
    sat64(base * two_to(capped_exponent(failures)))
}

/// The backoff delay never shrinks as consecutive failures accumulate.
pub proof fn lemma_backoff_delay_monotone(base: u64, f1: u64, f2: u64)
    requires
        f1 <= f2,
    ensures
        backoff_delay_spec(base, f1) <= backoff_delay_spec(base, f2),
{
    lemma_two_to_monotone(capped_exponent(f1), capped_exponent(f2));
    vstd::arithmetic::mul::lemma_mul_inequality(
        two_to(capped_exponent(f1)) as int,
        two_to(capped_exponent(f2)) as int,
        base as int,
    );
}

/// A successful acknowledgement clears the failure streak (`on_ack`
/// leaves `failures == 0`), and with no failures the delay is back at
/// the base interval.
pub proof fn lemma_backoff_reset_to_base(base: u64)
    ensures
        backoff_delay_spec(base, 0) == base,
{
    assert(two_to(0) == 1);
    assert(base * 1 == base) by (nonlinear_arith);
}

fn pow2_capped(e: u64) -> (r: u64)
    requires
        e <= BACKOFF_EXPONENT_CAP,
    ensures
        r == two_to(e as nat),
        r <= 65536,
{
    let mut r: u64 = 1;
    let mut i: u64 = 0;
    while i < e
        invariant
            i <= e,
            e <= BACKOFF_EXPONENT_CAP,
            r == two_to(i as nat),
            r <= 65536,
        decreases e - i,
    {
        proof {
            reveal_with_fuel(two_to, 17);
            lemma_two_to_monotone(i as nat, 15);
            assert(two_to(15) == 32768);
            lemma_two_to_monotone((i + 1) as nat, 16);
            assert(two_to(16) == 65536);
        }
        r = r * 2;
        i = i + 1;
    }
    r
}

/// The delay before the next retry, computed with saturation.
pub fn backoff_delay(base: u64, failures: u64) -> (r: u64)
    ensures
        r == backoff_delay_spec(base, failures),
{
    let e = if failures < BACKOFF_EXPONENT_CAP {
        failures
    } else {
        BACKOFF_EXPONENT_CAP
    };
    let p = pow2_capped(e);
    sat_mul(base, p)
}

/// The discrete states of one peer's broadcast machine.
#[derive(Clone, Copy, Debug, PartialEq, Eq, Structural)]
pub enum PeerPhase {
    /// Nothing in flight and no delay pending.
    Idle,
    /// A batch was selected and is being handed to the network.
    Sending,
    /// The batch is out; an acknowledgement or the deadline decides.
    AwaitingAck,
    /// An attempt went unacknowledged; no retry before the deadline.
    Backoff,
}

/// One peer's broadcast bookkeeping on one network instance.
pub struct PeerBroadcastState {
    pub peer: u64,
    /// Which redundant network instance this state drives.
    pub instance: u64,
    pub is_validator: bool,
    /// Boundary confirmed by acknowledgements.
    pub acked: SenderCursor,
    /// Boundary advanced optimistically at dispatch; rolled back on
    /// timeout.
    pub sent: SenderCursor,
    /// Consecutive unacknowledged attempts.
    pub failures: u64,
    pub backoff_deadline_ms: u64,
    pub ack_deadline_ms: u64,
    /// Monotonically increasing attempt counter; a stale acknowledgement
    /// carries an older value and is ignored.
    pub attempt: u64,
    pub phase: PeerPhase,
}

impl PeerBroadcastState {
    /// Well-formedness: cursors are sound; whenever nothing is in flight
    /// the optimistic boundary agrees with the confirmed one, and while an
    /// acknowledgement is awaited the ack deadline is no earlier than the
    /// backoff deadline.
    pub open spec fn wf(&self) -> bool {
        &&& self.acked.inv()
        &&& self.sent.inv()
        &&& ((self.phase == PeerPhase::Idle || self.phase == PeerPhase::Backoff)
            ==> cursor_eq(self.sent@, self.acked@))
        &&& (self.phase == PeerPhase::AwaitingAck
            ==> self.ack_deadline_ms >= self.backoff_deadline_ms)
    }

    /// Everything but the transition-owned fields agrees with `other`.
    pub open spec fn same_identity(&self, other: &PeerBroadcastState) -> bool {
        self.peer == other.peer && self.instance == other.instance
            && self.is_validator == other.is_validator
    }

    /// Fresh state for a peer on a network instance.
    pub fn new(peer: u64, instance: u64, is_validator: bool) -> (r: PeerBroadcastState)
        ensures
            r.wf(),
            r.peer == peer,
            r.instance == instance,
            r.is_validator == is_validator,
            r.phase == PeerPhase::Idle,
            r.failures == 0,
            r.backoff_deadline_ms == 0,
            r.attempt == 0,
            forall|s: u64| cursor_val(r.sent@, s) == None::<u64>,
            forall|s: u64| cursor_val(r.acked@, s) == None::<u64>,
    {
        PeerBroadcastState {
            peer,
            instance,
            is_validator,
            acked: SenderCursor::new(),
            sent: SenderCursor::new(),
            failures: 0,
            backoff_deadline_ms: 0,
            ack_deadline_ms: 0,
            attempt: 0,
            phase: PeerPhase::Idle,
        }
    }

    /// Whether this peer may start a broadcast at `now_ms`.
    pub fn ready(&self, now_ms: u64) -> (r: bool)
        ensures
            r == ((self.phase == PeerPhase::Idle || self.phase == PeerPhase::Backoff)
                && now_ms >= self.backoff_deadline_ms),
    {
        (self.phase == PeerPhase::Idle || self.phase == PeerPhase::Backoff)
            && now_ms >= self.backoff_deadline_ms
    }

    /// Select the next batch for this peer and advance the optimistic
    /// boundary past it. With an empty backlog nothing changes; otherwise
    /// the machine moves to `Sending`. The confirmed boundary is
    /// untouched, so a later rollback restores exactly today's view.
    pub fn start_broadcast(
        &mut self,
        store: &MempoolStore,
        max_count: usize,
        max_bytes: u64,
        now_ms: u64,
    ) -> (batch: Vec<TransactionRecord>)
        requires
            old(self).wf(),
            store.inv(),
            old(self).phase == PeerPhase::Idle || old(self).phase == PeerPhase::Backoff,
            now_ms >= old(self).backoff_deadline_ms,
        ensures
            final(self).wf(),
            final(self).same_identity(old(self)),
            final(self).failures == old(self).failures,
            final(self).backoff_deadline_ms == old(self).backoff_deadline_ms,
            final(self).attempt == old(self).attempt,
            final(self).acked@ == old(self).acked@,
            batch@.len() == 0 ==> *final(self) == *old(self),
            batch@.len() > 0 ==> final(self).phase == PeerPhase::Sending,
            batch@.len() > 0 ==> forall|k: int| 0 <= k < models(batch@).len()
                ==> !eligible(#[trigger] models(batch@)[k], final(self).sent@),
            forall|s: u64| ge_opt(cursor_val(final(self).sent@, s), cursor_val(old(self).sent@, s)),
            models(batch@).len() <= max_count,
            forall|k: int| 0 <= k < models(batch@).len() ==> store@.contains(#[trigger] models(batch@)[k])
                && eligible(models(batch@)[k], old(self).sent@),
            forall|k1: int, k2: int| 0 <= k1 < k2 < models(batch@).len()
                ==> send_order_ge(#[trigger] models(batch@)[k1], #[trigger] models(batch@)[k2]),
            sum_bytes(models(batch@)) <= max_bytes || models(batch@).len() == 1,
            forall|t: TxnModel| store@.contains(t) && eligible(t, old(self).sent@)
                && !models(batch@).contains(t)
                ==> models(batch@).len() == max_count
                    || sum_bytes(models(batch@)) + t.payload.len() > max_bytes,
            (models(batch@).len() >= 1 <==> (max_count >= 1 && exists|t: TxnModel|
                store@.contains(t) && eligible(t, old(self).sent@))),
    {
        let batch = store.select_batch(&self.sent, max_count, max_bytes);
        if batch.len() == 0 {
            proof {
                assert forall|s: u64| ge_opt(cursor_val(self.sent@, s), cursor_val(self.sent@, s)) by {}
            }
            return batch;
        }
        let ghost sent0 = self.sent@;
        let mut k: usize = 0;
        while k < batch.len()
            invariant
                k <= batch.len(),
                self.sent.inv(),
                sent0 == old(self).sent@,
                self.peer == old(self).peer,
                self.instance == old(self).instance,
                self.is_validator == old(self).is_validator,
                self.failures == old(self).failures,
                self.backoff_deadline_ms == old(self).backoff_deadline_ms,
                self.ack_deadline_ms == old(self).ack_deadline_ms,
                self.attempt == old(self).attempt,
                self.phase == old(self).phase,
                self.acked == old(self).acked,
                old(self).acked.inv(),
                forall|s: u64| ge_opt(cursor_val(self.sent@, s), cursor_val(sent0, s)),
                forall|j: int| 0 <= j < k ==> !eligible(#[trigger] models(batch@)[j], self.sent@),
            decreases batch.len() - k,
        {
            let ghost spre = self.sent@;
            self.sent.advance(batch[k].sender, batch[k].sequence_number);
            proof {
                assert(models(batch@)[k as int] == batch@[k as int]@);
                assert forall|s: u64| ge_opt(cursor_val(self.sent@, s), cursor_val(sent0, s)) by {
                    if s == batch@[k as int].sender {
                    }
                }
                assert forall|j: int| 0 <= j < k + 1 implies !eligible(#[trigger] models(batch@)[j], self.sent@) by {
                    let t = models(batch@)[j];
                    if j < k {
                        if t.sender == batch@[k as int].sender {
                        }
                    }
                }
            }
            k = k + 1;
        }
        self.phase = PeerPhase::Sending;
        batch
    }

    /// The selected batch has been handed to the network: start the ack
    /// clock and stamp a fresh attempt number.
    pub fn mark_dispatched(&mut self, ack_timeout_ms: u64, now_ms: u64)
        requires
            old(self).wf(),
            old(self).phase == PeerPhase::Sending,
            now_ms >= old(self).backoff_deadline_ms,
            old(self).attempt < u64::MAX,
        ensures
            final(self).wf(),
            final(self).same_identity(old(self)),
            final(self).phase == PeerPhase::AwaitingAck,
            final(self).attempt == old(self).attempt + 1,
            final(self).ack_deadline_ms == sat64(now_ms + ack_timeout_ms),
            final(self).ack_deadline_ms >= now_ms,
            final(self).failures == old(self).failures,
            final(self).backoff_deadline_ms == old(self).backoff_deadline_ms,
            final(self).sent@ == old(self).sent@,
            final(self).acked@ == old(self).acked@,
    {
        self.ack_deadline_ms = sat_add(now_ms, ack_timeout_ms);
        self.attempt = self.attempt + 1;
        self.phase = PeerPhase::AwaitingAck;
    }

    /// An acknowledgement arrived. Only one matching the current attempt
    /// while one is awaited counts: it confirms the optimistic boundary,
    /// clears the failure streak, and idles the machine. A stale
    /// acknowledgement changes nothing.
    pub fn on_ack(&mut self, attempt_id: u64, now_ms: u64) -> (accepted: bool)
        requires
            old(self).wf(),
        ensures
            final(self).wf(),
            accepted == (old(self).phase == PeerPhase::AwaitingAck
                && attempt_id == old(self).attempt),
            !accepted ==> *final(self) == *old(self),
            accepted ==> final(self).same_identity(old(self))
                && final(self).phase == PeerPhase::Idle
                && final(self).failures == 0
                && final(self).acked@ == old(self).sent@
                && final(self).sent@ == old(self).sent@
                && final(self).attempt == old(self).attempt
                && final(self).backoff_deadline_ms == old(self).backoff_deadline_ms,
    {
        if self.phase == PeerPhase::AwaitingAck && attempt_id == self.attempt {
            self.failures = 0;
            self.acked.assign(&self.sent);
            self.phase = PeerPhase::Idle;
            true
        } else {
            false
        }
    }

    /// The ack deadline passed without an acknowledgement. The failure
    /// streak grows, the optimistic boundary is rolled back to the
    /// confirmed one — so the same transactions become eligible again —
    /// and the next retry is pushed out exponentially. The backoff
    /// deadline never moves backwards. A call before the deadline, or in
    /// another phase, changes nothing.
    pub fn on_timeout(&mut self, backoff_base_ms: u64, now_ms: u64) -> (fired: bool)
        requires
            old(self).wf(),
        ensures
            final(self).wf(),
            fired == (old(self).phase == PeerPhase::AwaitingAck
                && now_ms >= old(self).ack_deadline_ms),
            !fired ==> *final(self) == *old(self),
            fired ==> final(self).same_identity(old(self))
                && final(self).phase == PeerPhase::Backoff
                && final(self).failures == sat64(old(self).failures + 1)
                && final(self).backoff_deadline_ms
                    == sat64(now_ms + backoff_delay_spec(backoff_base_ms, final(self).failures))
                && final(self).backoff_deadline_ms >= old(self).backoff_deadline_ms
                && final(self).backoff_deadline_ms >= now_ms
                && final(self).sent@ == old(self).acked@
                && final(self).acked@ == old(self).acked@
                && final(self).attempt == old(self).attempt,
    {
        if self.phase == PeerPhase::AwaitingAck && now_ms >= self.ack_deadline_ms {
            self.failures = sat_add(self.failures, 1);
            let delay = backoff_delay(backoff_base_ms, self.failures);
            self.backoff_deadline_ms = sat_add(now_ms, delay);
            self.sent.assign(&self.acked);
            self.phase = PeerPhase::Backoff;
            true
        } else {
            false
        }
    }
}

/// A peer is occupying a broadcast slot.
pub open spec fn is_in_flight(p: PeerBroadcastState) -> bool {
    p.phase == PeerPhase::Sending || p.phase == PeerPhase::AwaitingAck
}

/// How many peers hold a broadcast slot.
pub open spec fn in_flight_count(ps: Seq<PeerBroadcastState>) -> int
    decreases ps.len(),
{
    if ps.len() == 0 {
        0
    } else {
        in_flight_count(ps.drop_last()) + if is_in_flight(ps.last()) { 1int } else { 0int }
    }
}

proof fn lemma_in_flight_push(ps: Seq<PeerBroadcastState>, p: PeerBroadcastState)
    ensures
        in_flight_count(ps.push(p)) == in_flight_count(ps) + if is_in_flight(p) { 1int } else { 0int },
{
    assert(ps.push(p).drop_last() =~= ps);
}

proof fn lemma_in_flight_update(ps: Seq<PeerBroadcastState>, i: int, p: PeerBroadcastState)
    requires
        0 <= i < ps.len(),
    ensures
        in_flight_count(ps.update(i, p)) == in_flight_count(ps)
            - (if is_in_flight(ps[i]) { 1int } else { 0int })
            + (if is_in_flight(p) { 1int } else { 0int }),
    decreases ps.len(),
{
    let u = ps.update(i, p);
    if i == ps.len() - 1 {
        assert(u.drop_last() =~= ps.drop_last());
        assert(u.last() == p);
    } else {
        assert(u.drop_last() =~= ps.drop_last().update(i, p));
        assert(u.last() == ps.last());
        lemma_in_flight_update(ps.drop_last(), i, p);
    }
}

proof fn lemma_in_flight_remove(ps: Seq<PeerBroadcastState>, i: int)
    requires
        0 <= i < ps.len(),
    ensures
        in_flight_count(ps.remove(i)) == in_flight_count(ps)
            - (if is_in_flight(ps[i]) { 1int } else { 0int }),
    decreases ps.len(),
{
    let u = ps.remove(i);
    ps.remove_ensures(i);
    if i == ps.len() - 1 {
        assert(u =~= ps.drop_last());
    } else {
        assert(u.drop_last() =~= ps.drop_last().remove(i));
        assert(u.last() == ps.last());
        lemma_in_flight_remove(ps.drop_last(), i);
    }
}

proof fn lemma_in_flight_bounds(ps: Seq<PeerBroadcastState>, i: int)
    requires
        0 <= i < ps.len(),
    ensures
        in_flight_count(ps) >= 0,
        is_in_flight(ps[i]) ==> in_flight_count(ps) >= 1,
    decreases ps.len(),
{
    if i == ps.len() - 1 {
        if ps.len() > 1 {
            lemma_in_flight_bounds(ps.drop_last(), 0);
        }
    } else {
        lemma_in_flight_bounds(ps.drop_last(), i);
    }
}

/// Drives every peer's broadcast machine under the global gates: at most
/// `max_broadcasts_per_peer` peers hold a broadcast slot at once, and
/// with validator-only broadcast enabled non-validator peers are never
/// scheduled.
pub struct BroadcastScheduler {
    pub peers: Vec<PeerBroadcastState>,
    pub max_broadcasts_per_peer: usize,
    pub validator_broadcast: bool,
    pub batch_size: usize,
    pub max_batch_bytes: u64,
    pub ack_timeout_ms: u64,
    pub backoff_base_ms: u64,
    /// How many peers currently hold a broadcast slot.
    pub in_flight: usize,
}

impl BroadcastScheduler {
    /// The slot count is exact and within the configured bound, every
    /// peer state is well formed, and no (peer, instance) pair appears
    /// twice.
    pub open spec fn inv(&self) -> bool {
        &&& self.in_flight == in_flight_count(self.peers@)
        &&& self.in_flight <= self.max_broadcasts_per_peer
        &&& (forall|k: int| 0 <= k < self.peers@.len() ==> (#[trigger] self.peers@[k]).wf())
        &&& (forall|k1: int, k2: int| 0 <= k1 < k2 < self.peers@.len()
            ==> !(self.peers@[k1].peer == self.peers@[k2].peer
                && self.peers@[k1].instance == self.peers@[k2].instance))
    }

    /// The tick admits peer `i` at `now_ms`: it is ready, the validator
    /// gate allows it, and a broadcast slot is free.
    pub open spec fn may_broadcast(&self, i: int, now_ms: u64) -> bool {
        &&& (self.peers@[i].phase == PeerPhase::Idle || self.peers@[i].phase == PeerPhase::Backoff)
        &&& now_ms >= self.peers@[i].backoff_deadline_ms
        &&& (self.validator_broadcast || self.peers@[i].is_validator)
        &&& self.in_flight < self.max_broadcasts_per_peer
    }

    /// The pacing settings agree with `other`.
    pub open spec fn same_settings(&self, other: &BroadcastScheduler) -> bool {
        self.max_broadcasts_per_peer == other.max_broadcasts_per_peer
            && self.validator_broadcast == other.validator_broadcast
            && self.batch_size == other.batch_size
            && self.max_batch_bytes == other.max_batch_bytes
            && self.ack_timeout_ms == other.ack_timeout_ms
            && self.backoff_base_ms == other.backoff_base_ms
    }

    /// A scheduler with no peers yet, paced by the configuration.
    pub fn new(cfg: &crate::config::MempoolConfig) -> (r: BroadcastScheduler)
        ensures
            r.inv(),
            r.peers@.len() == 0,
            r.in_flight == 0,
            r.max_broadcasts_per_peer == cfg.max_broadcasts_per_peer,
            r.validator_broadcast == cfg.shared_mempool_validator_broadcast,
            r.batch_size == cfg.shared_mempool_batch_size,
            r.max_batch_bytes == cfg.shared_mempool_max_batch_bytes,
            r.ack_timeout_ms == cfg.shared_mempool_ack_timeout_ms,
            r.backoff_base_ms == cfg.shared_mempool_backoff_interval_ms,
    {
        BroadcastScheduler {
            peers: Vec::new(),
            max_broadcasts_per_peer: cfg.max_broadcasts_per_peer,
            validator_broadcast: cfg.shared_mempool_validator_broadcast,
            batch_size: cfg.shared_mempool_batch_size,
            max_batch_bytes: cfg.shared_mempool_max_batch_bytes,
            ack_timeout_ms: cfg.shared_mempool_ack_timeout_ms,
            backoff_base_ms: cfg.shared_mempool_backoff_interval_ms,
            in_flight: 0,
        }
    }

    /// The position of the state for this peer on this instance, if any.
    pub fn find_peer(&self, peer: u64, instance: u64) -> (r: Option<usize>)
        ensures
            match r {
                Some(i) => i < self.peers@.len() && self.peers@[i as int].peer == peer
                    && self.peers@[i as int].instance == instance,
                None => forall|k: int| 0 <= k < self.peers@.len()
                    ==> !((#[trigger] self.peers@[k]).peer == peer
                        && self.peers@[k].instance == instance),
            },
    {
        let mut i: usize = 0;
        while i < self.peers.len()
            invariant
                i <= self.peers.len(),
                forall|k: int| 0 <= k < i ==> !((#[trigger] self.peers@[k]).peer == peer
                    && self.peers@[k].instance == instance),
            decreases self.peers.len() - i,
        {
            if self.peers[i].peer == peer && self.peers[i].instance == instance {
                return Some(i);
            }
            i = i + 1;
        }
        None
    }

    /// First contact with a peer: create its state on the primary
    /// instance. A peer already known is left alone.
    pub fn add_peer(&mut self, peer: u64, is_validator: bool) -> (added: bool)
        requires
            old(self).inv(),
        ensures
            final(self).inv(),
            final(self).same_settings(old(self)),
            final(self).in_flight == old(self).in_flight,
            added == (forall|k: int| 0 <= k < old(self).peers@.len()
                ==> !((#[trigger] old(self).peers@[k]).peer == peer
                    && old(self).peers@[k].instance == 0)),
            !added ==> *final(self) == *old(self),
            added ==> final(self).peers@.len() == old(self).peers@.len() + 1
                && (forall|k: int| 0 <= k < old(self).peers@.len()
                    ==> final(self).peers@[k] == old(self).peers@[k])
                && final(self).peers@.last().peer == peer
                && final(self).peers@.last().instance == 0
                && final(self).peers@.last().is_validator == is_validator
                && final(self).peers@.last().phase == PeerPhase::Idle,
    {
        match self.find_peer(peer, 0) {
            Some(_) => false,
            None => {
                let ghost ps0 = self.peers@;
                let fresh = PeerBroadcastState::new(peer, 0, is_validator);
                self.peers.push(fresh);
                proof {
                    lemma_in_flight_push(ps0, fresh);
                }
                true
            },
        }
    }

    /// One peer's turn on the tick: if the peer is ready, the validator
    /// gate admits it, and a broadcast slot is free, select a batch and
    /// move it to `Sending`; otherwise nothing changes. `None` also means
    /// an admitted peer had an empty backlog.
    pub fn tick_peer(&mut self, i: usize, store: &MempoolStore, now_ms: u64)
        -> (batch: Option<Vec<TransactionRecord>>)
        requires
            old(self).inv(),
            store.inv(),
            i < old(self).peers@.len(),
        ensures
            final(self).inv(),
            final(self).same_settings(old(self)),
            batch is None ==> final(self).peers@ == old(self).peers@
                && final(self).in_flight == old(self).in_flight,
            (batch is Some <==> (old(self).may_broadcast(i as int, now_ms)
                && old(self).batch_size >= 1
                && exists|t: TxnModel| store@.contains(t)
                    && eligible(t, old(self).peers@[i as int].sent@))),
            batch is Some ==> ({
                let p0 = old(self).peers@[i as int];
                let p1 = final(self).peers@[i as int];
                &&& (p0.phase == PeerPhase::Idle || p0.phase == PeerPhase::Backoff)
                &&& now_ms >= p0.backoff_deadline_ms
                &&& (old(self).validator_broadcast ==> true)
                &&& (!old(self).validator_broadcast ==> p0.is_validator)
                &&& old(self).in_flight < old(self).max_broadcasts_per_peer
                &&& final(self).in_flight == old(self).in_flight + 1
                &&& final(self).peers@.len() == old(self).peers@.len()
                &&& (forall|k: int| 0 <= k < old(self).peers@.len() && k != i
                    ==> final(self).peers@[k] == old(self).peers@[k])
                &&& p1.phase == PeerPhase::Sending
                &&& p1.same_identity(&p0)
                &&& p1.acked@ == p0.acked@
                &&& p1.failures == p0.failures
                &&& p1.backoff_deadline_ms == p0.backoff_deadline_ms
                &&& p1.attempt == p0.attempt
            }),
            match batch {
                Some(b) => ({
                    let p0 = old(self).peers@[i as int];
                    &&& models(b@).len() > 0
                    &&& models(b@).len() <= old(self).batch_size
                    &&& (forall|k: int| 0 <= k < models(b@).len()
                        ==> store@.contains(#[trigger] models(b@)[k])
                            && eligible(models(b@)[k], p0.sent@))
                    &&& (forall|k1: int, k2: int| 0 <= k1 < k2 < models(b@).len()
                        ==> send_order_ge(#[trigger] models(b@)[k1], #[trigger] models(b@)[k2]))
                    &&& (sum_bytes(models(b@)) <= old(self).max_batch_bytes || models(b@).len() == 1)
                    &&& (forall|k: int| 0 <= k < models(b@).len()
                        ==> !eligible(#[trigger] models(b@)[k], final(self).peers@[i as int].sent@))
                }),
                None => true,
            },
    {
        let validator_ok = self.validator_broadcast || self.peers[i].is_validator;
        let slot_free = self.in_flight < self.max_broadcasts_per_peer;
        if !(self.peers[i].ready(now_ms) && validator_ok && slot_free) {
            return None;
        }
        let batch_size = self.batch_size;
        let max_batch_bytes = self.max_batch_bytes;
        let ghost ps0 = self.peers@;
        let p = vstd::std_specs::vec::vec_index_mut(&mut self.peers, i);
        let b = p.start_broadcast(store, batch_size, max_batch_bytes, now_ms);
        if b.len() == 0 {
            proof {
                assert(self.peers@ =~= ps0);
            }
            return None;
        }
        proof {
            lemma_in_flight_update(ps0, i as int, self.peers@[i as int]);
            assert forall|k1: int, k2: int| 0 <= k1 < k2 < self.peers@.len()
                implies !(self.peers@[k1].peer == self.peers@[k2].peer
                    && self.peers@[k1].instance == self.peers@[k2].instance) by {
                assert(self.peers@[k1].peer == ps0[k1].peer
                    && self.peers@[k1].instance == ps0[k1].instance);
                assert(self.peers@[k2].peer == ps0[k2].peer
                    && self.peers@[k2].instance == ps0[k2].instance);
            }
        }
        self.in_flight = self.in_flight + 1;
        Some(b)
    }

    /// The batch for peer `i` has been handed to the network.
    pub fn dispatched_peer(&mut self, i: usize, now_ms: u64)
        requires
            old(self).inv(),
            i < old(self).peers@.len(),
            old(self).peers@[i as int].phase == PeerPhase::Sending,
            now_ms >= old(self).peers@[i as int].backoff_deadline_ms,
            old(self).peers@[i as int].attempt < u64::MAX,
        ensures
            final(self).inv(),
            final(self).same_settings(old(self)),
            final(self).in_flight == old(self).in_flight,
            final(self).peers@.len() == old(self).peers@.len(),
            forall|k: int| 0 <= k < old(self).peers@.len() && k != i
                ==> final(self).peers@[k] == old(self).peers@[k],
            ({
                let p0 = old(self).peers@[i as int];
                let p1 = final(self).peers@[i as int];
                &&& p1.phase == PeerPhase::AwaitingAck
                &&& p1.same_identity(&p0)
                &&& p1.attempt == p0.attempt + 1
                &&& p1.ack_deadline_ms >= now_ms
                &&& p1.sent@ == p0.sent@
                &&& p1.acked@ == p0.acked@
                &&& p1.failures == p0.failures
                &&& p1.backoff_deadline_ms == p0.backoff_deadline_ms
            }),
    {
        let ack_timeout_ms = self.ack_timeout_ms;
        let ghost ps0 = self.peers@;
        let p = vstd::std_specs::vec::vec_index_mut(&mut self.peers, i);
        p.mark_dispatched(ack_timeout_ms, now_ms);
        proof {
            lemma_in_flight_update(ps0, i as int, self.peers@[i as int]);
            assert forall|k1: int, k2: int| 0 <= k1 < k2 < self.peers@.len()
                implies !(self.peers@[k1].peer == self.peers@[k2].peer
                    && self.peers@[k1].instance == self.peers@[k2].instance) by {
                assert(self.peers@[k1].peer == ps0[k1].peer
                    && self.peers@[k1].instance == ps0[k1].instance);
                assert(self.peers@[k2].peer == ps0[k2].peer
                    && self.peers@[k2].instance == ps0[k2].instance);
            }
        }
    }

    /// An acknowledgement for peer `i` arrived; only one matching the
    /// in-flight attempt frees the slot.
    pub fn ack_peer(&mut self, i: usize, attempt_id: u64, now_ms: u64) -> (accepted: bool)
        requires
            old(self).inv(),
            i < old(self).peers@.len(),
        ensures
            final(self).inv(),
            final(self).same_settings(old(self)),
            accepted == (old(self).peers@[i as int].phase == PeerPhase::AwaitingAck
                && attempt_id == old(self).peers@[i as int].attempt),
            !accepted ==> final(self).peers@ == old(self).peers@
                && final(self).in_flight == old(self).in_flight,
            accepted ==> final(self).in_flight == old(self).in_flight - 1
                && final(self).peers@.len() == old(self).peers@.len()
                && (forall|k: int| 0 <= k < old(self).peers@.len() && k != i
                    ==> final(self).peers@[k] == old(self).peers@[k])
                && final(self).peers@[i as int].phase == PeerPhase::Idle
                && final(self).peers@[i as int].failures == 0
                && final(self).peers@[i as int].acked@ == old(self).peers@[i as int].sent@,
    {
        let ghost ps0 = self.peers@;
        proof {
            lemma_in_flight_bounds(ps0, i as int);
        }
        let p = vstd::std_specs::vec::vec_index_mut(&mut self.peers, i);
        let accepted = p.on_ack(attempt_id, now_ms);
        proof {
            lemma_in_flight_update(ps0, i as int, self.peers@[i as int]);
            assert forall|k1: int, k2: int| 0 <= k1 < k2 < self.peers@.len()
                implies !(self.peers@[k1].peer == self.peers@[k2].peer
                    && self.peers@[k1].instance == self.peers@[k2].instance) by {
                assert(self.peers@[k1].peer == ps0[k1].peer
                    && self.peers@[k1].instance == ps0[k1].instance);
                assert(self.peers@[k2].peer == ps0[k2].peer
                    && self.peers@[k2].instance == ps0[k2].instance);
            }
        }
        if accepted {
            self.in_flight = self.in_flight - 1;
            proof {
                assert(self.peers@ =~= ps0.update(i as int, self.peers@[i as int]));
            }
        } else {
            proof {
                assert(self.peers@ =~= ps0);
            }
        }
        accepted
    }

    /// Peer `i`'s ack deadline passed: roll the cursor back, grow the
    /// backoff, free the slot.
    pub fn timeout_peer(&mut self, i: usize, now_ms: u64) -> (fired: bool)
        requires
            old(self).inv(),
            i < old(self).peers@.len(),
        ensures
            final(self).inv(),
            final(self).same_settings(old(self)),
            fired == (old(self).peers@[i as int].phase == PeerPhase::AwaitingAck
                && now_ms >= old(self).peers@[i as int].ack_deadline_ms),
            !fired ==> final(self).peers@ == old(self).peers@
                && final(self).in_flight == old(self).in_flight,
            fired ==> final(self).in_flight == old(self).in_flight - 1
                && final(self).peers@.len() == old(self).peers@.len()
                && (forall|k: int| 0 <= k < old(self).peers@.len() && k != i
                    ==> final(self).peers@[k] == old(self).peers@[k])
                && ({
                    let p0 = old(self).peers@[i as int];
                    let p1 = final(self).peers@[i as int];
                    &&& p1.phase == PeerPhase::Backoff
                    &&& p1.failures == sat64(p0.failures + 1)
                    &&& p1.backoff_deadline_ms
                        == sat64(now_ms + backoff_delay_spec(old(self).backoff_base_ms, p1.failures))
                    &&& p1.backoff_deadline_ms >= p0.backoff_deadline_ms
                    &&& p1.sent@ == p0.acked@
                    &&& p1.acked@ == p0.acked@
                }),
    {
        let backoff_base_ms = self.backoff_base_ms;
        let ghost ps0 = self.peers@;
        proof {
            lemma_in_flight_bounds(ps0, i as int);
        }
        let p = vstd::std_specs::vec::vec_index_mut(&mut self.peers, i);
        let fired = p.on_timeout(backoff_base_ms, now_ms);
        proof {
            lemma_in_flight_update(ps0, i as int, self.peers@[i as int]);
            assert forall|k1: int, k2: int| 0 <= k1 < k2 < self.peers@.len()
                implies !(self.peers@[k1].peer == self.peers@[k2].peer
                    && self.peers@[k1].instance == self.peers@[k2].instance) by {
                assert(self.peers@[k1].peer == ps0[k1].peer
                    && self.peers@[k1].instance == ps0[k1].instance);
                assert(self.peers@[k2].peer == ps0[k2].peer
                    && self.peers@[k2].instance == ps0[k2].instance);
            }
        }
        if fired {
            self.in_flight = self.in_flight - 1;
            proof {
                assert(self.peers@ =~= ps0.update(i as int, self.peers@[i as int]));
            }
        } else {
            proof {
                assert(self.peers@ =~= ps0);
            }
        }
        fired
    }

    /// The peer disconnected: its in-flight attempt, if any, is abandoned
    /// and its state discarded.
    pub fn disconnect_peer(&mut self, i: usize)
        requires
            old(self).inv(),
            i < old(self).peers@.len(),
        ensures
            final(self).inv(),
            final(self).same_settings(old(self)),
            final(self).peers@ == old(self).peers@.remove(i as int),
            final(self).in_flight == old(self).in_flight
                - (if is_in_flight(old(self).peers@[i as int]) { 1int } else { 0int }),
    {
        let ghost ps0 = self.peers@;
        proof {
            lemma_in_flight_bounds(ps0, i as int);
            lemma_in_flight_remove(ps0, i as int);
        }
        let was_in_flight = self.peers[i].phase == PeerPhase::Sending
            || self.peers[i].phase == PeerPhase::AwaitingAck;
        let _ = self.peers.remove(i);
        if was_in_flight {
            self.in_flight = self.in_flight - 1;
        }
        proof {
            ps0.remove_ensures(i as int);
        }
    }

    /// After the failure streak crosses the coordinator's threshold,
    /// bring the peer up on its next untried network instance, as a fresh
    /// state; the old instance's state — its backoff timer included — is
    /// left untouched. With every alternate exhausted, or the next one
    /// already present, nothing changes.
    pub fn maybe_failover(&mut self, i: usize, fc: &crate::failover::FailoverCoordinator)
        -> (switched: bool)
        requires
            old(self).inv(),
            fc.inv(),
            i < old(self).peers@.len(),
            old(self).peers@[i as int].instance < fc.num_instances,
        ensures
            final(self).inv(),
            final(self).same_settings(old(self)),
            final(self).in_flight == old(self).in_flight,
            switched == (old(self).peers@[i as int].failures >= fc.failover_threshold
                && old(self).peers@[i as int].instance + 1 < fc.num_instances
                && (forall|k: int| 0 <= k < old(self).peers@.len()
                    ==> !((#[trigger] old(self).peers@[k]).peer == old(self).peers@[i as int].peer
                        && old(self).peers@[k].instance == old(self).peers@[i as int].instance + 1))),
            !switched ==> *final(self) == *old(self),
            switched ==> old(self).peers@[i as int].failures >= fc.failover_threshold
                && old(self).peers@[i as int].instance + 1 < fc.num_instances
                && final(self).peers@.len() == old(self).peers@.len() + 1
                && (forall|k: int| 0 <= k < old(self).peers@.len()
                    ==> final(self).peers@[k] == old(self).peers@[k])
                && final(self).peers@.last().peer == old(self).peers@[i as int].peer
                && final(self).peers@.last().instance == old(self).peers@[i as int].instance + 1
                && final(self).peers@.last().phase == PeerPhase::Idle
                && final(self).peers@.last().failures == 0,
    {
        if !fc.should_failover(self.peers[i].failures) {
            return false;
        }
        let peer = self.peers[i].peer;
        let is_validator = self.peers[i].is_validator;
        match fc.next_instance(self.peers[i].instance) {
            None => false,
            Some(next) => {
                match self.find_peer(peer, next) {
                    Some(_) => false,
                    None => {
                        let ghost ps0 = self.peers@;
                        let fresh = PeerBroadcastState::new(peer, next, is_validator);
                        self.peers.push(fresh);
                        proof {
                            lemma_in_flight_push(ps0, fresh);
                        }
                        true
                    },
                }
            },
        }
    }
}

} // verus!
