//! The bounded, indexed collection of accepted transactions.
//!
//! The store owns every retained record and enforces, as an invariant, the
//! three capacity limits: total count, total payload bytes, and per-sender
//! count. Admission (with priority-based eviction), removal, commit marking
//! and the expiry sweep all preserve it.

use vstd::prelude::*;
use crate::admission::{
    AdmissionError, capacity_outcome, fits, has_key, key_index,
    lemma_count_pos_iff, lemma_count_push, lemma_count_remove, lemma_count_update,
    lemma_sender_victim_props, lemma_sum_element_le, lemma_sum_nonneg, lemma_sum_push, lemma_sum_take_le, lemma_unique_push,
    lemma_sum_remove, lemma_sum_update, lemma_victim_index_props, sender_count,
    sender_victim_index, submit_outcome, sum_bytes, unique_keys, victim_index,
};
use crate::record::{TransactionRecord, TxnModel, admitted_model, expired_by_policy, with_commit};

verus! {

/// The ghost image of a record vector.
pub open spec fn models(s: Seq<TransactionRecord>) -> Seq<TxnModel> {
    s.map_values(|r: TransactionRecord| r@)
}

proof fn lemma_models_push(s: Seq<TransactionRecord>, r: TransactionRecord)
    ensures
        models(s.push(r)) == models(s).push(r@),
{
    assert(models(s.push(r)) =~= models(s).push(r@));
}

proof fn lemma_models_update(s: Seq<TransactionRecord>, i: int, r: TransactionRecord)
    requires
        0 <= i < s.len(),
    ensures
        models(s.update(i, r)) == models(s).update(i, r@),
{
    assert(models(s.update(i, r)) =~= models(s).update(i, r@));
}

proof fn lemma_models_remove(s: Seq<TransactionRecord>, i: int)
    requires
        0 <= i < s.len(),
    ensures
        models(s.remove(i)) == models(s).remove(i),
{
    s.remove_ensures(i);
    models(s).remove_ensures(i);
    assert(models(s.remove(i)) =~= models(s).remove(i));
}

proof fn lemma_models_insert(s: Seq<TransactionRecord>, i: int, r: TransactionRecord)
    requires
        0 <= i <= s.len(),
    ensures
        models(s.insert(i, r)) == models(s).insert(i, r@),
{
    assert(models(s.insert(i, r)) =~= models(s).insert(i, r@));
}

/// Removing then re-inserting the same element at the same place restores
/// the sequence.
proof fn lemma_remove_insert_identity(v: Seq<TxnModel>, i: int)
    requires
        0 <= i < v.len(),
    ensures
        v.remove(i).insert(i, v[i]) == v,
{
    v.remove_ensures(i);
    assert(v.remove(i).insert(i, v[i]) =~= v);
}

/// Removal keeps keys unique and introduces none.
proof fn lemma_unique_remove(v: Seq<TxnModel>, i: int)
    requires
        0 <= i < v.len(),
        unique_keys(v),
    ensures
        unique_keys(v.remove(i)),
        forall|s: u64, q: u64| !has_key(v, s, q) ==> !has_key(v.remove(i), s, q),
{
    let u = v.remove(i);
    v.remove_ensures(i);
    assert forall|a: int, b: int| 0 <= a < b < u.len() implies !(u[a].sender == u[b].sender
        && u[a].sequence_number == u[b].sequence_number) by {
        let a0: int = if a < i { a } else { a + 1 };
        let b0: int = if b < i { b } else { b + 1 };
        assert(u[a] == v[a0]);
        assert(u[b] == v[b0]);
    }
    assert forall|s: u64, q: u64| !has_key(v, s, q) implies !has_key(u, s, q) by {
        if has_key(u, s, q) {
            let j = choose|j: int| 0 <= j < u.len() && u[j].sender == s && u[j].sequence_number == q;
            let j0: int = if j < i { j } else { j + 1 };
            assert(u[j] == v[j0]);
        }
    }
}

/// Broadcast order: `a` is sent no later than `b` — higher priority first,
/// ties broken by older insertion time.
pub open spec fn send_order_ge(a: TxnModel, b: TxnModel) -> bool {
    a.priority > b.priority || (a.priority == b.priority && a.insertion_secs <= b.insertion_secs)
}

/// No key occurs on both sides.
pub open spec fn keys_disjoint(a: Seq<TxnModel>, b: Seq<TxnModel>) -> bool {
    forall|i: int, j: int| 0 <= i < a.len() && 0 <= j < b.len()
        ==> !(a[i].sender == b[j].sender && a[i].sequence_number == b[j].sequence_number)
}

/// What swap-removal at `j` leaves: every element but `r[j]`, keys still
/// unique, membership preserved both ways.
proof fn lemma_swap_remove_model(r: Seq<TxnModel>, j: int)
    requires
        0 <= j < r.len(),
        unique_keys(r),
    ensures
        ({
            let r2 = r.update(j, r.last()).drop_last();
            &&& r2.len() == r.len() - 1
            &&& unique_keys(r2)
            &&& forall|t: TxnModel| r2.contains(t) ==> r.contains(t)
            &&& forall|t: TxnModel| r.contains(t) && t != r[j] ==> r2.contains(t)
            &&& !has_key(r2, r[j].sender, r[j].sequence_number)
        }),
{
    let r2 = r.update(j, r.last()).drop_last();
    assert forall|k: int| 0 <= k < r.len() - 1 implies r2[k] == (if k == j { r[r.len() - 1] } else { r[k] }) by {}
    assert forall|a: int, b: int| 0 <= a < b < r2.len() implies !(r2[a].sender == r2[b].sender
        && r2[a].sequence_number == r2[b].sequence_number) by {
        let a0: int = if a == j { r.len() - 1 } else { a };
        let b0: int = if b == j { r.len() - 1 } else { b };
        assert(r2[a] == r[a0]);
        assert(r2[b] == r[b0]);
        assert(a0 != b0);
        if a0 < b0 {
        } else {
            assert(!(r[b0].sender == r[a0].sender && r[b0].sequence_number == r[a0].sequence_number));
        }
    }
    assert forall|t: TxnModel| r2.contains(t) implies r.contains(t) by {
        let k = r2.index_of(t);
        let k0: int = if k == j { r.len() - 1 } else { k };
        assert(r[k0] == t);
    }
    assert forall|t: TxnModel| r.contains(t) && t != r[j] implies r2.contains(t) by {
        let k = r.index_of(t);
        assert(k != j);
        if k == r.len() - 1 {
            if j < r.len() - 1 {
                assert(r2[j] == t);
            }
        } else {
            assert(r2[k] == t);
        }
    }
    if has_key(r2, r[j].sender, r[j].sequence_number) {
        let k = choose|k: int| 0 <= k < r2.len() && r2[k].sender == r[j].sender
            && r2[k].sequence_number == r[j].sequence_number;
        let k0: int = if k == j { r.len() - 1 } else { k };
        assert(r2[k] == r[k0]);
        if k0 != j {
            if k0 < j {
                assert(!(r[k0].sender == r[j].sender && r[k0].sequence_number == r[j].sequence_number));
            } else {
                assert(!(r[j].sender == r[k0].sender && r[j].sequence_number == r[k0].sequence_number));
            }
        }
    }
}

/// The bounded transaction pool.
pub struct MempoolStore {
    pub capacity: usize,
    pub capacity_bytes: usize,
    pub capacity_per_user: usize,
    pub txns: Vec<TransactionRecord>,
    pub total_bytes: usize,
}

impl View for MempoolStore {
    type V = Seq<TxnModel>;

    open spec fn view(&self) -> Seq<TxnModel> {
        models(self.txns@)
    }
}

impl MempoolStore {
    /// The store's invariant: both capacity limits hold, the byte
    /// accumulator is exact, keys are unique, and every sender is within
    /// its quota.
    pub open spec fn inv(&self) -> bool {
        &&& self@.len() <= self.capacity
        &&& self.total_bytes == sum_bytes(self@)
        &&& self.total_bytes <= self.capacity_bytes
        &&& unique_keys(self@)
        &&& forall|s: u64| sender_count(self@, s) <= self.capacity_per_user as int
    }

    /// The three limits are those given.
    pub open spec fn limits(&self, capacity: usize, capacity_bytes: usize, capacity_per_user: usize) -> bool {
        self.capacity == capacity && self.capacity_bytes == capacity_bytes
            && self.capacity_per_user == capacity_per_user
    }

    /// An empty store under the given limits.
    pub fn new(capacity: usize, capacity_bytes: usize, capacity_per_user: usize) -> (r: MempoolStore)
        ensures
            r.inv(),
            r@ == Seq::<TxnModel>::empty(),
            r.limits(capacity, capacity_bytes, capacity_per_user),
    {
        let r = MempoolStore {
            capacity,
            capacity_bytes,
            capacity_per_user,
            txns: Vec::new(),
            total_bytes: 0,
        };
        proof {
            assert(r@ =~= Seq::<TxnModel>::empty());
            assert forall|s: u64| sender_count(r@, s) <= r.capacity_per_user as int by {
                lemma_count_pos_iff(r@, s);
            }
        }
        r
    }

    /// How many records are retained.
    pub fn len(&self) -> (r: usize)
        ensures
            r == self@.len(),
    {
        self.txns.len()
    }

    /// Total payload bytes retained.
    pub fn bytes_used(&self) -> (r: usize)
        requires
            self.inv(),
        ensures
            r == sum_bytes(self@),
    {
        self.total_bytes
    }

    /// The position of the record with this key, if any.
    fn find_key(&self, sender: u64, seq: u64) -> (r: Option<usize>)
        ensures
            match r {
                Some(i) => i < self@.len() && self@[i as int].sender == sender
                    && self@[i as int].sequence_number == seq,
                None => !has_key(self@, sender, seq),
            },
    {
        let mut i: usize = 0;
        while i < self.txns.len()
            invariant
                i <= self.txns.len(),
                forall|j: int| 0 <= j < i ==> !(self@[j].sender == sender
                    && self@[j].sequence_number == seq),
            decreases self.txns.len() - i,
        {
            if self.txns[i].sender == sender && self.txns[i].sequence_number == seq {
                return Some(i);
            }
            i = i + 1;
        }
        None
    }

    /// Whether a record with this key is retained.
    pub fn contains_key(&self, sender: u64, seq: u64) -> (r: bool)
        ensures
            r == has_key(self@, sender, seq),
    {
        self.find_key(sender, seq).is_some()
    }

    /// How many records this sender holds.
    fn count_sender(&self, sender: u64) -> (r: usize)
        ensures
            r as int == sender_count(self@, sender),
    {
        let ghost v = self@;
        let mut i: usize = 0;
        let mut cnt: usize = 0;
        proof {
            assert(v.take(0) =~= Seq::<TxnModel>::empty());
        }
        while i < self.txns.len()
            invariant
                i <= self.txns.len(),
                v == self@,
                cnt as int == sender_count(v.take(i as int), sender),
                cnt <= i,
            decreases self.txns.len() - i,
        {
            proof {
                assert(v.take(i + 1).drop_last() =~= v.take(i as int));
                assert(v.take(i + 1).last() == v[i as int]);
            }
            if self.txns[i].sender == sender {
                cnt = cnt + 1;
            }
            i = i + 1;
        }
        proof {
            assert(v.take(v.len() as int) =~= v);
        }
        cnt
    }

    /// The index of the pool-wide eviction victim.
    fn find_global_victim(&self) -> (r: usize)
        requires
            self@.len() > 0,
        ensures
            r < self@.len(),
            r as int == victim_index(self@),
    {
        let ghost v = self@;
        let mut best: usize = 0;
        let mut i: usize = 1;
        proof {
            assert(v.take(1).len() == 1);
            assert(victim_index(v.take(1)) == 0);
        }
        while i < self.txns.len()
            invariant
                1 <= i <= self.txns.len(),
                best < i,
                v == self@,
                v.len() == self.txns.len(),
                best as int == victim_index(v.take(i as int)),
            decreases self.txns.len() - i,
        {
            proof {
                assert(v.take(i + 1).drop_last() =~= v.take(i as int));
                assert(v.take(i + 1).last() == v[i as int]);
            }
            let better = self.txns[i].priority < self.txns[best].priority
                || (self.txns[i].priority == self.txns[best].priority
                    && self.txns[i].insertion_secs < self.txns[best].insertion_secs);
            if better {
                best = i;
            }
            i = i + 1;
        }
        proof {
            assert(v.take(v.len() as int) =~= v);
        }
        best
    }

    /// The index of this sender's eviction victim, if the sender holds
    /// anything.
    fn find_sender_victim(&self, sender: u64) -> (r: Option<usize>)
        ensures
            match r {
                Some(b) => b < self@.len() && b as int == sender_victim_index(self@, sender),
                None => sender_victim_index(self@, sender) == -1,
            },
    {
        let ghost v = self@;
        let mut best: usize = 0;
        let mut found = false;
        let mut i: usize = 0;
        proof {
            assert(v.take(0) =~= Seq::<TxnModel>::empty());
        }
        while i < self.txns.len()
            invariant
                i <= self.txns.len(),
                v == self@,
                v.len() == self.txns.len(),
                found ==> best < i,
                found ==> best as int == sender_victim_index(v.take(i as int), sender),
                !found ==> sender_victim_index(v.take(i as int), sender) == -1,
            decreases self.txns.len() - i,
        {
            proof {
                assert(v.take(i + 1).drop_last() =~= v.take(i as int));
                assert(v.take(i + 1).last() == v[i as int]);
            }
            if self.txns[i].sender == sender {
                if !found {
                    best = i;
                    found = true;
                } else {
                    let better = self.txns[i].priority < self.txns[best].priority
                        || (self.txns[i].priority == self.txns[best].priority
                            && self.txns[i].insertion_secs < self.txns[best].insertion_secs);
                    if better {
                        best = i;
                    }
                }
            }
            i = i + 1;
        }
        proof {
            assert(v.take(v.len() as int) =~= v);
        }
        if found {
            Some(best)
        } else {
            None
        }
    }

    /// Insert a record with a fresh key whose sender is under quota,
    /// evicting at most one strictly lower-priority record if the pool is
    /// full. Fails, changing nothing, when no room can be made.
    fn admit_with_room(&mut self, rec: TransactionRecord) -> (admitted: bool)
        requires
            old(self).inv(),
            !has_key(old(self)@, rec@.sender, rec@.sequence_number),
            sender_count(old(self)@, rec@.sender) < old(self).capacity_per_user as int,
        ensures
            final(self).inv(),
            final(self).limits(old(self).capacity, old(self).capacity_bytes, old(self).capacity_per_user),
            match capacity_outcome(old(self)@, rec@, old(self).capacity, old(self).capacity_bytes) {
                Some(pool) => admitted && final(self)@ == pool,
                None => !admitted && final(self)@ == old(self)@,
            },
    {
        let ghost v0 = self@;
        let rec_size = rec.payload.len();
        proof {
            lemma_sum_nonneg(v0);
        }
        if self.txns.len() < self.capacity && rec_size <= self.capacity_bytes - self.total_bytes {
            proof {
                assert(fits(v0, rec@, self.capacity, self.capacity_bytes));
            }
            self.total_bytes = self.total_bytes + rec_size;
            let ghost pre = self.txns@;
            self.txns.push(rec);
            proof {
                lemma_models_push(pre, rec);
                lemma_sum_push(v0, rec@);
                lemma_unique_push(v0, rec@);
                assert forall|s: u64| sender_count(self@, s) <= self.capacity_per_user as int by {
                    lemma_count_push(v0, rec@, s);
                }
            }
            true
        } else {
            proof {
                assert(!fits(v0, rec@, self.capacity, self.capacity_bytes));
            }
            if self.txns.len() == 0 {
                return false;
            }
            let gvi = self.find_global_victim();
            if self.txns[gvi].priority < rec.priority {
                proof {
                    lemma_sum_element_le(v0, gvi as int);
                }
                let ghost pre = self.txns@;
                let victim = self.txns.remove(gvi);
                self.total_bytes = self.total_bytes - victim.payload.len();
                proof {
                    lemma_models_remove(pre, gvi as int);
                    lemma_sum_remove(v0, gvi as int);
                    lemma_unique_remove(v0, gvi as int);
                }
                let ghost v1 = self@;
                proof {
                    assert(v1 == v0.remove(gvi as int));
                    assert(!has_key(v1, rec@.sender, rec@.sequence_number));
                    assert forall|s: u64| sender_count(v1, s) <= self.capacity_per_user as int by {
                        lemma_count_remove(v0, gvi as int, s);
                    }
                }
                if self.txns.len() < self.capacity && rec_size <= self.capacity_bytes - self.total_bytes {
                    proof {
                        assert(fits(v1, rec@, self.capacity, self.capacity_bytes));
                    }
                    self.total_bytes = self.total_bytes + rec_size;
                    let ghost pre2 = self.txns@;
                    self.txns.push(rec);
                    proof {
                        lemma_models_push(pre2, rec);
                        lemma_sum_push(v1, rec@);
                        lemma_unique_push(v1, rec@);
                        assert forall|s: u64| sender_count(self@, s) <= self.capacity_per_user as int by {
                            lemma_count_push(v1, rec@, s);
                            lemma_count_remove(v0, gvi as int, s);
                        }
                    }
                    true
                } else {
                    proof {
                        assert(!fits(v1, rec@, self.capacity, self.capacity_bytes));
                    }
                    self.total_bytes = self.total_bytes + victim.payload.len();
                    let ghost pre3 = self.txns@;
                    self.txns.insert(gvi, victim);
                    proof {
                        lemma_models_insert(pre3, gvi as int, victim);
                        lemma_remove_insert_identity(v0, gvi as int);
                        assert(self@ == v0);
                    }
                    false
                }
            } else {
                false
            }
        }
    }

    /// Admit, replace or reject a submitted record, as the admission policy
    /// decides; on every rejection the pool is unchanged.
    pub fn submit(&mut self, rec: TransactionRecord, now_secs: u64) -> (r: Result<(), AdmissionError>)
        requires
            old(self).inv(),
        ensures
            final(self).inv(),
            final(self).limits(old(self).capacity, old(self).capacity_bytes, old(self).capacity_per_user),
            r == submit_outcome(old(self)@, admitted_model(rec@, now_secs), now_secs,
                old(self).capacity, old(self).capacity_bytes, old(self).capacity_per_user).verdict,
            final(self)@ == submit_outcome(old(self)@, admitted_model(rec@, now_secs), now_secs,
                old(self).capacity, old(self).capacity_bytes, old(self).capacity_per_user).pool,
            r is Err ==> final(self)@ == old(self)@,
    {
        let ghost v0 = self@;
        let ghost t = admitted_model(rec@, now_secs);
        if rec.expiration_secs < now_secs {
            return Err(AdmissionError::Expired);
        }
        let mut rec = rec;
        rec.insertion_secs = now_secs;
        rec.committed_secs = None;
        proof {
            assert(rec@ == t);
        }
        match self.find_key(rec.sender, rec.sequence_number) {
            Some(di) => {
                proof {
                    assert(has_key(v0, t.sender, t.sequence_number));
                    let ki = key_index(v0, t.sender, t.sequence_number);
                    if ki != di {
                        if ki < di {
                            assert(!(v0[ki].sender == v0[di as int].sender
                                && v0[ki].sequence_number == v0[di as int].sequence_number));
                        } else {
                            assert(!(v0[di as int].sender == v0[ki].sender
                                && v0[di as int].sequence_number == v0[ki].sequence_number));
                        }
                    }
                    assert(ki == di);
                }
                if rec.priority <= self.txns[di].priority {
                    return Err(AdmissionError::DuplicateLowerPriority);
                }
                proof {
                    lemma_sum_element_le(v0, di as int);
                }
                let old_size = self.txns[di].payload.len();
                let rest = self.total_bytes - old_size;
                if rec.payload.len() <= self.capacity_bytes - rest {
                    let rec_size = rec.payload.len();
                    let ghost pre = self.txns@;
                    self.txns.set(di, rec);
                    self.total_bytes = rest + rec_size;
                    proof {
                        lemma_models_update(pre, di as int, rec);
                        lemma_sum_update(v0, di as int, t);
                        assert forall|s: u64| sender_count(self@, s) <= self.capacity_per_user as int by {
                            lemma_count_update(v0, di as int, t, s);
                        }
                        assert forall|a: int, b: int| 0 <= a < b < self@.len() implies !(
                            self@[a].sender == self@[b].sender
                            && self@[a].sequence_number == self@[b].sequence_number) by {
                            assert(v0[a].sender == self@[a].sender || a == di);
                            assert(v0[b].sender == self@[b].sender || b == di);
                        }
                    }
                    Ok(())
                } else {
                    Err(AdmissionError::CapacityExceeded)
                }
            },
            None => {
                let cnt = self.count_sender(rec.sender);
                if cnt >= self.capacity_per_user {
                    match self.find_sender_victim(rec.sender) {
                        None => {
                            proof {
                                lemma_sender_victim_props(v0, t.sender);
                            }
                            Err(AdmissionError::QuotaExceeded)
                        },
                        Some(qi) => {
                            proof {
                                lemma_sender_victim_props(v0, t.sender);
                            }
                            if self.txns[qi].priority >= rec.priority {
                                return Err(AdmissionError::QuotaExceeded);
                            }
                            proof {
                                lemma_sum_element_le(v0, qi as int);
                                lemma_count_pos_iff(v0, t.sender);
                            }
                            let ghost pre = self.txns@;
                            let victim = self.txns.remove(qi);
                            self.total_bytes = self.total_bytes - victim.payload.len();
                            proof {
                                lemma_models_remove(pre, qi as int);
                                lemma_sum_remove(v0, qi as int);
                                lemma_unique_remove(v0, qi as int);
                                assert forall|s: u64| sender_count(self@, s) <= self.capacity_per_user as int by {
                                    lemma_count_remove(v0, qi as int, s);
                                }
                                lemma_count_remove(v0, qi as int, t.sender);
                            }
                            let admitted = self.admit_with_room(rec);
                            if admitted {
                                Ok(())
                            } else {
                                self.total_bytes = self.total_bytes + victim.payload.len();
                                let ghost pre2 = self.txns@;
                                self.txns.insert(qi, victim);
                                proof {
                                    lemma_models_insert(pre2, qi as int, victim);
                                    lemma_remove_insert_identity(v0, qi as int);
                                    assert(self@ == v0);
                                    lemma_sum_remove(v0, qi as int);
                                }
                                Err(AdmissionError::CapacityExceeded)
                            }
                        },
                    }
                } else {
                    let admitted = self.admit_with_room(rec);
                    if admitted {
                        Ok(())
                    } else {
                        Err(AdmissionError::CapacityExceeded)
                    }
                }
            },
        }
    }

    /// Delete the record with this key, if retained; reports whether one
    /// was.
    pub fn remove_key(&mut self, sender: u64, seq: u64) -> (r: bool)
        requires
            old(self).inv(),
        ensures
            final(self).inv(),
            final(self).limits(old(self).capacity, old(self).capacity_bytes, old(self).capacity_per_user),
            r == has_key(old(self)@, sender, seq),
            r ==> final(self)@ == old(self)@.remove(key_index(old(self)@, sender, seq)),
            !r ==> final(self)@ == old(self)@,
    {
        let ghost v0 = self@;
        match self.find_key(sender, seq) {
            None => false,
            Some(i) => {
                proof {
                    assert(has_key(v0, sender, seq));
                    let ki = key_index(v0, sender, seq);
                    if ki != i {
                        if ki < i {
                            assert(!(v0[ki].sender == v0[i as int].sender
                                && v0[ki].sequence_number == v0[i as int].sequence_number));
                        } else {
                            assert(!(v0[i as int].sender == v0[ki].sender
                                && v0[i as int].sequence_number == v0[ki].sequence_number));
                        }
                    }
                    assert(ki == i);
                    lemma_sum_element_le(v0, i as int);
                }
                let ghost pre = self.txns@;
                let victim = self.txns.remove(i);
                self.total_bytes = self.total_bytes - victim.payload.len();
                proof {
                    lemma_models_remove(pre, i as int);
                    lemma_sum_remove(v0, i as int);
                    lemma_unique_remove(v0, i as int);
                    assert forall|s: u64| sender_count(self@, s) <= self.capacity_per_user as int by {
                        lemma_count_remove(v0, i as int, s);
                    }
                }
                true
            },
        }
    }

    /// Note a commit reported by the consensus layer; the record is kept
    /// until the expiry sweep's grace window has passed.
    pub fn mark_committed(&mut self, sender: u64, seq: u64, now_secs: u64) -> (r: bool)
        requires
            old(self).inv(),
        ensures
            final(self).inv(),
            final(self).limits(old(self).capacity, old(self).capacity_bytes, old(self).capacity_per_user),
            r == has_key(old(self)@, sender, seq),
            r ==> final(self)@ == old(self)@.update(key_index(old(self)@, sender, seq),
                with_commit(old(self)@[key_index(old(self)@, sender, seq)], now_secs)),
            !r ==> final(self)@ == old(self)@,
    {
        let ghost v0 = self@;
        match self.find_key(sender, seq) {
            None => false,
            Some(i) => {
                proof {
                    assert(has_key(v0, sender, seq));
                    let ki = key_index(v0, sender, seq);
                    if ki != i {
                        if ki < i {
                            assert(!(v0[ki].sender == v0[i as int].sender
                                && v0[ki].sequence_number == v0[i as int].sequence_number));
                        } else {
                            assert(!(v0[i as int].sender == v0[ki].sender
                                && v0[i as int].sequence_number == v0[ki].sequence_number));
                        }
                    }
                    assert(ki == i);
                }
                let mut stamped = self.txns[i].duplicate();
                stamped.committed_secs = Some(now_secs);
                let ghost pre = self.txns@;
                self.txns.set(i, stamped);
                proof {
                    lemma_models_update(pre, i as int, stamped);
                    assert(stamped@ == with_commit(v0[i as int], now_secs));
                    lemma_sum_update(v0, i as int, stamped@);
                    assert forall|s: u64| sender_count(self@, s) <= self.capacity_per_user as int by {
                        lemma_count_update(v0, i as int, stamped@, s);
                    }
                    assert forall|a: int, b: int| 0 <= a < b < self@.len() implies !(
                        self@[a].sender == self@[b].sender
                        && self@[a].sequence_number == self@[b].sequence_number) by {
                        assert(v0[a].sender == self@[a].sender || a == i);
                        assert(v0[b].sender == self@[b].sender || b == i);
                    }
                }
                true
            },
        }
    }

    /// The expiry sweep: drop every record that the expiry policy has made
    /// eligible for removal at `now_secs`; reports how many were dropped.
    pub fn gc(&mut self, now_secs: u64, timeout_secs: u64, early_secs: u64) -> (removed: usize)
        requires
            old(self).inv(),
        ensures
            final(self).inv(),
            final(self).limits(old(self).capacity, old(self).capacity_bytes, old(self).capacity_per_user),
            forall|t: TxnModel| final(self)@.contains(t) <==> (old(self)@.contains(t)
                && !expired_by_policy(t, now_secs, timeout_secs, early_secs)),
            removed == old(self)@.len() - final(self)@.len(),
    {
        let ghost v0 = self@;
        let mut kept: Vec<TransactionRecord> = Vec::new();
        let mut kept_bytes: usize = 0;
        let mut i: usize = 0;
        proof {
            assert(v0.take(0) =~= Seq::<TxnModel>::empty());
            lemma_sum_nonneg(v0);
        }
        while i < self.txns.len()
            invariant
                i <= self.txns.len(),
                v0 == self@,
                v0.len() == self.txns.len(),
                self.inv(),
                kept@.len() <= i,
                kept_bytes as int == sum_bytes(models(kept@)),
                kept_bytes as int <= sum_bytes(v0.take(i as int)),
                unique_keys(models(kept@)),
                forall|s: u64| sender_count(models(kept@), s) <= sender_count(v0.take(i as int), s),
                forall|t: TxnModel| models(kept@).contains(t) <==> (v0.take(i as int).contains(t)
                    && !expired_by_policy(t, now_secs, timeout_secs, early_secs)),
            decreases self.txns.len() - i,
        {
            let ghost kpre = models(kept@);
            proof {
                assert(v0.take(i + 1).drop_last() =~= v0.take(i as int));
                assert(v0.take(i + 1).last() == v0[i as int]);
                lemma_sum_take_le(v0, i + 1);
            }
            let expired = match self.txns[i].committed_secs {
                Some(c) => now_secs >= c && now_secs - c >= early_secs,
                None => now_secs >= self.txns[i].expiration_secs
                    && now_secs - self.txns[i].expiration_secs >= timeout_secs,
            };
            proof {
                assert(expired == expired_by_policy(v0[i as int], now_secs, timeout_secs, early_secs));
            }
            if !expired {
                let copyr = self.txns[i].duplicate();
                proof {
                    lemma_sum_push(kpre, copyr@);
                    lemma_sum_element_le(v0, i as int);
                }
                kept_bytes = kept_bytes + copyr.payload.len();
                let ghost kvecpre = kept@;
                kept.push(copyr);
                proof {
                    lemma_models_push(kvecpre, copyr);
                    assert forall|s: u64| sender_count(models(kept@), s)
                        <= sender_count(v0.take(i + 1), s) by {
                        lemma_count_push(kpre, copyr@, s);
                        lemma_count_push(v0.take(i as int), v0[i as int], s);
                        assert(v0.take(i as int).push(v0[i as int]) =~= v0.take(i + 1));
                    }
                    assert(!has_key(kpre, v0[i as int].sender, v0[i as int].sequence_number)) by {
                        if has_key(kpre, v0[i as int].sender, v0[i as int].sequence_number) {
                            let j = choose|j: int| 0 <= j < kpre.len()
                                && kpre[j].sender == v0[i as int].sender
                                && kpre[j].sequence_number == v0[i as int].sequence_number;
                            assert(kpre.contains(kpre[j]));
                            assert(v0.take(i as int).contains(kpre[j]));
                            let k = v0.take(i as int).index_of(kpre[j]);
                            assert(0 <= k < i && v0.take(i as int)[k] == kpre[j]);
                            assert(v0[k] == kpre[j]);
                            assert(!(v0[k].sender == v0[i as int].sender
                                && v0[k].sequence_number == v0[i as int].sequence_number));
                        }
                    }
                    lemma_unique_push(kpre, v0[i as int]);
                    assert forall|t: TxnModel| models(kept@).contains(t) implies (
                        v0.take(i + 1).contains(t)
                        && !expired_by_policy(t, now_secs, timeout_secs, early_secs)) by {
                        let j = models(kept@).index_of(t);
                        assert(0 <= j < models(kept@).len() && models(kept@)[j] == t);
                        if j < kpre.len() {
                            assert(kpre.contains(t));
                            assert(v0.take(i as int).contains(t));
                            let k = v0.take(i as int).index_of(t);
                            assert(0 <= k < i && v0.take(i as int)[k] == t);
                            assert(v0.take(i + 1)[k] == t);
                        } else {
                            assert(t == v0[i as int]);
                            assert(v0.take(i + 1)[i as int] == t);
                        }
                    }
                    assert forall|t: TxnModel| (v0.take(i + 1).contains(t)
                        && !expired_by_policy(t, now_secs, timeout_secs, early_secs))
                        implies models(kept@).contains(t) by {
                        let k = v0.take(i + 1).index_of(t);
                        assert(0 <= k < i + 1 && v0.take(i + 1)[k] == t);
                        if k < i {
                            assert(v0.take(i as int)[k] == t);
                            assert(v0.take(i as int).contains(t));
                            assert(kpre.contains(t));
                            let j = kpre.index_of(t);
                            assert(0 <= j < kpre.len() && kpre[j] == t);
                            assert(models(kept@)[j] == t);
                        } else {
                            assert(t == v0[i as int]);
                            assert(models(kept@)[models(kept@).len() - 1] == t);
                        }
                    }
                }
            } else {
                proof {
                    assert forall|t: TxnModel| models(kept@).contains(t) implies (
                        v0.take(i + 1).contains(t)
                        && !expired_by_policy(t, now_secs, timeout_secs, early_secs)) by {
                        assert(kpre.contains(t));
                        assert(v0.take(i as int).contains(t));
                        let k = v0.take(i as int).index_of(t);
                        assert(0 <= k < i && v0.take(i as int)[k] == t);
                        assert(v0.take(i + 1)[k] == t);
                    }
                    assert forall|t: TxnModel| (v0.take(i + 1).contains(t)
                        && !expired_by_policy(t, now_secs, timeout_secs, early_secs))
                        implies models(kept@).contains(t) by {
                        let k = v0.take(i + 1).index_of(t);
                        assert(0 <= k < i + 1 && v0.take(i + 1)[k] == t);
                        if k < i {
                            assert(v0.take(i as int)[k] == t);
                            assert(v0.take(i as int).contains(t));
                        } else {
                            assert(t == v0[i as int]);
                        }
                    }
                    assert forall|s: u64| sender_count(models(kept@), s)
                        <= sender_count(v0.take(i + 1), s) by {
                        lemma_count_push(v0.take(i as int), v0[i as int], s);
                        assert(v0.take(i as int).push(v0[i as int]) =~= v0.take(i + 1));
                        lemma_count_pos_iff(v0.take(i as int), s);
                    }
                }
            }
            i = i + 1;
        }
        proof {
            assert(v0.take(v0.len() as int) =~= v0);
        }
        let removed = self.txns.len() - kept.len();
        self.txns = kept;
        self.total_bytes = kept_bytes;
        removed
    }

    /// Every record still worth sending past `cursor`, with its position.
    fn collect_eligible(&self, cursor: &crate::cursor::SenderCursor) -> (cands: Vec<TransactionRecord>)
        requires
            self.inv(),
            cursor.inv(),
        ensures
            unique_keys(models(cands@)),
            forall|t: TxnModel| #[trigger] models(cands@).contains(t) ==> self@.contains(t)
                && crate::cursor::eligible(t, cursor@),
            forall|t: TxnModel| #[trigger] self@.contains(t) && crate::cursor::eligible(t, cursor@)
                ==> models(cands@).contains(t),
    {
        let ghost v0 = self@;
        let mut cands: Vec<TransactionRecord> = Vec::new();
        let mut i: usize = 0;
        proof {
            assert(v0.take(0) =~= Seq::<TxnModel>::empty());
        }
        while i < self.txns.len()
            invariant
                i <= self.txns.len(),
                v0 == self@,
                v0.len() == self.txns.len(),
                self.inv(),
                cursor.inv(),
                unique_keys(models(cands@)),
                forall|t: TxnModel| #[trigger] models(cands@).contains(t)
                    ==> v0.take(i as int).contains(t) && crate::cursor::eligible(t, cursor@),
                forall|t: TxnModel| #[trigger] v0.take(i as int).contains(t)
                    ==> !crate::cursor::eligible(t, cursor@) || models(cands@).contains(t),
            decreases self.txns.len() - i,
        {
            let ghost cpre = models(cands@);
            proof {
                assert(v0.take(i + 1).drop_last() =~= v0.take(i as int));
                assert(v0.take(i + 1).last() == v0[i as int]);
                assert forall|t: TxnModel| #[trigger] cpre.contains(t) implies (
                    v0.take(i as int).contains(t) && crate::cursor::eligible(t, cursor@)) by {
                    assert(models(cands@).contains(t));
                }
                assert forall|t: TxnModel| v0.take(i as int).contains(t)
                    && crate::cursor::eligible(t, cursor@) implies #[trigger] cpre.contains(t) by {
                    assert(models(cands@).contains(t));
                }
            }
            let keep = match cursor.get(self.txns[i].sender) {
                None => true,
                Some(m) => self.txns[i].sequence_number > m,
            };
            proof {
                assert(keep == crate::cursor::eligible(v0[i as int], cursor@));
            }
            if keep {
                let copyr = self.txns[i].duplicate();
                let ghost cvecpre = cands@;
                cands.push(copyr);
                proof {
                    lemma_models_push(cvecpre, copyr);
                    assert(!has_key(cpre, v0[i as int].sender, v0[i as int].sequence_number)) by {
                        if has_key(cpre, v0[i as int].sender, v0[i as int].sequence_number) {
                            let j = choose|j: int| 0 <= j < cpre.len()
                                && cpre[j].sender == v0[i as int].sender
                                && cpre[j].sequence_number == v0[i as int].sequence_number;
                            assert(cpre.contains(cpre[j]));
                            assert(v0.take(i as int).contains(cpre[j]));
                            let k = v0.take(i as int).index_of(cpre[j]);
                            assert(0 <= k < i && v0.take(i as int)[k] == cpre[j]);
                            assert(v0[k] == cpre[j]);
                            assert(!(v0[k].sender == v0[i as int].sender
                                && v0[k].sequence_number == v0[i as int].sequence_number));
                        }
                    }
                    lemma_unique_push(cpre, v0[i as int]);
                    assert forall|t: TxnModel| #[trigger] models(cands@).contains(t) implies (
                        v0.take(i + 1).contains(t) && crate::cursor::eligible(t, cursor@)) by {
                        let j = models(cands@).index_of(t);
                        assert(0 <= j < models(cands@).len() && models(cands@)[j] == t);
                        if j < cpre.len() {
                            assert(cpre.contains(t));
                            assert(v0.take(i as int).contains(t));
                            let k = v0.take(i as int).index_of(t);
                            assert(0 <= k < i && v0.take(i as int)[k] == t);
                            assert(v0.take(i + 1)[k] == t);
                        } else {
                            assert(t == v0[i as int]);
                            assert(v0.take(i + 1)[i as int] == t);
                        }
                    }
                    assert forall|t: TxnModel| #[trigger] v0.take(i + 1).contains(t)
                        implies !crate::cursor::eligible(t, cursor@) || models(cands@).contains(t) by {
                        if crate::cursor::eligible(t, cursor@) {
                            let k = v0.take(i + 1).index_of(t);
                            assert(0 <= k < i + 1 && v0.take(i + 1)[k] == t);
                            if k < i {
                                assert(v0.take(i as int)[k] == t);
                                assert(v0.take(i as int).contains(t));
                                assert(cpre.contains(t));
                                let j = cpre.index_of(t);
                                assert(0 <= j < cpre.len() && cpre[j] == t);
                                assert(models(cands@)[j] == t);
                            } else {
                                assert(t == v0[i as int]);
                                assert(models(cands@)[models(cands@).len() - 1] == t);
                            }
                        }
                    }
                }
            } else {
                proof {
                    assert forall|t: TxnModel| #[trigger] models(cands@).contains(t) implies (
                        v0.take(i + 1).contains(t) && crate::cursor::eligible(t, cursor@)) by {
                        assert(cpre.contains(t));
                        assert(v0.take(i as int).contains(t));
                        let k = v0.take(i as int).index_of(t);
                        assert(0 <= k < i && v0.take(i as int)[k] == t);
                        assert(v0.take(i + 1)[k] == t);
                    }
                    assert forall|t: TxnModel| #[trigger] v0.take(i + 1).contains(t)
                        implies !crate::cursor::eligible(t, cursor@) || models(cands@).contains(t) by {
                        if crate::cursor::eligible(t, cursor@) {
                            let k = v0.take(i + 1).index_of(t);
                            assert(0 <= k < i + 1 && v0.take(i + 1)[k] == t);
                            if k < i {
                                assert(v0.take(i as int)[k] == t);
                                assert(v0.take(i as int).contains(t));
                                assert(cpre.contains(t));
                            } else {
                                assert(t == v0[i as int]);
                            }
                        }
                    }
                }
            }
            i = i + 1;
        }
        proof {
            assert(v0.take(v0.len() as int) =~= v0);
        }
        cands
    }

    /// The position of a record that precedes every other in broadcast
    /// order.
    fn best_index(v: &Vec<TransactionRecord>) -> (r: usize)
        requires
            v@.len() > 0,
        ensures
            r < v@.len(),
            forall|k: int| 0 <= k < v@.len() ==> send_order_ge(models(v@)[r as int], #[trigger] models(v@)[k]),
    {
        let mut best: usize = 0;
        let mut j: usize = 1;
        while j < v.len()
            invariant
                1 <= j <= v.len(),
                best < j,
                forall|k: int| 0 <= k < j ==> send_order_ge(models(v@)[best as int], #[trigger] models(v@)[k]),
            decreases v.len() - j,
        {
            let strictly = v[j].priority > v[best].priority
                || (v[j].priority == v[best].priority
                    && v[j].insertion_secs < v[best].insertion_secs);
            if strictly {
                best = j;
            }
            j = j + 1;
        }
        best
    }

    /// Select the next broadcast batch for one peer: records past the
    /// peer's cursor, in broadcast order, truncated to `max_count` entries
    /// and `max_bytes` total payload. A single record larger than
    /// `max_bytes` that heads the backlog is returned alone, never silently
    /// dropped. Any eligible record left out was shut out by one of the
    /// two limits.
    pub fn select_batch(&self, cursor: &crate::cursor::SenderCursor, max_count: usize, max_bytes: u64)
        -> (batch: Vec<TransactionRecord>)
        requires
            self.inv(),
            cursor.inv(),
        ensures
            models(batch@).len() <= max_count,
            unique_keys(models(batch@)),
            forall|k: int| 0 <= k < models(batch@).len() ==> self@.contains(#[trigger] models(batch@)[k])
                && crate::cursor::eligible(models(batch@)[k], cursor@),
            forall|k1: int, k2: int| 0 <= k1 < k2 < models(batch@).len()
                ==> send_order_ge(#[trigger] models(batch@)[k1], #[trigger] models(batch@)[k2]),
            sum_bytes(models(batch@)) <= max_bytes || models(batch@).len() == 1,
            forall|t: TxnModel| self@.contains(t) && crate::cursor::eligible(t, cursor@)
                && !models(batch@).contains(t)
                ==> models(batch@).len() == max_count
                    || sum_bytes(models(batch@)) + t.payload.len() > max_bytes,
            (models(batch@).len() >= 1 <==> (max_count >= 1 && exists|t: TxnModel|
                self@.contains(t) && crate::cursor::eligible(t, cursor@))),
    {
        let ghost v0 = self@;
        let mut remaining = self.collect_eligible(cursor);
        let ghost cands0 = models(remaining@);
        let mut batch: Vec<TransactionRecord> = Vec::new();
        let mut batch_bytes: u64 = 0;
        proof {
            assert(models(batch@) =~= Seq::<TxnModel>::empty());
            assert forall|t: TxnModel| #[trigger] cands0.contains(t) implies (
                v0.contains(t) && crate::cursor::eligible(t, cursor@)) by {
                assert(models(remaining@).contains(t));
            }
            assert forall|t: TxnModel| v0.contains(t) && crate::cursor::eligible(t, cursor@)
                implies #[trigger] cands0.contains(t) by {
                assert(self@.contains(t));
                assert(models(remaining@).contains(t));
            }
        }
        while batch.len() < max_count && remaining.len() > 0
            invariant
                v0 == self@,
                models(batch@).len() <= max_count,
                batch_bytes as int == sum_bytes(models(batch@)),
                batch_bytes <= max_bytes,
                unique_keys(models(batch@)),
                unique_keys(models(remaining@)),
                keys_disjoint(models(batch@), models(remaining@)),
                forall|t: TxnModel| #[trigger] cands0.contains(t) <==> (
                    v0.contains(t) && crate::cursor::eligible(t, cursor@)),
                forall|t: TxnModel| models(remaining@).contains(t) ==> cands0.contains(t),
                models(remaining@).len() <= cands0.len(),
                models(remaining@).len() < cands0.len() ==> models(batch@).len() >= 1,
                forall|k: int| 0 <= k < models(batch@).len() ==> cands0.contains(#[trigger] models(batch@)[k]),
                forall|k1: int, k2: int| 0 <= k1 < k2 < models(batch@).len()
                    ==> send_order_ge(#[trigger] models(batch@)[k1], #[trigger] models(batch@)[k2]),
                forall|k: int, t: TxnModel| #![trigger models(batch@)[k], models(remaining@).contains(t)]
                    0 <= k < models(batch@).len() && models(remaining@).contains(t)
                    ==> send_order_ge(models(batch@)[k], t),
                forall|t: TxnModel| cands0.contains(t) ==> models(batch@).contains(t)
                    || models(remaining@).contains(t)
                    || sum_bytes(models(batch@)) + t.payload.len() > max_bytes,
            decreases remaining.len(),
        {
            let ghost bpre = models(batch@);
            let ghost rpre = models(remaining@);
            let j = Self::best_index(&remaining);
            let ghost picked = rpre[j as int];
            let ghost rvecpre = remaining@;
            let m = remaining.swap_remove(j);
            proof {
                assert(m@ == picked);
                assert(models(remaining@) =~= models(rvecpre).update(j as int, models(rvecpre).last()).drop_last());
                lemma_swap_remove_model(rpre, j as int);
                assert(rpre.contains(picked));
            }
            let m_size = m.payload.len() as u64;
            proof {
                assert(m_size == picked.payload.len());
            }
            if batch.len() == 0 && m_size > max_bytes {
                // an oversized record heads the backlog: send it alone to
                // guarantee forward progress
                let ghost bvecpre = batch@;
                batch.push(m);
                proof {
                    lemma_models_push(bvecpre, m);
                    lemma_sum_push(bpre, picked);
                    assert(models(batch@).len() == 1);
                    assert forall|t: TxnModel| v0.contains(t) && crate::cursor::eligible(t, cursor@)
                        && !models(batch@).contains(t)
                        implies models(batch@).len() == max_count
                            || sum_bytes(models(batch@)) + t.payload.len() > max_bytes by {
                        assert(sum_bytes(models(batch@)) == picked.payload.len());
                        assert(t.payload.len() >= 0);
                    }
                    assert forall|k: int| 0 <= k < models(batch@).len() implies self@.contains(
                        #[trigger] models(batch@)[k])
                        && crate::cursor::eligible(models(batch@)[k], cursor@) by {
                        assert(models(batch@)[k] == picked);
                        assert(cands0.contains(picked));
                        assert(v0.contains(picked));
                        assert(self@.contains(picked));
                    }
                    assert(cands0.contains(picked));
                    assert(self@.contains(picked) && crate::cursor::eligible(picked, cursor@));
                    assert(exists|t: TxnModel| self@.contains(t)
                        && crate::cursor::eligible(t, cursor@));
                }
                return batch;
            }
            if m_size <= max_bytes - batch_bytes {
                let ghost bvecpre = batch@;
                let ghost mghost = m;
                batch_bytes = batch_bytes + m.payload.len() as u64;
                batch.push(m);
                proof {
                    lemma_models_push(bvecpre, mghost);
                    lemma_sum_push(bpre, picked);
                    assert(!has_key(bpre, picked.sender, picked.sequence_number)) by {
                        if has_key(bpre, picked.sender, picked.sequence_number) {
                            let a = choose|a: int| 0 <= a < bpre.len()
                                && bpre[a].sender == picked.sender
                                && bpre[a].sequence_number == picked.sequence_number;
                            let b = rpre.index_of(picked);
                            assert(rpre[b] == picked);
                        }
                    }
                    lemma_unique_push(bpre, picked);
                    assert forall|i2: int, j2: int| 0 <= i2 < models(batch@).len()
                        && 0 <= j2 < models(remaining@).len()
                        implies !(models(batch@)[i2].sender == models(remaining@)[j2].sender
                            && models(batch@)[i2].sequence_number == models(remaining@)[j2].sequence_number) by {
                        assert(models(remaining@).contains(models(remaining@)[j2]));
                        assert(rpre.contains(models(remaining@)[j2]));
                        if i2 < bpre.len() {
                            let t2 = models(remaining@)[j2];
                            let b2 = rpre.index_of(t2);
                            assert(rpre[b2] == t2);
                        } else {
                            assert(models(batch@)[i2] == picked);
                            let t2 = models(remaining@)[j2];
                            if t2.sender == picked.sender && t2.sequence_number == picked.sequence_number {
                                assert(has_key(models(remaining@), picked.sender, picked.sequence_number));
                            }
                        }
                    }
                    assert forall|t: TxnModel| cands0.contains(t) implies models(batch@).contains(t)
                        || models(remaining@).contains(t)
                        || sum_bytes(models(batch@)) + t.payload.len() > max_bytes by {
                        if bpre.contains(t) {
                            let a = bpre.index_of(t);
                            assert(models(batch@)[a] == t);
                        } else if rpre.contains(t) {
                            if t == picked {
                                assert(models(batch@)[models(batch@).len() - 1] == t);
                            }
                        } else {
                            assert(sum_bytes(bpre) + t.payload.len() > max_bytes);
                        }
                    }
                }
            } else {
                proof {
                    if models(batch@).len() == 0 {
                        assert(batch_bytes == 0);
                        assert(false);
                    }
                    assert(sum_bytes(models(batch@)) + picked.payload.len() > max_bytes);
                    assert forall|t: TxnModel| cands0.contains(t) implies models(batch@).contains(t)
                        || models(remaining@).contains(t)
                        || sum_bytes(models(batch@)) + t.payload.len() > max_bytes by {
                        if rpre.contains(t) && t != picked {
                        }
                    }
                }
            }
        }
        proof {
            assert forall|t: TxnModel| self@.contains(t) && crate::cursor::eligible(t, cursor@)
                && !models(batch@).contains(t)
                implies models(batch@).len() == max_count
                    || sum_bytes(models(batch@)) + t.payload.len() > max_bytes by {
                assert(v0.contains(t));
                assert(cands0.contains(t));
                if models(batch@).len() < max_count {
                    assert(models(remaining@).len() == 0);
                    assert(!models(remaining@).contains(t));
                }
            }
            assert forall|k: int| 0 <= k < models(batch@).len() implies self@.contains(
                #[trigger] models(batch@)[k])
                && crate::cursor::eligible(models(batch@)[k], cursor@) by {
                assert(cands0.contains(models(batch@)[k]));
                assert(v0.contains(models(batch@)[k]));
            }
            if max_count >= 1 && exists|t: TxnModel| self@.contains(t)
                && crate::cursor::eligible(t, cursor@) {
                let t = choose|t: TxnModel| self@.contains(t)
                    && crate::cursor::eligible(t, cursor@);
                assert(v0.contains(t));
                assert(cands0.contains(t));
                let j = cands0.index_of(t);
                assert(0 <= j < cands0.len());
                if models(batch@).len() < max_count {
                    assert(models(remaining@).len() == 0);
                }
                assert(models(batch@).len() >= 1);
            }
            if models(batch@).len() >= 1 {
                assert(self@.contains(models(batch@)[0])
                    && crate::cursor::eligible(models(batch@)[0], cursor@));
                assert(exists|t: TxnModel| self@.contains(t)
                    && crate::cursor::eligible(t, cursor@));
            }
        }
        batch
    }

    /// A read-only snapshot for observability: count, byte total, and the
    /// oldest and newest insertion times.
    pub fn snapshot(&self) -> (r: MempoolSnapshot)
        requires
            self.inv(),
        ensures
            r.count == self@.len(),
            r.total_bytes == sum_bytes(self@),
            r.oldest_insertion_secs is Some <==> self@.len() > 0,
            r.newest_insertion_secs is Some <==> self@.len() > 0,
            match r.oldest_insertion_secs {
                Some(o) => (exists|k: int| 0 <= k < self@.len() && (#[trigger] self@[k]).insertion_secs == o)
                    && (forall|k: int| 0 <= k < self@.len() ==> (#[trigger] self@[k]).insertion_secs >= o),
                None => true,
            },
            match r.newest_insertion_secs {
                Some(n) => (exists|k: int| 0 <= k < self@.len() && (#[trigger] self@[k]).insertion_secs == n)
                    && (forall|k: int| 0 <= k < self@.len() ==> (#[trigger] self@[k]).insertion_secs <= n),
                None => true,
            },
    {
        if self.txns.len() == 0 {
            return MempoolSnapshot {
                count: 0,
                total_bytes: self.total_bytes,
                oldest_insertion_secs: None,
                newest_insertion_secs: None,
            };
        }
        let mut oldest = self.txns[0].insertion_secs;
        let mut newest = self.txns[0].insertion_secs;
        proof {
            assert(self@[0].insertion_secs == oldest);
        }
        let mut i: usize = 1;
        while i < self.txns.len()
            invariant
                1 <= i <= self.txns.len(),
                self.txns.len() == self@.len(),
                exists|k: int| 0 <= k < i && (#[trigger] self@[k]).insertion_secs == oldest,
                forall|k: int| 0 <= k < i ==> (#[trigger] self@[k]).insertion_secs >= oldest,
                exists|k: int| 0 <= k < i && (#[trigger] self@[k]).insertion_secs == newest,
                forall|k: int| 0 <= k < i ==> (#[trigger] self@[k]).insertion_secs <= newest,
            decreases self.txns.len() - i,
        {
            let ins = self.txns[i].insertion_secs;
            proof {
                assert(self@[i as int].insertion_secs == ins);
            }
            if ins < oldest {
                oldest = ins;
            }
            if ins > newest {
                newest = ins;
            }
            i = i + 1;
        }
        MempoolSnapshot {
            count: self.txns.len(),
            total_bytes: self.total_bytes,
            oldest_insertion_secs: Some(oldest),
            newest_insertion_secs: Some(newest),
        }
    }
}

/// Observability summary of the pool at one instant.
#[derive(Clone, Copy, Debug, PartialEq, Eq, Structural)]
pub struct MempoolSnapshot {
    pub count: usize,
    pub total_bytes: usize,
    pub oldest_insertion_secs: Option<u64>,
    pub newest_insertion_secs: Option<u64>,
}

/// The bounds that hold of every reachable pool state: however
/// submissions, removals and sweeps arrive, the retained count never
/// exceeds `capacity`, total payload bytes never exceed `capacity_bytes`,
/// and no sender retains more than `capacity_per_user` records.
pub proof fn lemma_store_bounds(s: &MempoolStore)
    requires
        s.inv(),
    ensures
        s@.len() <= s.capacity,
        sum_bytes(s@) <= s.capacity_bytes,
        forall|sender: u64| sender_count(s@, sender) <= s.capacity_per_user as int,
{
}

} // verus!
