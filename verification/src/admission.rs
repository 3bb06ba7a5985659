//! Admission policy: the decision that accepts, rejects or replaces a
//! submitted transaction under the pool's capacity, byte and per-sender
//! quotas, together with its ghost-level model.

use vstd::prelude::*;
use crate::record::TxnModel;

verus! {

/// Why a submission was turned away. Admission errors are verdicts, never
/// fatal: the pool is unchanged when one is returned.
#[derive(Clone, Copy, Debug, PartialEq, Eq, Structural)]
pub enum AdmissionError {
    /// Count or byte capacity would be exceeded and no strictly
    /// lower-priority record could be evicted to make room.
    CapacityExceeded,
    /// The sender holds its full per-sender quota and the new record's
    /// priority does not exceed the sender's lowest.
    QuotaExceeded,
    /// A record with the same (sender, sequence number) is retained with a
    /// priority at least as high.
    DuplicateLowerPriority,
    /// The payload's expiration was already in the past at submission.
    Expired,
}

/// Total payload bytes of the pool.
pub open spec fn sum_bytes(v: Seq<TxnModel>) -> int
    decreases v.len(),
{
    if v.len() == 0 {
        0
    } else {
        sum_bytes(v.drop_last()) + v.last().payload.len()
    }
}

/// How many records `s` holds in the pool.
pub open spec fn sender_count(v: Seq<TxnModel>, s: u64) -> int
    decreases v.len(),
{
    if v.len() == 0 {
        0
    } else {
        sender_count(v.drop_last(), s) + if v.last().sender == s { 1int } else { 0int }
    }
}

/// No two records share a (sender, sequence number) key.
pub open spec fn unique_keys(v: Seq<TxnModel>) -> bool {
    forall|i: int, j: int|
        0 <= i < j < v.len() ==> !(v[i].sender == v[j].sender
            && v[i].sequence_number == v[j].sequence_number)
}

/// Some record carries this key.
pub open spec fn has_key(v: Seq<TxnModel>, sender: u64, seq: u64) -> bool {
    exists|i: int| 0 <= i < v.len() && v[i].sender == sender && v[i].sequence_number == seq
}

/// The index carrying the key; well defined when keys are unique.
pub open spec fn key_index(v: Seq<TxnModel>, sender: u64, seq: u64) -> int {
    choose|i: int| 0 <= i < v.len() && v[i].sender == sender && v[i].sequence_number == seq
}

/// Eviction order: `a` is dropped before `b` when its priority is lower,
/// ties broken by older insertion time.
pub open spec fn evicts_before(a: TxnModel, b: TxnModel) -> bool {
    a.priority < b.priority || (a.priority == b.priority && a.insertion_secs < b.insertion_secs)
}

/// Index of the pool-wide eviction victim: the first record that no other
/// record precedes in eviction order.
pub open spec fn victim_index(v: Seq<TxnModel>) -> int
    decreases v.len(),
{
    if v.len() <= 1 {
        0
    } else {
        let r = victim_index(v.drop_last());
        if evicts_before(v.last(), v[r]) {
            v.len() - 1
        } else {
            r
        }
    }
}

/// Index of `s`'s own eviction victim, or -1 when `s` holds nothing.
pub open spec fn sender_victim_index(v: Seq<TxnModel>, s: u64) -> int
    decreases v.len(),
{
    if v.len() == 0 {
        -1
    } else {
        let r = sender_victim_index(v.drop_last(), s);
        if v.last().sender == s {
            if r == -1 || evicts_before(v.last(), v[r]) {
                v.len() - 1
            } else {
                r
            }
        } else {
            r
        }
    }
}

/// The new record fits beside `v` under both capacity limits.
pub open spec fn fits(v: Seq<TxnModel>, t: TxnModel, capacity: usize, capacity_bytes: usize) -> bool {
    v.len() + 1 <= capacity && sum_bytes(v) + t.payload.len() <= capacity_bytes
}

/// The pool after capacity-checked insertion into `v1`, evicting at most
/// one strictly lower-priority record; `None` when no room can be made.
pub open spec fn capacity_outcome(
    v1: Seq<TxnModel>,
    t: TxnModel,
    capacity: usize,
    capacity_bytes: usize,
) -> Option<Seq<TxnModel>> {
    if fits(v1, t, capacity, capacity_bytes) {
        Some(v1.push(t))
    } else if v1.len() > 0 && v1[victim_index(v1)].priority < t.priority
        && fits(v1.remove(victim_index(v1)), t, capacity, capacity_bytes) {
        Some(v1.remove(victim_index(v1)).push(t))
    } else {
        None
    }
}

/// The verdict and resulting pool of one submission.
pub ghost struct SubmitOutcome {
    pub verdict: Result<(), AdmissionError>,
    pub pool: Seq<TxnModel>,
}

/// The admission decision: `t` must carry its admission stamp already
/// (insertion time set, commit mark cleared).
pub open spec fn submit_outcome(
    v: Seq<TxnModel>,
    t: TxnModel,
    now_secs: u64,
    capacity: usize,
    capacity_bytes: usize,
    capacity_per_user: usize,
) -> SubmitOutcome {
    if t.expiration_secs < now_secs {
        SubmitOutcome { verdict: Err(AdmissionError::Expired), pool: v }
    } else if has_key(v, t.sender, t.sequence_number) {
        let i = key_index(v, t.sender, t.sequence_number);
        if t.priority <= v[i].priority {
            SubmitOutcome { verdict: Err(AdmissionError::DuplicateLowerPriority), pool: v }
        } else if sum_bytes(v) - v[i].payload.len() + t.payload.len() <= capacity_bytes {
            SubmitOutcome { verdict: Ok(()), pool: v.update(i, t) }
        } else {
            SubmitOutcome { verdict: Err(AdmissionError::CapacityExceeded), pool: v }
        }
    } else if sender_count(v, t.sender) >= capacity_per_user {
        let qi = sender_victim_index(v, t.sender);
        if qi == -1 || v[qi].priority >= t.priority {
            SubmitOutcome { verdict: Err(AdmissionError::QuotaExceeded), pool: v }
        } else {
            match capacity_outcome(v.remove(qi), t, capacity, capacity_bytes) {
                Some(pool) => SubmitOutcome { verdict: Ok(()), pool },
                None => SubmitOutcome { verdict: Err(AdmissionError::CapacityExceeded), pool: v },
            }
        }
    } else {
        match capacity_outcome(v, t, capacity, capacity_bytes) {
            Some(pool) => SubmitOutcome { verdict: Ok(()), pool },
            None => SubmitOutcome { verdict: Err(AdmissionError::CapacityExceeded), pool: v },
        }
    }
}

/// Resubmitting a retained (sender, sequence number) with a priority not
/// above the retained one is rejected as a duplicate and leaves the pool
/// exactly as it was.
pub proof fn lemma_duplicate_resubmission_unchanged(
    v: Seq<TxnModel>,
    t: TxnModel,
    now_secs: u64,
    capacity: usize,
    capacity_bytes: usize,
    capacity_per_user: usize,
)
    requires
        t.expiration_secs >= now_secs,
        has_key(v, t.sender, t.sequence_number),
        t.priority <= v[key_index(v, t.sender, t.sequence_number)].priority,
    ensures
        submit_outcome(v, t, now_secs, capacity, capacity_bytes, capacity_per_user).verdict
            == Err::<(), AdmissionError>(AdmissionError::DuplicateLowerPriority),
        submit_outcome(v, t, now_secs, capacity, capacity_bytes, capacity_per_user).pool == v,
{
}

pub proof fn lemma_sum_nonneg(v: Seq<TxnModel>)
    ensures
        sum_bytes(v) >= 0,
    decreases v.len(),
{
    if v.len() > 0 {
        lemma_sum_nonneg(v.drop_last());
    }
}

pub proof fn lemma_sum_push(v: Seq<TxnModel>, t: TxnModel)
    ensures
        sum_bytes(v.push(t)) == sum_bytes(v) + t.payload.len(),
{
    assert(v.push(t).drop_last() =~= v);
}

pub proof fn lemma_count_push(v: Seq<TxnModel>, t: TxnModel, s: u64)
    ensures
        sender_count(v.push(t), s) == sender_count(v, s) + if t.sender == s { 1int } else { 0int },
{
    assert(v.push(t).drop_last() =~= v);
}

pub proof fn lemma_sum_update(v: Seq<TxnModel>, i: int, t: TxnModel)
    requires
        0 <= i < v.len(),
    ensures
        sum_bytes(v.update(i, t)) == sum_bytes(v) - v[i].payload.len() + t.payload.len(),
    decreases v.len(),
{
    let u = v.update(i, t);
    if i == v.len() - 1 {
        assert(u.drop_last() =~= v.drop_last());
        assert(u.last() == t);
    } else {
        assert(u.drop_last() =~= v.drop_last().update(i, t));
        assert(u.last() == v.last());
        lemma_sum_update(v.drop_last(), i, t);
    }
}

pub proof fn lemma_count_update(v: Seq<TxnModel>, i: int, t: TxnModel, s: u64)
    requires
        0 <= i < v.len(),
    ensures
        sender_count(v.update(i, t), s) == sender_count(v, s)
            - (if v[i].sender == s { 1int } else { 0int })
            + (if t.sender == s { 1int } else { 0int }),
    decreases v.len(),
{
    let u = v.update(i, t);
    if i == v.len() - 1 {
        assert(u.drop_last() =~= v.drop_last());
        assert(u.last() == t);
    } else {
        assert(u.drop_last() =~= v.drop_last().update(i, t));
        assert(u.last() == v.last());
        lemma_count_update(v.drop_last(), i, t, s);
    }
}

pub proof fn lemma_sum_remove(v: Seq<TxnModel>, i: int)
    requires
        0 <= i < v.len(),
    ensures
        sum_bytes(v.remove(i)) == sum_bytes(v) - v[i].payload.len(),
    decreases v.len(),
{
    let u = v.remove(i);
    v.remove_ensures(i);
    if i == v.len() - 1 {
        assert(u =~= v.drop_last());
    } else {
        assert(u.drop_last() =~= v.drop_last().remove(i));
        assert(u.last() == v.last());
        lemma_sum_remove(v.drop_last(), i);
    }
}

pub proof fn lemma_count_remove(v: Seq<TxnModel>, i: int, s: u64)
    requires
        0 <= i < v.len(),
    ensures
        sender_count(v.remove(i), s) == sender_count(v, s)
            - (if v[i].sender == s { 1int } else { 0int }),
    decreases v.len(),
{
    let u = v.remove(i);
    v.remove_ensures(i);
    if i == v.len() - 1 {
        assert(u =~= v.drop_last());
    } else {
        assert(u.drop_last() =~= v.drop_last().remove(i));
        assert(u.last() == v.last());
        lemma_count_remove(v.drop_last(), i, s);
    }
}

/// A prefix's bytes are no more than the whole pool's.
pub proof fn lemma_sum_take_le(v: Seq<TxnModel>, j: int)
    requires
        0 <= j <= v.len(),
    ensures
        sum_bytes(v.take(j)) <= sum_bytes(v),
    decreases v.len() - j,
{
    if j == v.len() {
        assert(v.take(j) =~= v);
    } else {
        assert(v.take(j + 1).drop_last() =~= v.take(j));
        assert(v.take(j + 1).last() == v[j]);
        lemma_sum_take_le(v, j + 1);
    }
}

/// Each record's payload is no larger than the pool total.
pub proof fn lemma_sum_element_le(v: Seq<TxnModel>, i: int)
    requires
        0 <= i < v.len(),
    ensures
        v[i].payload.len() <= sum_bytes(v),
    decreases v.len(),
{
    if i == v.len() - 1 {
        lemma_sum_nonneg(v.drop_last());
    } else {
        lemma_sum_element_le(v.drop_last(), i);
    }
}

/// A sender holds a record exactly when its count is positive.
pub proof fn lemma_count_pos_iff(v: Seq<TxnModel>, s: u64)
    ensures
        sender_count(v, s) > 0 <==> exists|j: int| 0 <= j < v.len() && v[j].sender == s,
        sender_count(v, s) >= 0,
    decreases v.len(),
{
    if v.len() > 0 {
        lemma_count_pos_iff(v.drop_last(), s);
        if v.last().sender == s {
            assert(v[v.len() - 1].sender == s);
        } else {
            if sender_count(v, s) > 0 {
                let j = choose|j: int| 0 <= j < v.drop_last().len() && v.drop_last()[j].sender == s;
                assert(v[j].sender == s);
            }
            if exists|j: int| 0 <= j < v.len() && v[j].sender == s {
                let j = choose|j: int| 0 <= j < v.len() && v[j].sender == s;
                assert(j < v.len() - 1);
                assert(v.drop_last()[j].sender == s);
            }
        }
    }
}

/// Appending a record with a fresh key keeps keys unique.
pub proof fn lemma_unique_push(v: Seq<TxnModel>, t: TxnModel)
    requires
        unique_keys(v),
        !has_key(v, t.sender, t.sequence_number),
    ensures
        unique_keys(v.push(t)),
{
    let u = v.push(t);
    assert forall|a: int, b: int| 0 <= a < b < u.len() implies !(u[a].sender == u[b].sender
        && u[a].sequence_number == u[b].sequence_number) by {
        if b == u.len() - 1 {
            assert(u[a] == v[a]);
            if u[a].sender == t.sender && u[a].sequence_number == t.sequence_number {
                assert(has_key(v, t.sender, t.sequence_number));
            }
        } else {
            assert(u[a] == v[a]);
            assert(u[b] == v[b]);
        }
    }
}

/// The pool-wide victim exists and nothing precedes it in eviction order.
pub proof fn lemma_victim_index_props(v: Seq<TxnModel>)
    requires
        v.len() > 0,
    ensures
        0 <= victim_index(v) < v.len(),
        forall|j: int| 0 <= j < v.len() ==> !evicts_before(#[trigger] v[j], v[victim_index(v)]),
    decreases v.len(),
{
    if v.len() > 1 {
        lemma_victim_index_props(v.drop_last());
        let r = victim_index(v.drop_last());
        assert forall|j: int| 0 <= j < v.len() implies !evicts_before(#[trigger] v[j], v[victim_index(v)]) by {
            if j < v.len() - 1 {
                assert(v.drop_last()[j] == v[j]);
                assert(v.drop_last()[r] == v[r]);
                assert(!evicts_before(v.drop_last()[j], v.drop_last()[r]));
            }
        }
    }
}

/// The sender's victim exists exactly when the sender holds a record, it is
/// the sender's, and no record of the sender precedes it in eviction order.
pub proof fn lemma_sender_victim_props(v: Seq<TxnModel>, s: u64)
    ensures
        sender_victim_index(v, s) == -1 <==> (forall|j: int| 0 <= j < v.len() ==> v[j].sender != s),
        sender_victim_index(v, s) != -1 ==> 0 <= sender_victim_index(v, s) < v.len()
            && v[sender_victim_index(v, s)].sender == s
            && (forall|j: int| 0 <= j < v.len() && (#[trigger] v[j]).sender == s
                ==> !evicts_before(v[j], v[sender_victim_index(v, s)])),
    decreases v.len(),
{
    if v.len() > 0 {
        lemma_sender_victim_props(v.drop_last(), s);
        let r = sender_victim_index(v.drop_last(), s);
        let q = sender_victim_index(v, s);
        assert forall|j: int| 0 <= j < v.drop_last().len() implies v.drop_last()[j] == v[j] by {}
        if q != -1 {
            assert forall|j: int| 0 <= j < v.len() && (#[trigger] v[j]).sender == s
                implies !evicts_before(v[j], v[q]) by {
                if j < v.len() - 1 {
                    assert(v.drop_last()[j].sender == s);
                    if r != -1 {
                        assert(!evicts_before(v.drop_last()[j], v.drop_last()[r]));
                    }
                }
            }
        }
    }
}

} // verus!
