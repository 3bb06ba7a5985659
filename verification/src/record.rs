//! The data model: one retained transaction and its ghost-level image.

use vstd::prelude::*;

verus! {

/// Where a transaction entered the pool: submitted on this node, or received
/// in a broadcast from the given peer.
#[derive(Clone, Copy, Debug, PartialEq, Eq, Structural)]
pub enum TxnOrigin {
    Local,
    Peer(u64),
}

/// One transaction retained by the pool.
///
/// Records are unique by `(sender, sequence_number)`. The payload is carried
/// opaquely: the pool decides on priority, size and timestamps alone and
/// never reads payload bytes.
#[derive(Debug)]
pub struct TransactionRecord {
    pub sender: u64,
    pub sequence_number: u64,
    /// Eviction and broadcast ordering key (for instance a gas price).
    pub priority: u64,
    pub payload: Vec<u8>,
    /// When the submitter declared the transaction stale, in seconds.
    pub expiration_secs: u64,
    /// Set by the store on admission, in seconds.
    pub insertion_secs: u64,
    pub origin: TxnOrigin,
    /// Set when the consensus layer reports the transaction committed.
    pub committed_secs: Option<u64>,
}

/// The mathematical image of a record: the same fields with the payload as a
/// sequence of bytes.
pub ghost struct TxnModel {
    pub sender: u64,
    pub sequence_number: u64,
    pub priority: u64,
    pub payload: Seq<u8>,
    pub expiration_secs: u64,
    pub insertion_secs: u64,
    pub origin: TxnOrigin,
    pub committed_secs: Option<u64>,
}

impl View for TransactionRecord {
    type V = TxnModel;

    open spec fn view(&self) -> TxnModel {
        TxnModel {
            sender: self.sender,
            sequence_number: self.sequence_number,
            priority: self.priority,
            payload: self.payload@,
            expiration_secs: self.expiration_secs,
            insertion_secs: self.insertion_secs,
            origin: self.origin,
            committed_secs: self.committed_secs,
        }
    }
}

impl TransactionRecord {
    /// A fresh record as a submitter builds it; the store fills the
    /// bookkeeping fields on admission.
    pub fn new(
        sender: u64,
        sequence_number: u64,
        priority: u64,
        payload: Vec<u8>,
        expiration_secs: u64,
        origin: TxnOrigin,
    ) -> (r: TransactionRecord)
        ensures
            r@ == (TxnModel {
                sender,
                sequence_number,
                priority,
                payload: payload@,
                expiration_secs,
                insertion_secs: 0,
                origin,
                committed_secs: None,
            }),
    {
        TransactionRecord {
            sender,
            sequence_number,
            priority,
            payload,
            expiration_secs,
            insertion_secs: 0,
            origin,
            committed_secs: None,
        }
    }

    /// A copy whose image equals this record's image.
    pub fn duplicate(&self) -> (r: TransactionRecord)
        ensures
            r@ == self@,
    {
        let payload = clone_bytes(&self.payload);
        TransactionRecord {
            sender: self.sender,
            sequence_number: self.sequence_number,
            priority: self.priority,
            payload,
            expiration_secs: self.expiration_secs,
            insertion_secs: self.insertion_secs,
            origin: self.origin,
            committed_secs: self.committed_secs,
        }
    }
}

/// Byte-for-byte copy of a payload.
fn clone_bytes(v: &Vec<u8>) -> (r: Vec<u8>)
    ensures
        r@ == v@,
{
    let mut out: Vec<u8> = Vec::new();
    let mut i: usize = 0;
    while i < v.len()
        invariant
            i <= v.len(),
            out@ == v@.subrange(0, i as int),
        decreases v.len() - i,
    {
        out.push(v[i]);
        assert(out@ =~= v@.subrange(0, i + 1 as int));
        i = i + 1;
    }
    assert(out@ =~= v@);
    out
}

/// `t` may be reaped at `now_secs`: its expiration has elapsed by at least
/// `timeout_secs`, or it is committed and the grace window `early_secs`
/// has passed.
pub open spec fn expired_by_policy(
    t: TxnModel,
    now_secs: u64,
    timeout_secs: u64,
    early_secs: u64,
) -> bool {
    match t.committed_secs {
        Some(c) => now_secs >= c + early_secs,
        None => now_secs >= t.expiration_secs + timeout_secs,
    }
}

/// The image of `t` once the consensus layer reports it committed at
/// `now_secs`.
pub open spec fn with_commit(t: TxnModel, now_secs: u64) -> TxnModel {
    TxnModel { committed_secs: Some(now_secs), ..t }
}

/// The image of a submitted record once the store stamps it at admission.
pub open spec fn admitted_model(t: TxnModel, now_secs: u64) -> TxnModel {
    TxnModel { insertion_secs: now_secs, committed_secs: None, ..t }
}

} // verus!
