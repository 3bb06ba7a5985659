//! Per-sender broadcast boundary: the highest sequence number already sent
//! to a peer, used to avoid re-sending and rolled back on ack timeout.

use vstd::prelude::*;
use crate::record::TxnModel;

verus! {

/// One sender's boundary.
#[derive(Clone, Copy, Debug, PartialEq, Eq, Structural)]
pub struct CursorEntry {
    pub sender: u64,
    pub max_seq: u64,
}

/// The boundary value recorded for `sender`, if any. Well defined whenever
/// the entries hold each sender at most once.
pub open spec fn cursor_val(entries: Seq<CursorEntry>, sender: u64) -> Option<u64> {
    if exists|j: int| 0 <= j < entries.len() && entries[j].sender == sender {
        Some(entries[choose|j: int| 0 <= j < entries.len() && entries[j].sender == sender].max_seq)
    } else {
        None
    }
}

/// Two cursors agree on every sender.
pub open spec fn cursor_eq(a: Seq<CursorEntry>, b: Seq<CursorEntry>) -> bool {
    forall|s: u64| cursor_val(a, s) == cursor_val(b, s)
}

/// A record is still worth sending past this cursor: its sender has no
/// boundary yet, or its sequence number lies beyond the boundary.
pub open spec fn eligible(t: TxnModel, entries: Seq<CursorEntry>) -> bool {
    match cursor_val(entries, t.sender) {
        None => true,
        Some(m) => t.sequence_number > m,
    }
}

/// Per-sender "max sequence already sent" map for one peer.
#[derive(Debug)]
pub struct SenderCursor {
    pub entries: Vec<CursorEntry>,
}

impl View for SenderCursor {
    type V = Seq<CursorEntry>;

    open spec fn view(&self) -> Seq<CursorEntry> {
        self.entries@
    }
}

impl SenderCursor {
    /// Each sender appears at most once.
    pub open spec fn inv(&self) -> bool {
        forall|i: int, j: int|
            0 <= i < j < self@.len() ==> self@[i].sender != self@[j].sender
    }

    /// An empty boundary: everything is eligible.
    pub fn new() -> (r: SenderCursor)
        ensures
            r.inv(),
            forall|s: u64| cursor_val(r@, s) == None::<u64>,
    {
        SenderCursor { entries: Vec::new() }
    }

    /// The boundary recorded for `sender`.
    pub fn get(&self, sender: u64) -> (r: Option<u64>)
        requires
            self.inv(),
        ensures
            r == cursor_val(self@, sender),
    {
        let mut i: usize = 0;
        while i < self.entries.len()
            invariant
                i <= self.entries.len(),
                forall|j: int| 0 <= j < i ==> self.entries@[j].sender != sender,
                self.inv(),
            decreases self.entries.len() - i,
        {
            if self.entries[i].sender == sender {
                proof {
                    lemma_cursor_val_at(self.entries@, i as int);
                }
                return Some(self.entries[i].max_seq);
            }
            i = i + 1;
        }
        None
    }

    /// Raise `sender`'s boundary to at least `seq`; other senders keep
    /// their boundary.
    pub fn advance(&mut self, sender: u64, seq: u64)
        requires
            old(self).inv(),
        ensures
            final(self).inv(),
            cursor_val(final(self)@, sender) == Some(advanced_val(cursor_val(old(self)@, sender), seq)),
            forall|s: u64| s != sender ==> cursor_val(final(self)@, s) == cursor_val(old(self)@, s),
    {
        let ghost pre = self.entries@;
        let mut i: usize = 0;
        while i < self.entries.len()
            invariant
                i <= self.entries.len(),
                self.entries@ == pre,
                pre == old(self)@,
                forall|j: int| 0 <= j < i ==> pre[j].sender != sender,
                forall|a: int, b: int| 0 <= a < b < pre.len() ==> pre[a].sender != pre[b].sender,
            decreases self.entries.len() - i,
        {
            if self.entries[i].sender == sender {
                let cur = self.entries[i].max_seq;
                let raised = if seq > cur { seq } else { cur };
                proof {
                    lemma_cursor_val_at(pre, i as int);
                }
                self.entries.set(i, CursorEntry { sender, max_seq: raised });
                proof {
                    let post = self.entries@;
                    assert(post == pre.update(i as int, CursorEntry { sender, max_seq: raised }));
                    assert forall|a: int, b: int| 0 <= a < b < post.len() implies post[a].sender != post[b].sender by {
                        assert(post[a].sender == pre[a].sender);
                        assert(post[b].sender == pre[b].sender);
                    }
                    assert forall|s: u64| s != sender implies cursor_val(post, s) == cursor_val(pre, s) by {
                        lemma_cursor_val_update_other(pre, i as int, CursorEntry { sender, max_seq: raised }, s);
                    }
                    lemma_cursor_val_at(post, i as int);
                }
                return;
            }
            i = i + 1;
        }
        self.entries.push(CursorEntry { sender, max_seq: seq });
        proof {
            let post = self.entries@;
            assert forall|s: u64| s != sender implies cursor_val(post, s) == cursor_val(pre, s) by {
                lemma_cursor_val_push_other(pre, CursorEntry { sender, max_seq: seq }, s);
            }
            lemma_cursor_val_at(post, post.len() - 1);
            assert(cursor_val(pre, sender) == None::<u64>);
        }
    }

    /// Become a copy of `other`: every boundary equal.
    pub fn assign(&mut self, other: &SenderCursor)
        ensures
            final(self)@ == other@,
            other.inv() ==> final(self).inv(),
    {
        let mut out: Vec<CursorEntry> = Vec::new();
        let mut i: usize = 0;
        while i < other.entries.len()
            invariant
                i <= other.entries.len(),
                out@ == other.entries@.subrange(0, i as int),
            decreases other.entries.len() - i,
        {
            out.push(other.entries[i]);
            assert(out@ =~= other.entries@.subrange(0, i + 1 as int));
            i = i + 1;
        }
        assert(out@ =~= other.entries@);
        self.entries = out;
        proof {
            assert(self@ == other@);
            assert(other.inv() ==> self.inv());
        }
    }
}

/// `a` covers at least what `b` covers.
pub open spec fn ge_opt(a: Option<u64>, b: Option<u64>) -> bool {
    match b {
        None => true,
        Some(x) => match a {
            Some(y) => y >= x,
            None => false,
        },
    }
}

/// Cursors that agree on every sender admit exactly the same records:
/// after an ack timeout rolls the optimistic boundary back to the
/// confirmed one, the very transactions of the failed attempt are
/// eligible again.
pub proof fn lemma_equal_cursors_same_eligibility(c1: Seq<CursorEntry>, c2: Seq<CursorEntry>)
    requires
        cursor_eq(c1, c2),
    ensures
        forall|t: TxnModel| eligible(t, c1) == eligible(t, c2),
{
}

/// The boundary after raising `prev` to cover `seq`.
pub open spec fn advanced_val(prev: Option<u64>, seq: u64) -> u64 {
    match prev {
        None => seq,
        Some(m) => if seq > m { seq } else { m },
    }
}

/// Updating an entry leaves every other sender's boundary alone, provided
/// neither the old nor the new entry belongs to that sender.
proof fn lemma_cursor_val_update_other(entries: Seq<CursorEntry>, i: int, e: CursorEntry, s: u64)
    requires
        0 <= i < entries.len(),
        entries[i].sender != s,
        e.sender != s,
        forall|a: int, b: int| 0 <= a < b < entries.len() ==> entries[a].sender != entries[b].sender,
    ensures
        cursor_val(entries.update(i, e), s) == cursor_val(entries, s),
{
    let post = entries.update(i, e);
    if exists|j: int| 0 <= j < entries.len() && entries[j].sender == s {
        let j = choose|j: int| 0 <= j < entries.len() && entries[j].sender == s;
        assert(j != i);
        assert(post[j].sender == s);
        let k = choose|k: int| 0 <= k < post.len() && post[k].sender == s;
        assert(k != i);
        assert(entries[k].sender == s);
        if j != k {
            if j < k {
                assert(entries[j].sender != entries[k].sender);
            } else {
                assert(entries[k].sender != entries[j].sender);
            }
        }
        assert(post[k].max_seq == entries[j].max_seq);
    } else {
        assert forall|j: int| 0 <= j < post.len() implies post[j].sender != s by {
            assert(entries[j].sender != s);
        }
    }
}

/// Appending an entry leaves every other sender's boundary alone.
proof fn lemma_cursor_val_push_other(entries: Seq<CursorEntry>, e: CursorEntry, s: u64)
    requires
        e.sender != s,
        forall|a: int, b: int| 0 <= a < b < entries.len() ==> entries[a].sender != entries[b].sender,
    ensures
        cursor_val(entries.push(e), s) == cursor_val(entries, s),
{
    let post = entries.push(e);
    if exists|j: int| 0 <= j < entries.len() && entries[j].sender == s {
        let j = choose|j: int| 0 <= j < entries.len() && entries[j].sender == s;
        assert(post[j].sender == s);
        let k = choose|k: int| 0 <= k < post.len() && post[k].sender == s;
        assert(k < entries.len());
        assert(entries[k].sender == s);
        if j != k {
            if j < k {
                assert(entries[j].sender != entries[k].sender);
            } else {
                assert(entries[k].sender != entries[j].sender);
            }
        }
        assert(post[k].max_seq == entries[j].max_seq);
    } else {
        assert forall|j: int| 0 <= j < post.len() implies post[j].sender != s by {
            if j < entries.len() {
                assert(entries[j].sender != s);
            }
        }
    }
}

/// In a cursor whose senders are unique, the boundary of the sender at
/// index `i` is the entry at index `i`.
proof fn lemma_cursor_val_at(entries: Seq<CursorEntry>, i: int)
    requires
        0 <= i < entries.len(),
        forall|a: int, b: int| 0 <= a < b < entries.len() ==> entries[a].sender != entries[b].sender,
    ensures
        cursor_val(entries, entries[i].sender) == Some(entries[i].max_seq),
{
    let s = entries[i].sender;
    assert(exists|j: int| 0 <= j < entries.len() && entries[j].sender == s);
    let k = choose|k: int| 0 <= k < entries.len() && entries[k].sender == s;
    if k != i {
        if k < i {
            assert(entries[k].sender != entries[i].sender);
        } else {
            assert(entries[i].sender != entries[k].sender);
        }
    }
}

} // verus!
