//! The pending ledger: the ordered record of outstanding requests.
//!
//! Entries are appended only at the tail, under monotonically assigned
//! correlation ids, so the ledger is always strictly ascending by id and a
//! reply can be matched by ordered (binary) search instead of a general
//! associative structure.

use vstd::prelude::*;

verus! {

/// One outstanding request: its correlation id and the token that stands
/// for the caller's reply channel.
#[derive(Clone, Copy, Debug, PartialEq, Eq, Structural)]
pub struct PendingCommand {
    pub id: u64,
    pub token: u64,
}

/// The correlation ids of a ledger, in ledger order.
pub open spec fn ids_of(s: Seq<PendingCommand>) -> Seq<u64> {
    s.map_values(|pc: PendingCommand| pc.id)
}

/// The reply tokens of a ledger, in ledger order.
pub open spec fn tokens_of(s: Seq<PendingCommand>) -> Seq<u64> {
    s.map_values(|pc: PendingCommand| pc.token)
}

/// Strictly ascending by correlation id.
pub open spec fn ids_sorted(s: Seq<PendingCommand>) -> bool {
    forall|i: int, j: int| 0 <= i < j < s.len() ==> s[i].id < s[j].id
}

/// Whether some entry carries the given correlation id.
pub open spec fn has_id(s: Seq<PendingCommand>, id: u64) -> bool {
    exists|i: int| 0 <= i < s.len() && s[i].id == id
}

/// The position of the entry carrying the given id (unique when the ledger
/// is strictly sorted).
pub open spec fn idx_of(s: Seq<PendingCommand>, id: u64) -> int {
    choose|i: int| 0 <= i < s.len() && s[i].id == id
}

/// In a strictly sorted ledger all correlation ids are pairwise distinct,
/// so at most one entry can match a reply.
pub proof fn lemma_sorted_ids_unique(s: Seq<PendingCommand>)
    requires
        ids_sorted(s),
    ensures
        forall|i: int, j: int|
            0 <= i < s.len() && 0 <= j < s.len() && i != j ==> s[i].id != s[j].id,
{
    assert forall|i: int, j: int|
        0 <= i < s.len() && 0 <= j < s.len() && i != j implies s[i].id != s[j].id by {
        if i < j {
            assert(s[i].id < s[j].id);
        } else {
            assert(s[j].id < s[i].id);
        }
    }
}

/// The ordered record of outstanding requests, strictly ascending by
/// correlation id.
pub struct PendingLedger {
    entries: Vec<PendingCommand>,
}

impl View for PendingLedger {
    type V = Seq<PendingCommand>;

    closed spec fn view(&self) -> Seq<PendingCommand> {
        self.entries@
    }
}

impl PendingLedger {
    /// Strictly ascending by id: the ledger's invariant.
    pub open spec fn wf(&self) -> bool {
        ids_sorted(self@)
    }

    pub fn new() -> (r: Self)
        ensures
            r@ == Seq::<PendingCommand>::empty(),
            r.wf(),
    {
        PendingLedger { entries: Vec::new() }
    }

    pub fn len(&self) -> (n: usize)
        ensures
            n == self@.len(),
    {
        self.entries.len()
    }

    /// Append one entry at the tail. The caller must bring an id above every
    /// id already recorded, which keeps the ledger sorted; the actor does so
    /// by assigning ids from a monotonically increasing counter.
    pub fn push_tail(&mut self, cmd: PendingCommand)
        requires
            old(self).wf(),
            forall|i: int| 0 <= i < old(self)@.len() ==> old(self)@[i].id < cmd.id,
        ensures
            final(self)@ == old(self)@.push(cmd),
            final(self).wf(),
    {
        self.entries.push(cmd);
    }

    /// Match a reply: find the entry with this correlation id by binary
    /// search, remove it, and hand its token out. A ledger that holds no
    /// such id is left unchanged.
    pub fn take(&mut self, id: u64) -> (r: Option<u64>)
        requires
            old(self).wf(),
        ensures
            final(self).wf(),
            has_id(old(self)@, id) ==> r == Some(old(self)@[idx_of(old(self)@, id)].token)
                && final(self)@ == old(self)@.remove(idx_of(old(self)@, id)),
            !has_id(old(self)@, id) ==> r == None::<u64> && final(self)@ == old(self)@,
    {
        let ghost s = self.entries@;
        let mut lo: usize = 0;
        let mut hi: usize = self.entries.len();
        while lo < hi
            invariant
                lo <= hi <= s.len(),
                s == self.entries@,
                s == old(self)@,
                ids_sorted(s),
                forall|k: int| 0 <= k < lo ==> s[k].id < id,
                forall|k: int| hi <= k < s.len() ==> s[k].id > id,
            decreases hi - lo,
        {
            let mid = lo + (hi - lo) / 2;
            let mid_id = self.entries[mid].id;
            if mid_id == id {
                proof {
                    assert(s[mid as int].id == id);
                    assert(has_id(s, id));
                    lemma_sorted_ids_unique(s);
                    assert(idx_of(s, id) == mid as int);
                    assert forall|i: int, j: int|
                        0 <= i < j < s.remove(mid as int).len() implies s.remove(
                        mid as int,
                    )[i].id < s.remove(mid as int)[j].id by {
                        if j < mid {
                            assert(s[i].id < s[j].id);
                        } else if i >= mid {
                            assert(s[i + 1].id < s[j + 1].id);
                        } else {
                            assert(s[i].id < s[j + 1].id);
                        }
                    }
                }
                let pc = self.entries.remove(mid);
                return Some(pc.token);
            } else if mid_id < id {
                lo = mid + 1;
            } else {
                hi = mid;
            }
        }
        proof {
            assert forall|i: int| 0 <= i < s.len() implies s[i].id != id by {
                if i < lo as int {
                    assert(s[i].id < id);
                } else {
                    assert(s[i].id > id);
                }
            }
            assert(!has_id(s, id));
        }
        None
    }

    /// Empty the ledger and hand every recorded token out, in ledger order.
    /// This is the single failure broadcast a terminating actor performs.
    pub fn drain(&mut self) -> (r: Vec<u64>)
        ensures
            r@ == tokens_of(old(self)@),
            final(self)@ == Seq::<PendingCommand>::empty(),
            final(self).wf(),
    {
        let mut out: Vec<u64> = Vec::new();
        let n = self.entries.len();
        let mut i: usize = 0;
        while i < n
            invariant
                i <= n == self.entries@.len(),
                out@.len() == i,
                forall|k: int| 0 <= k < i ==> out@[k] == self.entries@[k].token,
            decreases n - i,
        {
            out.push(self.entries[i].token);
            i += 1;
        }
        self.entries.clear();
        proof {
            assert(out@ =~= tokens_of(old(self)@));
        }
        out
    }
}

} // verus!
