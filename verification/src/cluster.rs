//! A deterministic model of a replicated block device: a leader proposes
//! entries, which commit only when a quorum of distinct reachable replicas
//! validates them, and then take effect on exactly those replicas.

use std::collections::BTreeMap;
use vstd::prelude::*;
use crate::block::{
    flush_entry_view, write_entry_view, BlockOpView, LogEntry, LogEntryView, LogIndex, NodeId, RaftBlockError,
    Term,
};
use crate::replica::{fresh_replica, geometry_error, lemma_applied_grows, overwrite, replica_view_wf, BlockSnapshot, Replica, ReplicaView};

verus! {

broadcast use {vstd::std_specs::btree::group_btree_axioms, vstd::laws_cmp::group_laws_cmp};

/// Every element is smaller than the next.
pub open spec fn strictly_increasing(s: Seq<u64>) -> bool {
    forall|i: int, j: int| 0 <= i < j < s.len() ==> s[i] < s[j]
}

/// The distinct values of `ids`, in increasing order.
pub fn sorted_unique(ids: &[u64]) -> (v: Vec<u64>)
    ensures
        strictly_increasing(v@),
        v@.to_set() == ids@.to_set(),
        v@.len() == ids@.to_set().len(),
{
    let mut v: Vec<u64> = Vec::new();
    let mut k: usize = 0;
    while k < ids.len()
        invariant
            0 <= k <= ids@.len(),
            strictly_increasing(v@),
            v@.to_set() == ids@.subrange(0, k as int).to_set(),
        decreases ids@.len() - k,
    {
        let x = ids[k];
        let mut p: usize = 0;
        while p < v.len() && v[p] < x
            invariant
                0 <= p <= v@.len(),
                forall|j: int| 0 <= j < p ==> v@[j] < x,
            decreases v@.len() - p,
        {
            p = p + 1;
        }
        let ghost before = v@;
        proof {
            assert(ids@.subrange(0, k + 1) =~= ids@.subrange(0, k as int) + seq![x]);
            Seq::lemma_to_set_insert_commutes(ids@.subrange(0, k as int), x);
            assert(ids@.subrange(0, k + 1).to_set() =~= ids@.subrange(0, k as int).to_set().insert(x));
        }
        if p < v.len() && v[p] == x {
            assert(before.to_set().contains(x));
            assert(before.to_set().insert(x) =~= before.to_set());
        } else {
            v.insert(p, x);
            assert(v@.to_set() =~= before.to_set().insert(x)) by {
                assert forall|a: u64| v@.to_set().contains(a) implies before.to_set().insert(x).contains(a) by {
                    let i = choose|i: int| 0 <= i < v@.len() && v@[i] == a;
                    if i < p {
                        assert(before[i] == a);
                    } else if i > p {
                        assert(before[i - 1] == a);
                    }
                }
                assert forall|a: u64| before.to_set().insert(x).contains(a) implies v@.to_set().contains(a) by {
                    if a == x {
                        assert(v@[p as int] == x);
                    } else {
                        let i = choose|i: int| 0 <= i < before.len() && before[i] == a;
                        if i < p {
                            assert(v@[i] == a);
                        } else {
                            assert(v@[i + 1] == a);
                        }
                    }
                }
            }
            assert forall|i: int, j: int| 0 <= i < j < v@.len() implies v@[i] < v@[j] by {
                if j < p {
                } else if j == p {
                } else if i < p {
                    assert(v@[j] == before[j - 1]);
                } else if i == p {
                    assert(v@[j] == before[j - 1]);
                    assert(before[p as int] >= x);
                    if j - 1 > p {
                        assert(before[p as int] < before[j - 1]);
                    }
                } else {
                }
            }
        }
        k = k + 1;
    }
    assert(ids@.subrange(0, ids@.len() as int) =~= ids@);
    proof {
        assert(v@.no_duplicates()) by {
            assert forall|i: int, j: int| 0 <= i < v@.len() && 0 <= j < v@.len() && i != j implies v@[i] != v@[j] by {
                if i < j {
                } else {
                }
            }
        }
        v@.unique_seq_to_set();
    }
    v
}

/// The least element of a set of ids.
pub open spec fn least(s: Set<u64>) -> u64 {
    choose|m: u64| s.contains(m) && forall|x: u64| s.contains(x) ==> m <= x
}


/// A member that is no larger than every member is the least one.
pub proof fn lemma_least_is(s: Set<u64>, m: u64)
    requires
        s.contains(m),
        forall|x: u64| s.contains(x) ==> m <= x,
    ensures
        least(s) == m,
{
    let l = least(s);
    assert(s.contains(l) && forall|x: u64| s.contains(x) ==> l <= x);
}

/// A finite nonempty set of ids has a least member.
pub proof fn lemma_least_exists(s: Set<u64>)
    requires
        s.finite(),
        s.len() > 0,
    ensures
        s.contains(least(s)),
        forall|x: u64| s.contains(x) ==> least(s) <= x,
    decreases s.len(),
{
    let x = s.choose();
    assert(s.contains(x));
    let rest = s.remove(x);
    if rest.len() == 0 {
        assert forall|y: u64| s.contains(y) implies x <= y by {
            if y != x {
                assert(rest.contains(y));
            }
        }
        lemma_least_is(s, x);
    } else {
        lemma_least_exists(rest);
        let m = least(rest);
        let w = if m <= x { m } else { x };
        assert forall|y: u64| s.contains(y) implies w <= y by {
            if y != x {
                assert(rest.contains(y));
            }
        }
        lemma_least_is(s, w);
    }
}

/// The first member of an increasing sequence that lies in `s` is the least member of `s`,
/// when `s` holds only members of the sequence.
pub proof fn lemma_first_in(v: Seq<u64>, s: Set<u64>, i: int)
    requires
        strictly_increasing(v),
        0 <= i < v.len(),
        forall|x: u64| s.contains(x) ==> v.contains(x),
        s.contains(v[i]),
        forall|j: int| 0 <= j < i ==> !#[trigger] s.contains(v[j]),
    ensures
        least(s) == v[i],
{
    assert forall|x: u64| s.contains(x) implies v[i] <= x by {
        let k = choose|k: int| 0 <= k < v.len() && v[k] == x;
        if k < i {
            assert(!s.contains(v[k]));
        } else if k > i {
            assert(v[i] < v[k]);
        }
    }
    lemma_least_is(s, v[i]);
}

/// In a strictly increasing sequence, the members below `v[i]` are exactly the first `i`.
pub proof fn lemma_prefix_below(v: Seq<u64>, i: int, id: u64)
    requires
        strictly_increasing(v),
        0 <= i < v.len(),
    ensures
        (v.contains(id) && id < v[i]) <==> v.subrange(0, i).contains(id),
        (v.contains(id) && id <= v[i]) <==> v.subrange(0, i + 1).contains(id),
{
    if v.contains(id) && id < v[i] {
        let k = choose|k: int| 0 <= k < v.len() && v[k] == id;
        if k >= i {
            if k > i {
                assert(v[i] < v[k]);
            }
        }
        assert(v.subrange(0, i)[k] == id);
    }
    if v.subrange(0, i).contains(id) {
        let w = v.subrange(0, i);
        let k = choose|k: int| 0 <= k < w.len() && w[k] == id;
        assert(v[k] == id);
    }
    if v.contains(id) && id <= v[i] {
        let k = choose|k: int| 0 <= k < v.len() && v[k] == id;
        if k > i {
            assert(v[i] < v[k]);
        }
        assert(v.subrange(0, i + 1)[k] == id);
    }
    if v.subrange(0, i + 1).contains(id) {
        let w = v.subrange(0, i + 1);
        let k = choose|k: int| 0 <= k < w.len() && w[k] == id;
        assert(v[k] == id);
        if k < i {
            assert(v[k] < v[i]);
        }
    }
}

/// The abstract state of the cluster.
pub struct ClusterView {
    pub replicas: Map<NodeId, ReplicaView>,
    pub committed: Seq<LogEntryView>,
    pub next_index: LogIndex,
    pub current_term: Term,
    pub leader_id: NodeId,
    pub compacted_through: LogIndex,
}

impl ClusterView {
    /// A strict majority of the replicas.
    pub open spec fn quorum(self) -> int {
        self.replicas.dom().len() as int / 2 + 1
    }

    /// Acknowledging ids that name no replica or whose replica refuses to validate `e`.
    #[verifier::opaque]
    pub open spec fn unfit(self, acks: Set<u64>, e: LogEntryView) -> Set<u64> {
        acks.filter(|id: u64| !self.replicas.contains_key(id) || self.replicas[id].entry_error(e) is Some)
    }

    /// The error the first (least) unfit acknowledging id reports.
    pub open spec fn unfit_error(self, id: u64, e: LogEntryView) -> Option<RaftBlockError> {
        if !self.replicas.contains_key(id) {
            Some(RaftBlockError::NodeNotFound(id))
        } else {
            self.replicas[id].entry_error(e)
        }
    }

    /// Acknowledging replicas on which applying `e` fails.
    #[verifier::opaque]
    pub open spec fn refusing(self, acks: Set<u64>, e: LogEntryView) -> Set<u64> {
        acks.filter(|id: u64| self.replicas[id].apply_outcome(e).0 is Err)
    }

    /// The error a commit of `e` acknowledged by `acks` reports, if any.
    pub open spec fn commit_error(self, acks: Set<u64>, e: LogEntryView) -> Option<RaftBlockError> {
        if acks.len() < self.quorum() {
            Some(RaftBlockError::NoQuorum { acks: acks.len() as usize, quorum: self.quorum() as usize })
        } else if !self.unfit(acks, e).is_empty() {
            self.unfit_error(least(self.unfit(acks, e)), e)
        } else if !self.refusing(acks, e).is_empty() {
            Some(RaftBlockError::DiskFull)
        } else {
            None
        }
    }

    /// Whether acknowledging replica `id` has `e` applied when the commit
    /// runs its apply stage: every acknowledging replica up to and
    /// including the first (least) one that refuses.
    pub open spec fn reached(self, acks: Set<u64>, e: LogEntryView, id: u64) -> bool {
        acks.contains(id) && (self.refusing(acks, e).is_empty() || id <= least(
            self.refusing(acks, e),
        ))
    }

    /// The replicas after the apply stage of a commit of `e`.
    pub open spec fn replicas_after_apply(self, acks: Set<u64>, e: LogEntryView) -> Map<NodeId, ReplicaView> {
        Map::new(
            |id: NodeId| self.replicas.contains_key(id),
            |id: NodeId|
                if self.reached(acks, e, id) {
                    self.replicas[id].apply_outcome(e).1
                } else {
                    self.replicas[id]
                },
        )
    }

    /// Whether the commit gets past quorum, membership and validation checks.
    pub open spec fn reaches_apply(self, acks: Set<u64>, e: LogEntryView) -> bool {
        &&& acks.len() >= self.quorum()
        &&& self.unfit(acks, e).is_empty()
    }

    /// The cluster after a commit of `e` acknowledged by `acks`.
    pub open spec fn after_commit(self, acks: Set<u64>, e: LogEntryView) -> ClusterView {
        if !self.reaches_apply(acks, e) {
            self
        } else if !self.refusing(acks, e).is_empty() {
            ClusterView { replicas: self.replicas_after_apply(acks, e), ..self }
        } else {
            ClusterView {
                replicas: self.replicas_after_apply(acks, e),
                committed: self.committed.push(e),
                next_index: (self.next_index + 1) as u64,
                ..self
            }
        }
    }

    /// The leader after a term change: the least other replica id, if any.
    pub open spec fn next_leader(self) -> NodeId {
        let others = self.replicas.dom().filter(|id: u64| id != self.leader_id);
        if others.is_empty() {
            self.leader_id
        } else {
            least(others)
        }
    }
}


/// The replicas after the first `i` acknowledging replicas (in increasing
/// order) have had `e` applied.
#[verifier::opaque]
pub open spec fn prefix_applied(c: ClusterView, v: Seq<u64>, i: int, e: LogEntryView) -> Map<NodeId, ReplicaView> {
    Map::new(
        |id: NodeId| c.replicas.contains_key(id),
        |id: NodeId|
            if v.subrange(0, i).contains(id) {
                c.replicas[id].apply_outcome(e).1
            } else {
                c.replicas[id]
            },
    )
}

/// One step of the apply stage: the replica `v[i]` changed to its applied
/// state and nothing else did, so the applied prefix grows by one.
proof fn lemma_apply_step(before: ClusterView, after: ClusterView, c: ClusterView, v: Seq<u64>, i: int, e: LogEntryView)
    requires
        strictly_increasing(v),
        0 <= i < v.len(),
        before == (ClusterView { replicas: prefix_applied(c, v, i, e), ..c }),
        c.replicas.contains_key(v[i]),
        prefix_applied(c, v, i, e)[v[i]] == c.replicas[v[i]],
        after == (ClusterView {
            replicas: before.replicas.insert(v[i], before.replicas[v[i]].apply_outcome(e).1),
            ..before
        }),
    ensures
        after == (ClusterView { replicas: prefix_applied(c, v, i + 1, e), ..c }),
{
    reveal(prefix_applied);
    let id = v[i];
    assert forall|x: NodeId| #[trigger] v.subrange(0, i + 1).contains(x) <==> (v.subrange(0, i).contains(x) || x == id) by {
        lemma_prefix_below(v, i, x);
        if x == id {
            assert(v.subrange(0, i + 1)[i] == x);
        }
        if v.subrange(0, i + 1).contains(x) && x != id {
            assert(v.contains(x));
        }
    }
    assert(after.replicas =~= prefix_applied(c, v, i + 1, e));
}

proof fn lemma_unfit_member(c: ClusterView, acks: Set<u64>, e: LogEntryView, id: u64)
    ensures
        c.unfit(acks, e).contains(id) <==> (acks.contains(id) && (!c.replicas.contains_key(id)
            || c.replicas[id].entry_error(e) is Some)),
{
    reveal(ClusterView::unfit);
}

proof fn lemma_refusing_member(c: ClusterView, acks: Set<u64>, e: LogEntryView, id: u64)
    ensures
        c.refusing(acks, e).contains(id) <==> (acks.contains(id) && c.replicas[id].apply_outcome(e).0 is Err),
{
    reveal(ClusterView::refusing);
}

proof fn lemma_prefix_zero(c: ClusterView, v: Seq<u64>, e: LogEntryView)
    ensures
        prefix_applied(c, v, 0, e) == c.replicas,
{
    reveal(prefix_applied);
    assert(v.subrange(0, 0) =~= Seq::<u64>::empty());
    assert(prefix_applied(c, v, 0, e) =~= c.replicas);
}

proof fn lemma_prefix_untouched(c: ClusterView, v: Seq<u64>, i: int, e: LogEntryView)
    requires
        strictly_increasing(v),
        0 <= i < v.len(),
        c.replicas.contains_key(v[i]),
    ensures
        prefix_applied(c, v, i, e).dom() == c.replicas.dom(),
        prefix_applied(c, v, i, e)[v[i]] == c.replicas[v[i]],
{
    reveal(prefix_applied);
    lemma_prefix_below(v, i, v[i]);
    assert(prefix_applied(c, v, i, e).dom() =~= c.replicas.dom());
}

proof fn lemma_prefix_refused(c: ClusterView, v: Seq<u64>, i: int, e: LogEntryView)
    requires
        strictly_increasing(v),
        0 <= i < v.len(),
        c.refusing(v.to_set(), e).contains(v[i]),
        forall|j: int| 0 <= j < i ==> !#[trigger] c.refusing(v.to_set(), e).contains(v[j]),
    ensures
        prefix_applied(c, v, i + 1, e) == c.replicas_after_apply(v.to_set(), e),
{
    reveal(prefix_applied);
    reveal(ClusterView::refusing);
    lemma_first_in(v, c.refusing(v.to_set(), e), i);
    assert forall|x: NodeId| v.subrange(0, i + 1).contains(x) <==> c.reached(v.to_set(), e, x) by {
        lemma_prefix_below(v, i, x);
    }
    assert(prefix_applied(c, v, i + 1, e) =~= c.replicas_after_apply(v.to_set(), e));
}

proof fn lemma_prefix_complete(c: ClusterView, v: Seq<u64>, e: LogEntryView)
    requires
        forall|j: int| 0 <= j < v.len() ==> !#[trigger] c.refusing(v.to_set(), e).contains(v[j]),
    ensures
        c.refusing(v.to_set(), e).is_empty(),
        prefix_applied(c, v, v.len() as int, e) == c.replicas_after_apply(v.to_set(), e),
{
    reveal(prefix_applied);
    reveal(ClusterView::refusing);
    assert(v.subrange(0, v.len() as int) =~= v);
    assert(c.refusing(v.to_set(), e) =~= Set::empty()) by {
        assert forall|x: u64| !c.refusing(v.to_set(), e).contains(x) by {
            if v.to_set().contains(x) {
                let k = choose|k: int| 0 <= k < v.len() && v[k] == x;
                assert(!c.refusing(v.to_set(), e).contains(v[k]));
            }
        }
    }
    assert(prefix_applied(c, v, v.len() as int, e) =~= c.replicas_after_apply(v.to_set(), e));
}

/// A commit acknowledged by fewer distinct replicas than a majority is
/// refused with `NoQuorum` and changes nothing.
pub proof fn minority_cannot_commit(c: ClusterView, acks: Set<u64>, e: LogEntryView)
    requires
        acks.len() < c.quorum(),
    ensures
        c.commit_error(acks, e) == Some(
            RaftBlockError::NoQuorum { acks: acks.len() as usize, quorum: c.quorum() as usize },
        ),
        c.after_commit(acks, e) == c,
{
}

/// A refused commit leaves the committed log, the next index, the term and
/// the leader as they were; a refusal other than a full disk changes nothing at all.
pub proof fn refused_commit_commits_nothing(c: ClusterView, acks: Set<u64>, e: LogEntryView)
    requires
        c.commit_error(acks, e) is Some,
    ensures
        c.after_commit(acks, e).committed == c.committed,
        c.after_commit(acks, e).next_index == c.next_index,
        c.after_commit(acks, e).current_term == c.current_term,
        c.after_commit(acks, e).leader_id == c.leader_id,
        c.after_commit(acks, e).compacted_through == c.compacted_through,
        c.commit_error(acks, e) != Some(RaftBlockError::DiskFull) ==> c.after_commit(acks, e) == c,
{
}

/// A commit that reports no error gets past every check: a majority
/// acknowledged it and no acknowledging replica refuses it.
proof fn lemma_accepted_commit(c: ClusterView, acks: Set<u64>, e: LogEntryView)
    requires
        acks.finite(),
        c.commit_error(acks, e) is None,
    ensures
        c.reaches_apply(acks, e),
        c.refusing(acks, e).is_empty(),
{
    let unfit = c.unfit(acks, e);
    if !unfit.is_empty() {
        reveal(ClusterView::unfit);
        assert(unfit.len() > 0) by {
            if unfit.len() == 0 {
                assert(unfit =~= Set::<u64>::empty());
            }
        }
        lemma_least_exists(unfit);
        lemma_unfit_member(c, acks, e, least(unfit));
        assert(false);
    }
}

/// A commit that reports no error appends the entry to the committed log
/// and advances the next index, over the same replicas.
pub proof fn accepted_commit_appends(c: ClusterView, acks: Set<u64>, e: LogEntryView)
    requires
        acks.finite(),
        c.commit_error(acks, e) is None,
    ensures
        c.after_commit(acks, e).committed == c.committed.push(e),
        c.after_commit(acks, e).next_index == (c.next_index + 1) as u64,
        c.after_commit(acks, e).replicas.dom() == c.replicas.dom(),
{
    lemma_accepted_commit(c, acks, e);
    assert(c.after_commit(acks, e).replicas.dom() =~= c.replicas.dom());
}

/// A commit that reports no error has applied the entry on every
/// acknowledging replica, which accepted it.
pub proof fn accepted_commit_applies_on_acknowledgers(c: ClusterView, acks: Set<u64>, e: LogEntryView, id: u64)
    requires
        acks.finite(),
        c.commit_error(acks, e) is None,
        acks.contains(id),
    ensures
        c.replicas.contains_key(id),
        c.replicas[id].apply_outcome(e).0 is Ok,
        c.after_commit(acks, e).replicas[id] == c.replicas[id].apply_outcome(e).1,
{
    lemma_accepted_commit(c, acks, e);
    lemma_unfit_member(c, acks, e, id);
    lemma_refusing_member(c, acks, e, id);
}

/// After an accepted commit of a write, an acknowledging replica that had
/// not applied that index before reads back exactly the written bytes at
/// the written offset.
pub proof fn committed_write_reads_back(c: ClusterView, acks: Set<u64>, e: LogEntryView, id: u64)
    requires
        acks.finite(),
        c.commit_error(acks, e) is None,
        acks.contains(id),
        !c.replicas[id].applied.contains(e.index),
        e.op is Write,
    ensures
        ({
            let (offset, bytes) = match e.op {
                BlockOpView::Write { offset, bytes, .. } => (offset as int, bytes),
                BlockOpView::Flush => (0int, Seq::<u8>::empty()),
            };
            c.after_commit(acks, e).replicas[id].bytes.subrange(offset, offset + bytes.len()) == bytes
        }),
{
    accepted_commit_applies_on_acknowledgers(c, acks, e, id);
    reveal(ReplicaView::apply_outcome);
    let r = c.replicas[id];
    match e.op {
        BlockOpView::Write { offset, bytes, .. } => {
            assert(r.entry_error(e) is None);
            let after = r.apply_outcome(e).1;
            assert(after.bytes == overwrite(r.bytes, offset as int, bytes));
            assert(after.bytes.subrange(offset as int, offset + bytes.len()) =~= bytes);
        },
        BlockOpView::Flush => {},
    }
}

/// A commit leaves every replica that did not acknowledge it as it was.
pub proof fn commit_leaves_others_alone(c: ClusterView, acks: Set<u64>, e: LogEntryView, id: u64)
    requires
        c.replicas.contains_key(id),
        !acks.contains(id),
    ensures
        c.after_commit(acks, e).replicas.contains_key(id),
        c.after_commit(acks, e).replicas[id] == c.replicas[id],
{
}

/// After a term change the old leader no longer leads, provided another
/// replica can take over; the new leader is one of the replicas.
pub proof fn term_change_fences_old_leader(c: ClusterView)
    requires
        c.replicas.dom().finite(),
        exists|id: u64| c.replicas.contains_key(id) && id != c.leader_id,
    ensures
        c.next_leader() != c.leader_id,
        c.replicas.contains_key(c.next_leader()),
{
    let others = c.replicas.dom().filter(|id: u64| id != c.leader_id);
    let w = choose|id: u64| c.replicas.contains_key(id) && id != c.leader_id;
    assert(others.contains(w));
    assert(others.finite());
    assert(others.len() > 0) by {
        if others.len() == 0 {
            assert(others =~= Set::<u64>::empty());
        }
    }
    lemma_least_exists(others);
}

/// What a commit of `e` acknowledged by `acks` reports.
pub open spec fn commit_reported(c: ClusterView, acks: Set<u64>, e: LogEntryView, r: Result<
    CommitOutcome,
    RaftBlockError,
>) -> bool {
    match c.commit_error(acks, e) {
        Some(err) => r == Err::<CommitOutcome, RaftBlockError>(err),
        None => r matches Ok(out) && out.entry@ == e && strictly_increasing(out.acknowledgements@)
            && out.acknowledgements@.to_set() == acks,
    }
}

/// Replays `es` in order on `r`, stopping at the first entry that fails;
/// on success reports how many entries took effect.
pub open spec fn replay(r: ReplicaView, es: Seq<LogEntryView>) -> (Result<nat, RaftBlockError>, ReplicaView)
    decreases es.len(),
{
    if es.len() == 0 {
        (Ok(0), r)
    } else {
        let (prev, s) = replay(r, es.drop_last());
        match prev {
            Err(err) => (Err(err), s),
            Ok(n) => {
                let (res, s2) = s.apply_outcome(es.last());
                match res {
                    Err(err) => (Err(err), s2),
                    Ok(took) => (Ok(if took { n + 1 } else { n }), s2),
                }
            },
        }
    }
}

/// A replay that succeeds leaves every replayed entry applied and forgets
/// nothing that was applied before: repairing a lagging replica catches it
/// up with the committed log.
pub proof fn replay_applies_every_entry(r: ReplicaView, es: Seq<LogEntryView>)
    requires
        replay(r, es).0 is Ok,
    ensures
        r.applied.subset_of(replay(r, es).1.applied),
        forall|i: int| 0 <= i < es.len() ==> replay(r, es).1.applied.contains(#[trigger] es[i].index),
    decreases es.len(),
{
    if es.len() > 0 {
        let (prev, s) = replay(r, es.drop_last());
        replay_applies_every_entry(r, es.drop_last());
        lemma_applied_grows(s, es.last());
        assert forall|i: int| 0 <= i < es.len() implies replay(r, es).1.applied.contains(#[trigger] es[i].index) by {
            if i < es.len() - 1 {
                assert(es.drop_last()[i] == es[i]);
            }
        }
    }
}

/// Replaying entries does not depend on a replica's id: two replicas that
/// differ only in their ids report the same outcome and end in states that
/// differ only in their ids.
pub proof fn replay_ignores_identity(r1: ReplicaView, r2: ReplicaView, es: Seq<LogEntryView>)
    requires
        r2 == (ReplicaView { id: r2.id, ..r1 }),
    ensures
        replay(r1, es).0 == replay(r2, es).0,
        replay(r2, es).1 == (ReplicaView { id: r2.id, ..replay(r1, es).1 }),
    decreases es.len(),
{
    reveal(ReplicaView::apply_outcome);
    if es.len() > 0 {
        replay_ignores_identity(r1, r2, es.drop_last());
    }
}

/// Repairing a fresh follower from the committed log reproduces the leader's
/// blocks, whenever the leader's replica is what replaying that log on a
/// fresh replica of the same geometry gives: the follower's repair reports
/// what the leader's replay reported, and the two end with the same bytes,
/// applied set and term.
pub proof fn repaired_follower_matches_leader(c: ClusterView, leader: NodeId, follower: NodeId, capacity: u64, block_size: u64)
    requires
        c.replicas.contains_key(leader),
        c.replicas.contains_key(follower),
        c.replicas[follower] == fresh_replica(follower, capacity, block_size),
        c.replicas[leader] == replay(fresh_replica(leader, capacity, block_size), c.committed).1,
    ensures
        replay(c.replicas[follower], c.committed).0 == replay(fresh_replica(leader, capacity, block_size), c.committed).0,
        replay(c.replicas[follower], c.committed).1.bytes == c.replicas[leader].bytes,
        replay(c.replicas[follower], c.committed).1.applied == c.replicas[leader].applied,
        replay(c.replicas[follower], c.committed).1.highest_term_seen == c.replicas[leader].highest_term_seen,
{
    replay_ignores_identity(fresh_replica(leader, capacity, block_size), fresh_replica(follower, capacity, block_size), c.committed);
}

/// A replica that acknowledges an accepted commit keeps being what replaying
/// the committed log on its starting state gives: if it was that before the
/// commit, it is that after, with the new entry at the end of the log.
pub proof fn acknowledger_follows_committed_log(c: ClusterView, acks: Set<u64>, e: LogEntryView, id: u64, start: ReplicaView)
    requires
        acks.finite(),
        c.commit_error(acks, e) is None,
        acks.contains(id),
        replay(start, c.committed).0 is Ok,
        c.replicas[id] == replay(start, c.committed).1,
    ensures
        replay(start, c.after_commit(acks, e).committed).0 is Ok,
        c.after_commit(acks, e).replicas[id] == replay(start, c.after_commit(acks, e).committed).1,
{
    accepted_commit_appends(c, acks, e);
    accepted_commit_applies_on_acknowledgers(c, acks, e, id);
    let log = c.after_commit(acks, e).committed;
    assert(log.drop_last() =~= c.committed);
    assert(log.last() == e);
}

/// Two accepted commits acknowledged by the leader but not by a fresh
/// follower, starting from a fresh leader and an empty committed log: a
/// repair of the follower then succeeds and gives it the leader's bytes,
/// applied set and term.
pub proof fn repair_after_two_commits_matches_leader(
    c: ClusterView,
    acks1: Set<u64>,
    e1: LogEntryView,
    acks2: Set<u64>,
    e2: LogEntryView,
    leader: NodeId,
    follower: NodeId,
    capacity: u64,
    block_size: u64,
)
    requires
        c.committed.len() == 0,
        c.replicas.contains_key(leader),
        c.replicas.contains_key(follower),
        c.replicas[leader] == fresh_replica(leader, capacity, block_size),
        c.replicas[follower] == fresh_replica(follower, capacity, block_size),
        acks1.finite(),
        acks2.finite(),
        acks1.contains(leader),
        acks2.contains(leader),
        !acks1.contains(follower),
        !acks2.contains(follower),
        c.commit_error(acks1, e1) is None,
        c.after_commit(acks1, e1).commit_error(acks2, e2) is None,
    ensures
        ({
            let c2 = c.after_commit(acks1, e1).after_commit(acks2, e2);
            &&& replay(c2.replicas[follower], c2.committed).0 is Ok
            &&& replay(c2.replicas[follower], c2.committed).1.bytes == c2.replicas[leader].bytes
            &&& replay(c2.replicas[follower], c2.committed).1.applied == c2.replicas[leader].applied
            &&& replay(c2.replicas[follower], c2.committed).1.highest_term_seen == c2.replicas[leader].highest_term_seen
        }),
{
    let r0 = fresh_replica(leader, capacity, block_size);
    assert(c.committed =~= Seq::<LogEntryView>::empty());
    assert(replay(r0, c.committed) == (Ok::<nat, RaftBlockError>(0), r0));
    acknowledger_follows_committed_log(c, acks1, e1, leader, r0);
    let c1 = c.after_commit(acks1, e1);
    commit_leaves_others_alone(c, acks1, e1, follower);
    accepted_commit_appends(c, acks1, e1);
    acknowledger_follows_committed_log(c1, acks2, e2, leader, r0);
    let c2 = c1.after_commit(acks2, e2);
    commit_leaves_others_alone(c1, acks2, e2, follower);
    accepted_commit_appends(c1, acks2, e2);
    repaired_follower_matches_leader(c2, leader, follower, capacity, block_size);
}

/// In a well-formed cluster, whatever calls led to it, the committed
/// indexes strictly increase, one at a time, up to just before the next
/// index, and no committed entry is from a term later than the current one.
pub proof fn committed_log_shape(c: ClusterView)
    requires
        cluster_view_wf(c),
    ensures
        forall|i: int, j: int| 0 <= i < j < c.committed.len() ==> #[trigger] c.committed[i].index < #[trigger] c.committed[j].index,
        forall|i: int, j: int| 0 <= i <= j < c.committed.len() ==> #[trigger] c.committed[j].index == #[trigger] c.committed[i].index + (j - i),
        c.committed.len() > 0 ==> c.committed.last().index + 1 == c.next_index,
        forall|i: int| 0 <= i < c.committed.len() ==> #[trigger] c.committed[i].term <= c.current_term,
{
    assert forall|i: int, j: int| 0 <= i < j < c.committed.len() implies #[trigger] c.committed[i].index < #[trigger] c.committed[j].index by {
        assert(c.committed[j].index == c.committed[i].index + (j - i));
    }
}

/// A replay only raises the highest term seen, never past the largest term
/// among the replica's and the entries'; after one that succeeds the replica
/// has seen the term of every replayed entry.
proof fn lemma_replay_terms(r: ReplicaView, es: Seq<LogEntryView>, t: Term)
    ensures
        r.highest_term_seen <= replay(r, es).1.highest_term_seen,
        r.highest_term_seen <= t && (forall|i: int| 0 <= i < es.len() ==> #[trigger] es[i].term <= t)
            ==> replay(r, es).1.highest_term_seen <= t,
        replay(r, es).0 is Ok ==> forall|i: int| 0 <= i < es.len() ==> #[trigger] es[i].term
            <= replay(r, es).1.highest_term_seen,
    decreases es.len(),
{
    reveal(ReplicaView::apply_outcome);
    if es.len() > 0 {
        lemma_replay_terms(r, es.drop_last(), t);
        let (prev, s) = replay(r, es.drop_last());
        if r.highest_term_seen <= t && (forall|i: int| 0 <= i < es.len() ==> #[trigger] es[i].term <= t) {
            assert forall|i: int| 0 <= i < es.drop_last().len() implies #[trigger] es.drop_last()[i].term <= t by {
                assert(es.drop_last()[i] == es[i]);
            }
            assert(es[es.len() - 1].term <= t);
        }
        if prev is Ok && replay(r, es).0 is Ok {
            assert forall|i: int| 0 <= i < es.len() implies #[trigger] es[i].term <= replay(r, es).1.highest_term_seen by {
                if i < es.len() - 1 {
                    assert(es.drop_last()[i] == es[i]);
                }
            }
        }
    }
}

/// Replaying entries that a replica has all applied, all from the highest
/// term it has seen, changes nothing and reports that nothing took effect.
proof fn lemma_replay_seen(s: ReplicaView, es: Seq<LogEntryView>)
    requires
        forall|i: int| 0 <= i < es.len() ==> s.applied.contains(#[trigger] es[i].index),
        forall|i: int| 0 <= i < es.len() ==> #[trigger] es[i].term == s.highest_term_seen,
    ensures
        replay(s, es) == (Ok::<nat, RaftBlockError>(0), s),
    decreases es.len(),
{
    reveal(ReplicaView::apply_outcome);
    if es.len() > 0 {
        assert forall|i: int| 0 <= i < es.drop_last().len() implies s.applied.contains(#[trigger] es.drop_last()[i].index) by {
            assert(es.drop_last()[i] == es[i]);
        }
        assert forall|i: int| 0 <= i < es.drop_last().len() implies #[trigger] es.drop_last()[i].term == s.highest_term_seen by {
            assert(es.drop_last()[i] == es[i]);
        }
        lemma_replay_seen(s, es.drop_last());
        let e = es.last();
        assert(s.applied.contains(es[es.len() - 1].index));
        assert(es[es.len() - 1].term == s.highest_term_seen);
        assert(s.observe(e.term) =~= s);
    }
}

/// Repairing twice is repairing once when the replayed entries share one
/// term that the replica had not passed: after a replay that succeeds,
/// replaying the same entries again changes nothing and reports that none
/// took effect. (With entries from several terms the second replay refuses
/// the older ones as stale.)
pub proof fn repair_is_idempotent(r: ReplicaView, es: Seq<LogEntryView>, t: Term)
    requires
        replay(r, es).0 is Ok,
        r.highest_term_seen <= t,
        forall|i: int| 0 <= i < es.len() ==> #[trigger] es[i].term == t,
    ensures
        replay(replay(r, es).1, es) == (Ok::<nat, RaftBlockError>(0), replay(r, es).1),
{
    replay_applies_every_entry(r, es);
    lemma_replay_terms(r, es, t);
    if es.len() > 0 {
        assert(es[0].term == t);
    }
    lemma_replay_seen(replay(r, es).1, es);
}

/// Once a replay fails, replaying more entries reports the same failure.
pub proof fn lemma_replay_err_sticks(r: ReplicaView, es: Seq<LogEntryView>, k: int, m: int)
    requires
        0 <= k <= m <= es.len(),
        replay(r, es.take(k)).0 is Err,
    ensures
        replay(r, es.take(m)) == replay(r, es.take(k)),
    decreases m - k,
{
    if m > k {
        lemma_replay_err_sticks(r, es, k, m - 1);
        assert(es.take(m).drop_last() =~= es.take(m - 1));
    }
}

/// Calls `BTreeMap::get_mut` on a key the map holds; the reference points at
/// that key's value, and whatever is written through it becomes the key's value.
#[verifier::external_body]
fn btree_get_mut<'a>(m: &'a mut BTreeMap<u64, Replica>, k: u64) -> (v: &'a mut Replica)
    requires
        old(m)@.contains_key(k),
    ensures
        *v == old(m)@[k],
        final(m)@ == old(m)@.insert(k, *final(v)),
{
    m.get_mut(&k).unwrap()
}

/// The least key of `m` other than `leader`, if there is one.
fn least_other_key(m: &BTreeMap<u64, Replica>, leader: u64) -> (best: Option<u64>)
    ensures
        best matches Some(b) ==> m@.contains_key(b) && b != leader,
        forall|x: u64| m@.dom().contains(x) && x != leader ==> (best matches Some(b) && b <= x),
{
    let mut best: Option<u64> = None;
    proof {
        vstd::std_specs::btree::axiom_spec_keys_iter(m);
    }
    let ghost mut seen: Set<u64> = Set::empty();
    for k in it: m.keys()
        invariant
            it.seq().unref().to_set() == m@.dom(),
            seen == it.seq().take(it.index()).unref().to_set(),
            seen == m@.dom() || it.index() < it.seq().len(),
            best matches Some(b) ==> m@.contains_key(b) && b != leader && forall|x: u64|
                seen.contains(x) && x != leader ==> b <= x,
            best is None ==> forall|x: u64| seen.contains(x) ==> x == leader,
    {
        proof {
            let pre = it.seq().take(it.index()).unref();
            let post = it.seq().take(it.index() + 1).unref();
            assert(*k == *it.seq()[it.index()]);
            assert(post =~= pre + seq![*k]);
            Seq::lemma_to_set_insert_commutes(pre, *k);
            seen = seen.insert(*k);
            assert(seen == post.to_set());
            assert(it.seq().unref()[it.index()] == *k);
            assert(it.seq().unref().to_set().contains(*k));
            assert(it.index() + 1 == it.seq().len() ==> post =~= it.seq().unref());
        }
        if *k != leader {
            match best {
                Some(b) => {
                    if *k < b {
                        best = Some(*k);
                    }
                },
                None => {
                    best = Some(*k);
                },
            }
        }
    }
    assert(seen == m@.dom());
    best
}

/// The leader chosen on a term change is the least other replica id, if any.
proof fn lemma_leader_choice(c: ClusterView, best: Option<u64>)
    requires
        best matches Some(b) ==> c.replicas.contains_key(b) && b != c.leader_id,
        forall|x: u64| c.replicas.dom().contains(x) && x != c.leader_id ==> (best matches Some(b) && b <= x),
    ensures
        c.next_leader() == (match best {
            Some(b) => b,
            None => c.leader_id,
        }),
{
    let others = c.replicas.dom().filter(|id: u64| id != c.leader_id);
    match best {
        Some(b) => {
            assert(others.contains(b));
            lemma_least_is(others, b);
        },
        None => {
            assert(others =~= Set::empty());
        },
    }
}

/// `len` bytes of `bytes` starting at `offset`, or `OutOfBounds`.
pub fn read_range_of(bytes: &[u8], offset: u64, len: usize) -> (r: Result<Vec<u8>, RaftBlockError>)
    ensures
        offset + len > bytes@.len() ==> r == Err::<Vec<u8>, RaftBlockError>(RaftBlockError::OutOfBounds),
        offset + len <= bytes@.len() ==> (r matches Ok(out) && out@ == bytes@.subrange(
            offset as int,
            offset + len,
        )),
{
    let blen = bytes.len();
    let end = match offset.checked_add(len as u64) {
        Some(end) => end,
        None => return Err(RaftBlockError::OutOfBounds),
    };
    if end > bytes.len() as u64 {
        return Err(RaftBlockError::OutOfBounds);
    }
    let start = offset as usize;
    let stop = end as usize;
    let mut out: Vec<u8> = Vec::with_capacity(len);
    let mut i: usize = start;
    while i < stop
        invariant
            start <= i <= stop,
            stop <= bytes@.len(),
            out@ == bytes@.subrange(start as int, i as int),
        decreases stop - i,
    {
        out.push(bytes[i]);
        i = i + 1;
    }
    Ok(out)
}

/// A committed entry and the distinct replicas, in increasing order, that acknowledged it.
#[derive(Debug, Clone)]
pub struct CommitOutcome {
    pub entry: LogEntry,
    pub acknowledgements: Vec<NodeId>,
}

/// An in-memory cluster of replicas with a single leader.
#[derive(Debug)]
pub struct FakeRaftBlockCluster {
    replicas: BTreeMap<NodeId, Replica>,
    committed: Vec<LogEntry>,
    next_index: LogIndex,
    current_term: Term,
    leader_id: NodeId,
    compacted_through: LogIndex,
}

impl View for FakeRaftBlockCluster {
    type V = ClusterView;

    closed spec fn view(&self) -> ClusterView {
        ClusterView {
            replicas: replica_views(self.replicas@),
            committed: self.committed@.map_values(|e: LogEntry| e@),
            next_index: self.next_index,
            current_term: self.current_term,
            leader_id: self.leader_id,
            compacted_through: self.compacted_through,
        }
    }
}

/// The views of the replicas of a map.
pub open spec fn replica_views(m: Map<NodeId, Replica>) -> Map<NodeId, ReplicaView> {
    m.map_values(|r: Replica| r@)
}

/// Replacing a replica replaces its view.
pub broadcast proof fn lemma_replica_views_insert(m: Map<NodeId, Replica>, k: NodeId, r: Replica)
    ensures
        #[trigger] replica_views(m.insert(k, r)) == replica_views(m).insert(k, r@),
{
    assert(replica_views(m.insert(k, r)) =~= replica_views(m).insert(k, r@));
}

/// Every replica is well formed and registered under its own id.
pub open spec fn cluster_view_wf(c: ClusterView) -> bool {
    &&& c.replicas.dom().finite()
    &&& forall|id: NodeId| #[trigger]
        c.replicas.contains_key(id) ==> replica_view_wf(c.replicas[id]) && c.replicas[id].id == id
    &&& committed_log_wf(c)
}

/// The entries of `log` with an index past `k`, in order.
pub open spec fn entries_after(log: Seq<LogEntryView>, k: LogIndex) -> Seq<LogEntryView> {
    log.filter(|e: LogEntryView| e.index > k)
}

/// Indexes that follow one another: each entry's index is one more than
/// the one before it.
pub open spec fn consecutive(log: Seq<LogEntryView>) -> bool {
    forall|i: int, j: int| 0 <= i <= j < log.len() ==> #[trigger] log[j].index == #[trigger] log[i].index + (j - i)
}

/// The shape of the committed log that every operation keeps: consecutive
/// indexes, the last one just before the next index to be proposed, and no
/// entry from a term later than the current one.
pub open spec fn committed_log_wf(c: ClusterView) -> bool {
    &&& consecutive(c.committed)
    &&& c.committed.len() > 0 ==> c.committed.last().index + 1 == c.next_index
    &&& forall|i: int| 0 <= i < c.committed.len() ==> #[trigger] c.committed[i].term <= c.current_term
}

/// Committing an entry proposed at the next index in the current term keeps
/// the committed log's shape, whether or not the commit succeeds.
pub proof fn commit_keeps_log_shape(c: ClusterView, acks: Set<u64>, e: LogEntryView)
    requires
        committed_log_wf(c),
        e.index == c.next_index,
        e.term == c.current_term,
        c.next_index < u64::MAX,
    ensures
        committed_log_wf(c.after_commit(acks, e)),
{
    let a = c.after_commit(acks, e);
    if c.reaches_apply(acks, e) && c.refusing(acks, e).is_empty() {
        assert(a.committed == c.committed.push(e));
        assert forall|i: int, j: int| 0 <= i <= j < a.committed.len() implies #[trigger] a.committed[j].index
            == #[trigger] a.committed[i].index + (j - i) by {
            if j == a.committed.len() - 1 && i < j {
                assert(c.committed[i].index + (c.committed.len() - 1 - i) == c.committed.last().index);
            }
        }
        assert forall|i: int| 0 <= i < a.committed.len() implies #[trigger] a.committed[i].term <= a.current_term by {
            if i < c.committed.len() {
                assert(a.committed[i] == c.committed[i]);
            }
        }
    }
}

/// Moving to a later term, under any leader, keeps the committed log's shape.
pub proof fn term_change_keeps_log_shape(c: ClusterView, term: Term, leader: NodeId)
    requires
        committed_log_wf(c),
        term >= c.current_term,
    ensures
        committed_log_wf(ClusterView { current_term: term, leader_id: leader, ..c }),
{
    assert forall|i: int| 0 <= i < c.committed.len() implies #[trigger] c.committed[i].term <= term by {
        assert(c.committed[i].term <= c.current_term);
    }
}

/// Dropping the committed entries up to `index` keeps the committed log's shape.
pub proof fn compaction_keeps_log_shape(c: ClusterView, index: LogIndex)
    requires
        committed_log_wf(c),
    ensures
        committed_log_wf(
            ClusterView {
                committed: entries_after(c.committed, index),
                compacted_through: if index > c.compacted_through { index } else { c.compacted_through },
                ..c
            },
        ),
{
    lemma_filter_consecutive(c.committed, index);
    let f = entries_after(c.committed, index);
    assert forall|i: int| 0 <= i < f.len() implies #[trigger] f[i].term <= c.current_term by {
        assert(f.contains(f[i]));
        let k = choose|k: int| 0 <= k < c.committed.len() && c.committed[k] == f[i];
        assert(c.committed[k].term <= c.current_term);
    }
}

/// The entries of a consecutive log past `k` are consecutive and, when
/// there are any, end where the log ends.
proof fn lemma_filter_consecutive(s: Seq<LogEntryView>, k: LogIndex)
    requires
        consecutive(s),
    ensures
        consecutive(entries_after(s, k)),
        entries_after(s, k).len() > 0 ==> entries_after(s, k).last() == s.last(),
        s.len() > 0 && s.last().index <= k ==> entries_after(s, k).len() == 0,
        forall|x: LogEntryView| #[trigger] entries_after(s, k).contains(x) ==> s.contains(x),
    decreases s.len(),
{
    reveal_with_fuel(Seq::filter, 1);
    if s.len() > 0 {
        let d = s.drop_last();
        assert(consecutive(d)) by {
            assert forall|i: int, j: int| 0 <= i <= j < d.len() implies #[trigger] d[j].index == #[trigger] d[i].index
                + (j - i) by {
                assert(s[j].index == s[i].index + (j - i));
            }
        }
        lemma_filter_consecutive(d, k);
        let fd = entries_after(d, k);
        let f = entries_after(s, k);
        assert(f == if s.last().index > k { fd.push(s.last()) } else { fd });
        if d.len() > 0 {
            assert(s[d.len() - 1].index + 1 == s.last().index) by {
                assert(s[s.len() - 1].index == s[d.len() - 1].index + 1);
            }
            assert(d.last() == s[d.len() - 1]);
        }
        assert forall|x: LogEntryView| #[trigger] f.contains(x) implies s.contains(x) by {
            if fd.contains(x) {
                assert(d.contains(x));
                let j = choose|j: int| 0 <= j < d.len() && d[j] == x;
                assert(s[j] == x);
            } else {
                assert(x == s.last());
                assert(s[s.len() - 1] == x);
            }
        }
        if s.last().index > k {
            assert forall|i: int, j: int| 0 <= i <= j < f.len() implies #[trigger] f[j].index == #[trigger] f[i].index
                + (j - i) by {
                if j == f.len() - 1 && i < j {
                    assert(fd.last() == d.last());
                    assert(fd[i].index + (fd.len() - 1 - i) == fd.last().index);
                }
            }
        } else {
            if d.len() > 0 {
                assert(d.last().index <= k);
            }
        }
    }
}

impl FakeRaftBlockCluster {
    pub open spec fn wf(&self) -> bool {
        cluster_view_wf(self@)
    }

    /// A cluster with one fresh replica per id; the first leader is node 1 at term 1.
    pub fn new(node_ids: &[NodeId], capacity_bytes: u64, block_size: u64) -> (r: Result<
        Self,
        RaftBlockError,
    >)
        requires
            capacity_bytes <= usize::MAX,
        ensures
            r matches Ok(_) <==> (node_ids@.len() == 0 || geometry_error(capacity_bytes, block_size) is None),
            r matches Err(e) ==> geometry_error(capacity_bytes, block_size) == Some(e),
            r matches Ok(c) ==> {
                &&& c.wf()
                &&& c@.replicas.dom() == node_ids@.to_set()
                &&& forall|id: NodeId| #[trigger] c@.replicas.contains_key(id) ==> c@.replicas[id]
                    == fresh_replica(id, capacity_bytes, block_size)
                &&& c@.committed.len() == 0
                &&& c@.next_index == 1
                &&& c@.current_term == 1
                &&& c@.leader_id == 1
                &&& c@.compacted_through == 0
            },
    {
        let mut replicas: BTreeMap<NodeId, Replica> = BTreeMap::new();
        let mut i: usize = 0;
        while i < node_ids.len()
            invariant
                0 <= i <= node_ids@.len(),
                capacity_bytes <= usize::MAX,
                i > 0 ==> geometry_error(capacity_bytes, block_size) is None,
                replicas@.dom() == node_ids@.subrange(0, i as int).to_set(),
                forall|id: NodeId| #[trigger] replicas@.contains_key(id) ==> replicas@[id].wf()
                    && replicas@[id]@ == fresh_replica(id, capacity_bytes, block_size),
            decreases node_ids@.len() - i,
        {
            let id = node_ids[i];
            let rep = Replica::new(id, capacity_bytes, block_size)?;
            replicas.insert(id, rep);
            proof {
                assert(node_ids@.subrange(0, i + 1) =~= node_ids@.subrange(0, i as int) + seq![id]);
                Seq::lemma_to_set_insert_commutes(node_ids@.subrange(0, i as int), id);
            }
            i = i + 1;
        }
        assert(node_ids@.subrange(0, node_ids@.len() as int) =~= node_ids@);
        let c = FakeRaftBlockCluster {
            replicas,
            committed: Vec::new(),
            next_index: 1,
            current_term: 1,
            leader_id: 1,
            compacted_through: 0,
        };
        proof {
            assert(c@.replicas.dom() =~= c.replicas@.dom());
            assert(c@.committed =~= Seq::<LogEntryView>::empty());
            assert(committed_log_wf(c@));
            assert forall|id: NodeId| #[trigger] c@.replicas.contains_key(id) implies replica_view_wf(
                c@.replicas[id],
            ) && c@.replicas[id].id == id by {
                assert(c.replicas@[id].wf());
            }
        }
        Ok(c)
    }

    /// The replicas of the view are the views of the replicas.
    proof fn lemma_replicas_view(&self)
        ensures
            self@.replicas.dom() == self.replicas@.dom(),
            forall|id: NodeId| #[trigger] self.replicas@.contains_key(id) ==> self@.replicas[id]
                == self.replicas@[id]@,
    {
        assert(self@.replicas.dom() =~= self.replicas@.dom());
    }

    /// A strict majority of the replicas.
    pub fn quorum(&self) -> (q: usize)
        ensures
            q == self@.quorum(),
    {
        let n = self.replicas.len();
        assert(n == self.replicas@.dom().len());
        assert(self@.replicas.dom() =~= self.replicas@.dom());
        n / 2 + 1
    }

    /// The committed log. Whatever calls led to this cluster, its indexes
    /// strictly increase one at a time up to just before the next index, and
    /// no entry is from a term later than the current one.
    pub fn committed_entries(&self) -> (s: &[LogEntry])
        ensures
            s@.map_values(|e: LogEntry| e@) == self@.committed,
            self.wf() ==> forall|i: int, j: int| 0 <= i < j < s@.len() ==> #[trigger] s@[i].index < #[trigger] s@[j].index,
            self.wf() ==> forall|i: int, j: int| 0 <= i <= j < s@.len() ==> #[trigger] s@[j].index == #[trigger] s@[i].index + (j - i),
            self.wf() && s@.len() > 0 ==> s@.last().index + 1 == self@.next_index,
            self.wf() ==> forall|i: int| 0 <= i < s@.len() ==> #[trigger] s@[i].term <= self@.current_term,
    {
        proof {
            if self.wf() {
                committed_log_shape(self@);
                let c = self.committed@;
                let v = self@.committed;
                assert forall|i: int, j: int| 0 <= i < j < c.len() implies #[trigger] c[i].index < #[trigger] c[j].index by {
                    assert(c[i]@ == v[i] && c[j]@ == v[j]);
                    assert(v[i].index < v[j].index);
                }
                assert forall|i: int, j: int| 0 <= i <= j < c.len() implies #[trigger] c[j].index == #[trigger] c[i].index
                    + (j - i) by {
                    assert(c[i]@ == v[i] && c[j]@ == v[j]);
                    assert(v[j].index == v[i].index + (j - i));
                }
                assert forall|i: int| 0 <= i < c.len() implies #[trigger] c[i].term <= self@.current_term by {
                    assert(c[i]@ == v[i]);
                    assert(v[i].term <= self@.current_term);
                }
            }
        }
        self.committed.as_slice()
    }

    pub fn compacted_through(&self) -> (c: LogIndex)
        ensures
            c == self@.compacted_through,
    {
        self.compacted_through
    }

    pub fn leader_id(&self) -> (l: NodeId)
        ensures
            l == self@.leader_id,
    {
        self.leader_id
    }

    pub fn current_term(&self) -> (t: Term)
        ensures
            t == self@.current_term,
    {
        self.current_term
    }

    /// The replica with id `id`.
    pub fn replica(&self, id: NodeId) -> (r: Result<&Replica, RaftBlockError>)
        ensures
            r matches Ok(_) <==> self@.replicas.contains_key(id),
            r matches Err(e) ==> e == RaftBlockError::NodeNotFound(id),
            r matches Ok(rep) ==> rep@ == self@.replicas[id],
    {
        match self.replicas.get(&id) {
            Some(rep) => Ok(rep),
            None => Err(RaftBlockError::NodeNotFound(id)),
        }
    }


    /// Checks, in increasing id order, that every acknowledging id names a
    /// replica that accepts `entry`; changes nothing.
    fn check_acks(&self, acks: &Vec<u64>, entry: &LogEntry) -> (r: Result<(), RaftBlockError>)
        requires
            self.wf(),
            strictly_increasing(acks@),
        ensures
            r matches Ok(_) <==> self@.unfit(acks@.to_set(), entry@).is_empty(),
            r matches Err(err) ==> Some(err) == self@.unfit_error(
                least(self@.unfit(acks@.to_set(), entry@)),
                entry@,
            ),
    {
        let ghost acks_set = acks@.to_set();
        let ghost bad = self@.unfit(acks_set, entry@);
        proof {
            self.lemma_replicas_view();
            assert forall|x: u64| bad.contains(x) implies acks@.contains(x) by {
                lemma_unfit_member(self@, acks_set, entry@, x);
            }
        }
        let mut i: usize = 0;
        while i < acks.len()
            invariant
                0 <= i <= acks@.len(),
                bad == self@.unfit(acks@.to_set(), entry@),
                forall|x: u64| bad.contains(x) ==> acks@.contains(x),
                self@.replicas.dom() == self.replicas@.dom(),
                forall|id: NodeId| #[trigger] self.replicas@.contains_key(id) ==> self@.replicas[id]
                    == self.replicas@[id]@,
                self.wf(),
                strictly_increasing(acks@),
                forall|j: int| 0 <= j < i ==> !#[trigger] bad.contains(acks@[j]),
            decreases acks@.len() - i,
        {
            let id = acks[i];
            assert(acks@.contains(id));
            proof {
                lemma_unfit_member(self@, acks@.to_set(), entry@, id);
            }
            match self.replicas.get(&id) {
                None => {
                    proof {
                        lemma_first_in(acks@, bad, i as int);
                    }
                    return Err(RaftBlockError::NodeNotFound(id));
                },
                Some(rep) => {
                    match rep.validate_entry(entry) {
                        Err(err) => {
                            proof {
                                lemma_first_in(acks@, bad, i as int);
                            }
                            return Err(err);
                        },
                        Ok(_) => {},
                    }
                },
            }
            i = i + 1;
        }
        assert(bad =~= Set::empty()) by {
            assert forall|x: u64| !bad.contains(x) by {
                lemma_unfit_member(self@, acks_set, entry@, x);
                if acks_set.contains(x) {
                    let k = choose|k: int| 0 <= k < acks@.len() && acks@[k] == x;
                    assert(!bad.contains(acks@[k]));
                }
            }
        }
        Ok(())
    }

    /// Applies `entry` to the acknowledging replicas in increasing id order,
    /// stopping at the first that refuses it.
    fn apply_acks(&mut self, acks: &Vec<u64>, entry: &LogEntry) -> (r: Result<(), RaftBlockError>)
        requires
            old(self).wf(),
            strictly_increasing(acks@),
            old(self)@.unfit(acks@.to_set(), entry@).is_empty(),
        ensures
            final(self).wf(),
            final(self)@ == (ClusterView {
                replicas: old(self)@.replicas_after_apply(acks@.to_set(), entry@),
                ..old(self)@
            }),
            r matches Ok(_) <==> old(self)@.refusing(acks@.to_set(), entry@).is_empty(),
            r matches Err(err) ==> err == RaftBlockError::DiskFull,
    {
        let ghost old_view = self@;
        let ghost e = entry@;
        proof {
            lemma_prefix_zero(old_view, acks@, e);
            assert forall|j: int| 0 <= j < acks@.len() implies old_view.replicas.contains_key(#[trigger] acks@[j])
                && old_view.replicas[acks@[j]].entry_error(e) is None by {
                assert(acks@.contains(acks@[j]));
                assert(acks@.to_set().contains(acks@[j]));
                lemma_unfit_member(old_view, acks@.to_set(), e, acks@[j]);
            }
        }
        let mut i: usize = 0;
        while i < acks.len()
            invariant
                0 <= i <= acks@.len(),
                forall|j: int| 0 <= j < acks@.len() ==> old_view.replicas.contains_key(#[trigger] acks@[j])
                    && old_view.replicas[acks@[j]].entry_error(e) is None,
                self.wf(),
                strictly_increasing(acks@),
                entry@ == e,
                old_view == old(self)@,
                self@ == (ClusterView { replicas: prefix_applied(old_view, acks@, i as int, e), ..old_view }),
                forall|j: int| 0 <= j < i ==> !#[trigger] old_view.refusing(acks@.to_set(), e).contains(acks@[j]),
            decreases acks@.len() - i,
        {
            let id = acks[i];
            let ghost before = self@;
            proof {
                lemma_prefix_untouched(old_view, acks@, i as int, e);
            }
            let res = self.apply_one(id, entry);
            proof {
                assert(acks@.contains(id));
                lemma_refusing_member(old_view, acks@.to_set(), e, id);
                lemma_apply_step(before, self@, old_view, acks@, i as int, e);
            }
            match res {
                Err(err) => {
                    proof {
                        assert(old_view.replicas[id].entry_error(e) is None);
                        crate::replica::lemma_refusal_is_disk_full(old_view.replicas[id], e);
                        assert(old_view.refusing(acks@.to_set(), e).contains(id));
                        lemma_prefix_refused(old_view, acks@, i as int, e);
                        assert(self@ == (ClusterView { replicas: prefix_applied(old_view, acks@, i + 1, e), ..old_view }));
                        assert(!old_view.refusing(acks@.to_set(), e).is_empty());
                    }
                    return Err(err);
                },
                Ok(_) => {},
            }
            i = i + 1;
        }
        proof {
            lemma_prefix_complete(old_view, acks@, e);
        }
        Ok(())
    }

    /// Applies `entry` to replica `id` alone.
    fn apply_one(&mut self, id: NodeId, entry: &LogEntry) -> (r: Result<bool, RaftBlockError>)
        requires
            old(self).wf(),
            old(self)@.replicas.contains_key(id),
        ensures
            final(self).wf(),
            (r, final(self)@.replicas[id]) == old(self)@.replicas[id].apply_outcome(entry@),
            final(self)@ == (ClusterView {
                replicas: old(self)@.replicas.insert(id, old(self)@.replicas[id].apply_outcome(entry@).1),
                ..old(self)@
            }),
    {
        proof {
            self.lemma_replicas_view();
        }
        let ghost before = self@;
        let removed = self.replicas.remove(&id);
        let mut rep = removed.unwrap();
        let res = rep.apply(entry);
        self.replicas.insert(id, rep);
        proof {
            self.lemma_replicas_view();
            assert(self@.replicas =~= before.replicas.insert(id, before.replicas[id].apply_outcome(entry@).1));
            assert forall|x: NodeId| #[trigger] self@.replicas.contains_key(x) implies replica_view_wf(
                self@.replicas[x],
            ) && self@.replicas[x].id == x by {
                if x != id {
                    assert(before.replicas.contains_key(x));
                }
            }
        }
        res
    }

    /// Commits `entry` if a quorum of distinct reachable replicas all
    /// accept it: every acknowledging replica is checked before any is
    /// changed, then the entry is applied to them in increasing id order.
    #[verifier::rlimit(40)]
    fn commit_entry(&mut self, entry: LogEntry, reachable: &[NodeId]) -> (r: Result<
        CommitOutcome,
        RaftBlockError,
    >)
        requires
            old(self).wf(),
            old(self)@.next_index < u64::MAX,
            entry@.index == old(self)@.next_index,
            entry@.term == old(self)@.current_term,
        ensures
            final(self).wf(),
            final(self)@ == old(self)@.after_commit(reachable@.to_set(), entry@),
            commit_reported(old(self)@, reachable@.to_set(), entry@, r),
    {
        let ghost old_view = self@;
        proof {
            commit_keeps_log_shape(old_view, reachable@.to_set(), entry@);
        }
        let acks = sorted_unique(reachable);
        let quorum = self.quorum();
        if acks.len() < quorum {
            return Err(RaftBlockError::NoQuorum { acks: acks.len(), quorum });
        }
        self.check_acks(&acks, &entry)?;
        self.apply_acks(&acks, &entry)?;
        let copy = entry.duplicate();
        self.committed.push(copy);
        self.next_index = self.next_index + 1;
        proof {
            assert(self@.committed =~= old_view.committed.push(entry@));
        }
        Ok(CommitOutcome { entry, acknowledgements: acks })
    }


    /// Proposes a write through the current leader.
    pub fn propose_write(&mut self, offset: u64, bytes: Vec<u8>, reachable: &[NodeId]) -> (r: Result<
        CommitOutcome,
        RaftBlockError,
    >)
        requires
            old(self).wf(),
            old(self)@.next_index < u64::MAX,
        ensures
            final(self).wf(),
            bytes@.len() == 0 ==> r == Err::<CommitOutcome, RaftBlockError>(RaftBlockError::EmptyWrite)
                && final(self)@ == old(self)@,
            bytes@.len() > 0 ==> {
                let e = write_entry_view(old(self)@.current_term, old(self)@.next_index, offset, bytes@);
                &&& final(self)@ == old(self)@.after_commit(reachable@.to_set(), e)
                &&& commit_reported(old(self)@, reachable@.to_set(), e, r)
            },
    {
        let leader = self.leader_id;
        self.propose_write_from(leader, offset, bytes, reachable)
    }

    /// Proposes a write on behalf of `proposer`, which must be the leader.
    pub fn propose_write_from(&mut self, proposer: NodeId, offset: u64, bytes: Vec<u8>, reachable: &[NodeId]) -> (r:
        Result<CommitOutcome, RaftBlockError>)
        requires
            old(self).wf(),
            old(self)@.next_index < u64::MAX,
        ensures
            final(self).wf(),
            proposer != old(self)@.leader_id ==> r == Err::<CommitOutcome, RaftBlockError>(
                RaftBlockError::NotLeader { node_id: proposer, leader_id: old(self)@.leader_id },
            ) && final(self)@ == old(self)@,
            proposer == old(self)@.leader_id && bytes@.len() == 0 ==> r == Err::<
                CommitOutcome,
                RaftBlockError,
            >(RaftBlockError::EmptyWrite) && final(self)@ == old(self)@,
            proposer == old(self)@.leader_id && bytes@.len() > 0 ==> {
                let e = write_entry_view(old(self)@.current_term, old(self)@.next_index, offset, bytes@);
                &&& final(self)@ == old(self)@.after_commit(reachable@.to_set(), e)
                &&& commit_reported(old(self)@, reachable@.to_set(), e, r)
            },
    {
        self.ensure_leader(proposer)?;
        let entry = LogEntry::write(self.current_term, self.next_index, offset, bytes)?;
        self.commit_entry(entry, reachable)
    }

    /// Proposes a flush through the current leader.
    pub fn propose_flush(&mut self, reachable: &[NodeId]) -> (r: Result<CommitOutcome, RaftBlockError>)
        requires
            old(self).wf(),
            old(self)@.next_index < u64::MAX,
        ensures
            final(self).wf(),
            ({
                let e = flush_entry_view(old(self)@.current_term, old(self)@.next_index);
                &&& final(self)@ == old(self)@.after_commit(reachable@.to_set(), e)
                &&& commit_reported(old(self)@, reachable@.to_set(), e, r)
            }),
    {
        let leader = self.leader_id;
        self.propose_flush_from(leader, reachable)
    }

    /// Proposes a flush on behalf of `proposer`, which must be the leader.
    pub fn propose_flush_from(&mut self, proposer: NodeId, reachable: &[NodeId]) -> (r: Result<
        CommitOutcome,
        RaftBlockError,
    >)
        requires
            old(self).wf(),
            old(self)@.next_index < u64::MAX,
        ensures
            final(self).wf(),
            proposer != old(self)@.leader_id ==> r == Err::<CommitOutcome, RaftBlockError>(
                RaftBlockError::NotLeader { node_id: proposer, leader_id: old(self)@.leader_id },
            ) && final(self)@ == old(self)@,
            proposer == old(self)@.leader_id ==> {
                let e = flush_entry_view(old(self)@.current_term, old(self)@.next_index);
                &&& final(self)@ == old(self)@.after_commit(reachable@.to_set(), e)
                &&& commit_reported(old(self)@, reachable@.to_set(), e, r)
            },
    {
        self.ensure_leader(proposer)?;
        let entry = LogEntry::flush(self.current_term, self.next_index);
        self.commit_entry(entry, reachable)
    }

    /// Replays every retained committed entry, in order, on replica `node_id`;
    /// returns how many took effect (entries it had already applied are skipped).
    pub fn repair_node(&mut self, node_id: NodeId) -> (r: Result<usize, RaftBlockError>)
        requires
            old(self).wf(),
        ensures
            final(self).wf(),
            !old(self)@.replicas.contains_key(node_id) ==> r == Err::<usize, RaftBlockError>(
                RaftBlockError::NodeNotFound(node_id),
            ) && final(self)@ == old(self)@,
            old(self)@.replicas.contains_key(node_id) ==> {
                let (res, rep) = replay(old(self)@.replicas[node_id], old(self)@.committed);
                &&& final(self)@ == (ClusterView {
                    replicas: old(self)@.replicas.insert(node_id, rep),
                    ..old(self)@
                })
                &&& match res {
                    Ok(n) => r == Ok::<usize, RaftBlockError>(n as usize),
                    Err(err) => r == Err::<usize, RaftBlockError>(err),
                }
            },
    {
        proof {
            self.lemma_replicas_view();
        }
        let ghost before = self@;
        if !self.replicas.contains_key(&node_id) {
            return Err(RaftBlockError::NodeNotFound(node_id));
        }
        let ghost before_map = self.replicas@;
        let removed = self.replicas.remove(&node_id);
        let mut rep = removed.unwrap();
        let ghost start = rep@;
        assert(start == before.replicas[node_id]);
        let n = self.committed.len();
        let mut applied: usize = 0;
        let mut i: usize = 0;
        proof {
            assert(before.committed.take(0) =~= Seq::<LogEntryView>::empty());
        }
        while i < n
            invariant
                0 <= i <= n,
                n == self.committed@.len(),
                before.committed == self.committed@.map_values(|e: LogEntry| e@),
                self.replicas@ == before_map.remove(node_id),
                before.replicas == before_map.map_values(|r: Replica| r@),
                cluster_view_wf(before),
                before.replicas.contains_key(node_id),
                before == old(self)@,
                start == before.replicas[node_id],
                rep.wf(),
                rep@.id == node_id,
                self.next_index == before.next_index,
                self.current_term == before.current_term,
                self.leader_id == before.leader_id,
                self.compacted_through == before.compacted_through,
                applied <= i,
                replay(start, before.committed.take(i as int)) == (Ok::<nat, RaftBlockError>(applied as nat), rep@),
            decreases n - i,
        {
            let ghost prev = rep@;
            let took = rep.apply(&self.committed[i]);
            proof {
                let t = before.committed.take(i + 1);
                assert(t.drop_last() =~= before.committed.take(i as int));
                assert(self.committed@[i as int]@ == before.committed[i as int]);
                assert(t.last() == before.committed[i as int]);
                assert((took, rep@) == prev.apply_outcome(t.last()));
            }
            match took {
                Err(err) => {
                    let ghost fin = rep@;
                    self.replicas.insert(node_id, rep);
                    proof {
                        assert(self.replicas@.remove(node_id) =~= before_map.remove(node_id));
                        lemma_replay_err_sticks(start, before.committed, i + 1, before.committed.len() as int);
                        assert(before.committed.take(before.committed.len() as int) =~= before.committed);
                        self.lemma_repair_done(before, before_map, node_id, fin);
                    }
                    return Err(err);
                },
                Ok(true) => {
                    applied = applied + 1;
                },
                Ok(false) => {},
            }
            i = i + 1;
        }
        let ghost fin = rep@;
        self.replicas.insert(node_id, rep);
        proof {
            assert(self.replicas@.remove(node_id) =~= before_map.remove(node_id));
            assert(before.committed.take(n as int) =~= before.committed);
            self.lemma_repair_done(before, before_map, node_id, fin);
        }
        Ok(applied)
    }


    /// After a repaired replica is put back, the cluster is `before` with that replica replaced.
    proof fn lemma_repair_done(&self, before: ClusterView, before_map: Map<NodeId, Replica>, id: NodeId, fin: ReplicaView)
        requires
            cluster_view_wf(before),
            before.replicas == before_map.map_values(|r: Replica| r@),
            before.replicas.contains_key(id),
            self.replicas@.contains_key(id),
            self.replicas@[id]@ == fin,
            replica_view_wf(fin),
            fin.id == id,
            self.replicas@.remove(id) == before_map.remove(id),
            self@.committed == before.committed,
            self@.next_index == before.next_index,
            self@.current_term == before.current_term,
            self@.leader_id == before.leader_id,
            self@.compacted_through == before.compacted_through,
        ensures
            self.wf(),
            self@ == (ClusterView { replicas: before.replicas.insert(id, fin), ..before }),
    {
        self.lemma_replicas_view();
        assert forall|x: NodeId| #[trigger] self.replicas@.contains_key(x) <==> before_map.contains_key(x) by {
            if x != id {
                assert(self.replicas@.remove(id).contains_key(x) == self.replicas@.contains_key(x));
                assert(before_map.remove(id).contains_key(x) == before_map.contains_key(x));
            }
        }
        assert forall|x: NodeId| #[trigger] self.replicas@.contains_key(x) && x != id implies self.replicas@[x] == before_map[x] by {
            assert(self.replicas@.remove(id)[x] == self.replicas@[x]);
            assert(before_map.remove(id)[x] == before_map[x]);
        }
        assert(self@.replicas =~= before.replicas.insert(id, fin));
        assert forall|x: NodeId| #[trigger] self@.replicas.contains_key(x) implies replica_view_wf(
            self@.replicas[x],
        ) && self@.replicas[x].id == x by {
            if x != id {
                assert(before.replicas.contains_key(x));
            }
        }
    }


    /// Reads `len` bytes at `offset` from `node_id`, which must be the leader.
    pub fn read_from(&self, node_id: NodeId, offset: u64, len: usize) -> (r: Result<Vec<u8>, RaftBlockError>)
        requires
            self.wf(),
        ensures
            node_id != self@.leader_id ==> r == Err::<Vec<u8>, RaftBlockError>(
                RaftBlockError::NotLeader { node_id, leader_id: self@.leader_id },
            ),
            node_id == self@.leader_id && !self@.replicas.contains_key(node_id) ==> r == Err::<
                Vec<u8>,
                RaftBlockError,
            >(RaftBlockError::NodeNotFound(node_id)),
            node_id == self@.leader_id && self@.replicas.contains_key(node_id) ==> {
                let bytes = self@.replicas[node_id].bytes;
                &&& offset + len > bytes.len() ==> r == Err::<Vec<u8>, RaftBlockError>(
                    RaftBlockError::OutOfBounds,
                )
                &&& offset + len <= bytes.len() ==> (r matches Ok(out) && out@ == bytes.subrange(
                    offset as int,
                    offset + len,
                ))
            },
    {
        self.ensure_leader(node_id)?;
        let replica = self.replica(node_id)?;
        read_range_of(replica.read_all(), offset, len)
    }

    /// Snapshots the leader at `index` and drops committed entries up to `index`.
    pub fn compact_through(&mut self, index: LogIndex) -> (r: Result<BlockSnapshot, RaftBlockError>)
        requires
            old(self).wf(),
        ensures
            final(self).wf(),
            !old(self)@.replicas.contains_key(old(self)@.leader_id) ==> r == Err::<
                BlockSnapshot,
                RaftBlockError,
            >(RaftBlockError::NodeNotFound(old(self)@.leader_id)) && final(self)@ == old(self)@,
            old(self)@.replicas.contains_key(old(self)@.leader_id) ==> {
                let leader = old(self)@.replicas[old(self)@.leader_id];
                &&& r matches Ok(snap) && snap.replica_id == leader.id && snap.last_included_index
                    == index && snap.highest_term_seen == leader.highest_term_seen && snap.bytes@
                    == leader.bytes
                &&& final(self)@ == (ClusterView {
                    committed: entries_after(old(self)@.committed, index),
                    compacted_through: if index > old(self)@.compacted_through {
                        index
                    } else {
                        old(self)@.compacted_through
                    },
                    ..old(self)@
                })
            },
    {
        let leader_id = self.leader_id;
        let leader = self.replica(leader_id)?;
        let snapshot = leader.snapshot(index);
        let ghost old_view = self@;
        let mut kept: Vec<LogEntry> = Vec::new();
        let n = self.committed.len();
        let mut i: usize = 0;
        proof {
            reveal_with_fuel(Seq::filter, 1);
            assert(old_view.committed.take(0).filter(|e: LogEntryView| e.index > index) =~= Seq::<LogEntryView>::empty());
        }
        while i < n
            invariant
                0 <= i <= n,
                n == self.committed@.len(),
                old_view.committed == self.committed@.map_values(|e: LogEntry| e@),
                kept@.map_values(|e: LogEntry| e@) == old_view.committed.take(i as int).filter(
                    |e: LogEntryView| e.index > index,
                ),
            decreases n - i,
        {
            let ghost before = kept@.map_values(|e: LogEntry| e@);
            proof {
                reveal_with_fuel(Seq::filter, 1);
                let t = old_view.committed.take(i + 1);
                assert(t.drop_last() =~= old_view.committed.take(i as int));
                assert(t.last() == self.committed@[i as int]@);
            }
            if self.committed[i].index > index {
                let copy = self.committed[i].duplicate();
                kept.push(copy);
                assert(kept@.map_values(|e: LogEntry| e@) =~= before.push(self.committed@[i as int]@));
            }
            i = i + 1;
        }
        proof {
            assert(old_view.committed.take(n as int) =~= old_view.committed);
        }
        self.committed = kept;
        if index > self.compacted_through {
            self.compacted_through = index;
        }
        proof {
            assert(self@.replicas =~= old_view.replicas);
            compaction_keeps_log_shape(old_view, index);
        }
        Ok(snapshot)
    }

    /// Moves to the next term; leadership passes to the least other replica id, if any.
    pub fn advance_term(&mut self) -> (t: Term)
        requires
            old(self).wf(),
            old(self)@.current_term < u64::MAX,
        ensures
            final(self).wf(),
            t == old(self)@.current_term + 1,
            final(self)@ == (ClusterView {
                current_term: t,
                leader_id: old(self)@.next_leader(),
                ..old(self)@
            }),
    {
        let ghost old_view = self@;
        let best = least_other_key(&self.replicas, self.leader_id);
        proof {
            self.lemma_replicas_view();
            lemma_leader_choice(old_view, best);
        }
        self.current_term = self.current_term + 1;
        match best {
            Some(b) => {
                self.leader_id = b;
            },
            None => {},
        }
        proof {
            assert(self@.replicas =~= old_view.replicas);
            term_change_keeps_log_shape(old_view, self.current_term, self.leader_id);
        }
        self.current_term
    }

    /// The replica with id `id`, to be changed in place.
    pub fn replica_mut(&mut self, id: NodeId) -> (r: Result<&mut Replica, RaftBlockError>)
        ensures
            r matches Ok(_) <==> old(self)@.replicas.contains_key(id),
            r matches Err(e) ==> e == RaftBlockError::NodeNotFound(id) && final(self)@ == old(self)@,
            r matches Ok(rep) ==> rep@ == old(self)@.replicas[id] && final(self)@ == (ClusterView {
                replicas: old(self)@.replicas.insert(id, final(rep)@),
                ..old(self)@
            }),
    {
        broadcast use lemma_replica_views_insert;
        if !self.replicas.contains_key(&id) {
            return Err(RaftBlockError::NodeNotFound(id));
        }
        proof {
            self.lemma_replicas_view();
        }
        Ok(btree_get_mut(&mut self.replicas, id))
    }

    /// Fails with `NotLeader` unless `node_id` is the current leader.
    fn ensure_leader(&self, node_id: NodeId) -> (r: Result<(), RaftBlockError>)
        ensures
            r matches Ok(_) <==> node_id == self@.leader_id,
            r matches Err(e) ==> e == (RaftBlockError::NotLeader { node_id, leader_id: self@.leader_id }),
    {
        if node_id == self.leader_id {
            Ok(())
        } else {
            Err(RaftBlockError::NotLeader { node_id, leader_id: self.leader_id })
        }
    }
}

} // verus!
