//! Granting votes in a leader election: a replica votes for at most one
//! candidate per term and never goes back to an older term.

use vstd::prelude::*;
use crate::block::{NodeId, Term, VoteOutcome};

verus! {

/// The vote a replica holds: the term and candidate it voted for, and
/// whether that candidate has been confirmed leader.
#[derive(Debug, Clone, Copy, PartialEq, Eq, Structural)]
pub struct VoteState {
    pub term: Term,
    pub node_id: NodeId,
    pub committed: bool,
}

/// Calls openraft's ordering of votes on `Vote::new(term, node)` and the held
/// vote. openraft (without its `single-term-leader` feature) orders votes by
/// term, then candidate id, then committed after uncommitted; a fresh vote is
/// uncommitted, so it is greater exactly when its term is greater, or its
/// term is equal and its candidate id is greater.
#[verifier::external_body]
fn vote_is_greater(term: Term, node: NodeId, held: VoteState) -> (b: bool)
    ensures
        b == (term > held.term || (term == held.term && node > held.node_id)),
{
    let current = openraft::Vote {
        leader_id: openraft::LeaderId::new(held.term, held.node_id),
        committed: held.committed,
    };
    openraft::Vote::<NodeId>::new(term, node) > current
}

/// Calls openraft's equality of votes on `Vote::new(term, node)` and the held
/// vote: equal when term and candidate agree and the held vote is uncommitted.
#[verifier::external_body]
fn vote_is_same(term: Term, node: NodeId, held: VoteState) -> (b: bool)
    ensures
        b == (term == held.term && node == held.node_id && !held.committed),
{
    let current = openraft::Vote {
        leader_id: openraft::LeaderId::new(held.term, held.node_id),
        committed: held.committed,
    };
    openraft::Vote::<NodeId>::new(term, node) == current
}

/// The vote held after `candidate` asks for one at `term`, and whether it
/// is granted: a replica that voted for another candidate in the same term
/// refuses; one with no vote, or whose vote is older (by term, then by
/// candidate id), switches to the request and grants it; the same
/// uncommitted vote asked again is granted again; anything else is refused.
pub open spec fn vote_next(current: Option<VoteState>, term: Term, candidate: NodeId) -> (Option<VoteState>, bool) {
    let requested = VoteState { term, node_id: candidate, committed: false };
    match current {
        None => (Some(requested), true),
        Some(c) => if c.term == term && c.node_id != candidate {
            (current, false)
        } else if term > c.term || (term == c.term && candidate > c.node_id) {
            (Some(requested), true)
        } else if term == c.term && candidate == c.node_id && !c.committed {
            (current, true)
        } else {
            (current, false)
        },
    }
}

/// What a vote request is answered with: whether it was granted and the
/// vote now held (term 0 for candidate 0 when none is held).
pub open spec fn vote_answer(held: Option<VoteState>, granted: bool) -> VoteOutcome {
    let v = match held {
        Some(v) => v,
        None => VoteState { term: 0, node_id: 0, committed: false },
    };
    VoteOutcome { granted, term: v.term, voted_for: Some(v.node_id), committed: v.committed }
}

/// The answer that reports the vote held and whether a request was granted.
pub fn vote_outcome(held: Option<VoteState>, granted: bool) -> (o: VoteOutcome)
    ensures
        o == vote_answer(held, granted),
{
    let v = match held {
        Some(v) => v,
        None => VoteState { term: 0, node_id: 0, committed: false },
    };
    VoteOutcome { granted, term: v.term, voted_for: Some(v.node_id), committed: v.committed }
}

/// Decides a vote request, as `vote_next` describes, and answers it.
pub fn request_vote(current: Option<VoteState>, term: Term, candidate: NodeId) -> (r: (Option<VoteState>, VoteOutcome))
    ensures
        r.0 == vote_next(current, term, candidate).0,
        r.1 == vote_answer(r.0, vote_next(current, term, candidate).1),
{
    let requested = VoteState { term, node_id: candidate, committed: false };
    let (held, granted) = match current {
        None => (Some(requested), true),
        Some(c) => {
            if c.term == term && c.node_id != candidate {
                (current, false)
            } else if vote_is_greater(term, candidate, c) {
                (Some(requested), true)
            } else if vote_is_same(term, candidate, c) {
                (current, true)
            } else {
                (current, false)
            }
        },
    };
    (held, vote_outcome(held, granted))
}

/// A replica grants at most one candidate per term: once it has granted a
/// vote to `a` at `term`, a request from any other candidate at that term
/// is refused.
pub proof fn one_vote_per_term(current: Option<VoteState>, term: Term, a: NodeId, b: NodeId)
    requires
        a != b,
        vote_next(current, term, a).1,
    ensures
        !vote_next(vote_next(current, term, a).0, term, b).1,
{
}

/// The term of the vote a replica holds never goes down.
pub proof fn vote_term_never_decreases(current: Option<VoteState>, term: Term, candidate: NodeId)
    requires
        current is Some,
    ensures
        vote_next(current, term, candidate).0 matches Some(v) && v.term >= current->0.term,
{
}

/// Asking again for a vote that was just granted is granted again and
/// changes nothing.
pub proof fn repeated_vote_request_is_granted(current: Option<VoteState>, term: Term, candidate: NodeId)
    requires
        vote_next(current, term, candidate).1,
    ensures
        vote_next(vote_next(current, term, candidate).0, term, candidate) == (
            vote_next(current, term, candidate).0,
            true,
        ),
{
}

/// A request at a term later than the held vote's is always granted and
/// replaces the held vote with the uncommitted requested vote, whether or
/// not the held vote was committed; a replica with no vote grants any request.
pub proof fn later_term_always_wins(current: Option<VoteState>, term: Term, candidate: NodeId)
    requires
        current matches Some(c) ==> term > c.term,
    ensures
        vote_next(current, term, candidate) == (Some(VoteState { term, node_id: candidate, committed: false }), true),
{
}

/// A request at a term earlier than the held vote's is refused and leaves
/// the held vote as it is.
pub proof fn earlier_term_always_loses(c: VoteState, term: Term, candidate: NodeId)
    requires
        term < c.term,
    ensures
        vote_next(Some(c), term, candidate) == (Some(c), false),
{
}

/// At the held vote's own term: another candidate is refused; the same
/// candidate is granted again while the vote is uncommitted and refused once
/// it is committed; either way the held vote stays.
pub proof fn same_term_keeps_the_vote(c: VoteState, candidate: NodeId)
    ensures
        vote_next(Some(c), c.term, candidate) == (Some(c), candidate == c.node_id && !c.committed),
{
}

/// Whatever is asked, a granted request leaves the requested, uncommitted
/// vote held, and a refused one leaves the held vote unchanged.
pub proof fn grant_holds_the_request(current: Option<VoteState>, term: Term, candidate: NodeId)
    ensures
        vote_next(current, term, candidate).1 ==> vote_next(current, term, candidate).0 == Some(
            VoteState { term, node_id: candidate, committed: false },
        ),
        !vote_next(current, term, candidate).1 ==> vote_next(current, term, candidate).0 == current,
{
}

/// The answer reports the vote held afterwards and whether it was granted.
pub proof fn answer_reports_held_vote(held: VoteState, granted: bool)
    ensures
        vote_answer(Some(held), granted) == (VoteOutcome {
            granted,
            term: held.term,
            voted_for: Some(held.node_id),
            committed: held.committed,
        }),
{
}

} // verus!
