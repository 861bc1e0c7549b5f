use nexus_core::block::VoteOutcome;
use nexus_core::raft_vote::{request_vote, vote_outcome, VoteState};

fn v(term: u64, node_id: u64) -> VoteState {
    VoteState { term, node_id, committed: false }
}

#[test]
fn first_vote_is_granted_and_held() {
    let (held, out) = request_vote(None, 3, 2);
    assert_eq!(held, Some(v(3, 2)));
    assert_eq!(out, VoteOutcome { granted: true, term: 3, voted_for: Some(2), committed: false });
}

#[test]
fn one_candidate_per_term() {
    let (held, _) = request_vote(None, 3, 2);
    let (held2, out) = request_vote(held, 3, 1);
    assert!(!out.granted);
    assert_eq!(held2, Some(v(3, 2)));
    let (_, again) = request_vote(held2, 3, 2);
    assert!(again.granted);
}

#[test]
fn newer_terms_win_and_older_terms_lose() {
    let (held, out) = request_vote(Some(v(3, 2)), 4, 1);
    assert!(out.granted);
    assert_eq!(held, Some(v(4, 1)));
    let (held, out) = request_vote(held, 2, 5);
    assert!(!out.granted);
    assert_eq!(held, Some(v(4, 1)));
    assert_eq!(out.term, 4);
}

#[test]
fn committed_vote_is_not_granted_again() {
    let committed = VoteState { term: 5, node_id: 1, committed: true };
    let (held, out) = request_vote(Some(committed), 5, 1);
    assert!(!out.granted);
    assert_eq!(held, Some(committed));
    assert_eq!(out, VoteOutcome { granted: false, term: 5, voted_for: Some(1), committed: true });
}

#[test]
fn no_vote_reports_term_zero() {
    assert_eq!(
        vote_outcome(None, false),
        VoteOutcome { granted: false, term: 0, voted_for: Some(0), committed: false }
    );
}

#[test]
fn openraft_storage_harness_rejects_conflicting_vote() {
    let (held, out) = request_vote(None, 2, 2);
    assert_eq!(out, VoteOutcome { granted: true, term: 2, voted_for: Some(2), committed: false });
    let (held, out) = request_vote(held, 2, 3);
    assert_eq!(out, VoteOutcome { granted: false, term: 2, voted_for: Some(2), committed: false });
    let (_, out) = request_vote(held, 3, 3);
    assert_eq!(out, VoteOutcome { granted: true, term: 3, voted_for: Some(3), committed: false });
}

