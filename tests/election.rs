use jmap_cluster::election::{election_timeout, Election, Role, VoteRequest};

#[test]
fn three_peer_election() {
    // Peers A, B, C serve shard 1; A times out first with its log at index 5.
    let mut a = Election::new(1, 10);
    let mut b = Election::new(1, 20);
    let mut c = Election::new(1, 30);
    let req = a.on_election_timeout(5, 1).unwrap();
    assert_eq!(
        req,
        VoteRequest { candidate: 10, term: 1, last_log_index: 5, last_log_term: 1 }
    );
    assert_eq!(a.role, Role::Candidate);
    assert_eq!(a.voted_for, Some(10));
    // B and C are not ahead of A, so both grant.
    assert!(b.handle_request_vote(req, 5, 1));
    assert!(c.handle_request_vote(req, 3, 1));
    assert_eq!(b.term, 1);
    assert_eq!(b.voted_for, Some(10));
    // Self plus one vote is a majority of three.
    assert!(a.handle_vote_response(20, b.term, true, 3));
    assert!(a.is_leader());
    assert_eq!(a.term, 1);
    assert_eq!(a.leader, Some(10));
    // A later vote does not elect it again.
    assert!(!a.handle_vote_response(30, c.term, true, 3));
    assert!(a.is_leader());
}

#[test]
fn one_vote_per_term() {
    let mut b = Election::new(1, 20);
    let first = VoteRequest { candidate: 10, term: 1, last_log_index: 5, last_log_term: 1 };
    let second = VoteRequest { candidate: 30, term: 1, last_log_index: 9, last_log_term: 1 };
    assert!(b.handle_request_vote(first, 5, 1));
    assert!(!b.handle_request_vote(second, 5, 1));
    // Repeating the granted request is answered the same way.
    assert!(b.handle_request_vote(first, 5, 1));
    assert_eq!(b.voted_for, Some(10));
    // A new term frees the vote.
    let third = VoteRequest { candidate: 30, term: 2, last_log_index: 9, last_log_term: 1 };
    assert!(b.handle_request_vote(third, 5, 1));
    assert_eq!(b.voted_for, Some(30));
    assert_eq!(b.term, 2);
}

#[test]
fn vote_refused_to_stale_log() {
    let mut b = Election::new(1, 20);
    let behind = VoteRequest { candidate: 10, term: 3, last_log_index: 4, last_log_term: 2 };
    assert!(!b.handle_request_vote(behind, 5, 2));
    let older_term = VoteRequest { candidate: 10, term: 3, last_log_index: 9, last_log_term: 1 };
    assert!(!b.handle_request_vote(older_term, 5, 2));
    // The term was still adopted.
    assert_eq!(b.term, 3);
    assert_eq!(b.voted_for, None);
}

#[test]
fn split_vote_needs_new_timeout() {
    let mut a = Election::new(1, 10);
    a.on_election_timeout(0, 0).unwrap();
    assert!(!a.handle_vote_response(20, 1, false, 4));
    assert!(!a.handle_vote_response(30, 1, true, 4));
    assert_eq!(a.role, Role::Candidate);
    // Duplicate grants are counted once.
    assert!(!a.handle_vote_response(30, 1, true, 4));
    assert_eq!(a.votes.len(), 2);
    let again = a.on_election_timeout(0, 0).unwrap();
    assert_eq!(again.term, 2);
    assert_eq!(a.votes, vec![10]);
}

#[test]
fn higher_term_reverts_to_follower() {
    let mut a = Election::new(1, 10);
    a.on_election_timeout(0, 0).unwrap();
    assert!(a.handle_vote_response(20, 1, true, 2));
    assert!(a.is_leader());
    // A leader does not time out.
    assert!(a.on_election_timeout(0, 0).is_none());
    // Same-term claims by another leader are refused.
    assert!(!a.handle_append(20, 1));
    assert!(a.is_leader());
    a.observe_term(4);
    assert_eq!(a.role, Role::Follower);
    assert_eq!(a.term, 4);
    assert_eq!(a.leader, None);
    assert!(a.handle_append(20, 4));
    assert_eq!(a.leader, Some(20));
    assert!(!a.handle_append(30, 3));
}

#[test]
fn stale_vote_response_is_ignored() {
    let mut a = Election::new(1, 10);
    a.on_election_timeout(0, 0).unwrap();
    a.on_election_timeout(0, 0).unwrap();
    assert!(!a.handle_vote_response(20, 1, true, 2));
    assert_eq!(a.role, Role::Candidate);
    assert_eq!(a.votes, vec![10]);
}

#[test]
fn election_timeouts_stay_in_range() {
    assert_eq!(election_timeout(150, 300, 0), 150);
    assert_eq!(election_timeout(150, 300, 150), 300);
    assert_eq!(election_timeout(150, 300, 151), 150);
    assert_eq!(election_timeout(150, 300, 1000), 150 + 1000 % 151);
    assert_eq!(election_timeout(7, 7, 12345), 7);
    assert_eq!(election_timeout(0, u64::MAX, 99), 99);
    for r in 0..1000u64 {
        let t = election_timeout(150, 300, r.wrapping_mul(2654435761));
        assert!((150..=300).contains(&t));
    }
}
