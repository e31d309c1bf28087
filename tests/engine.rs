use hive::codec::RequestVote;
use hive::consensus::{Action, ConsensusState, Event, Role};

fn request(term: u32, candidate_id: u32) -> RequestVote {
    RequestVote { term, candidate_id, last_log_term: 0, last_log_index: 0 }
}

#[test]
fn election_of_a_among_three() {
    let (a_id, b_id, c_id) = (1u32, 2u32, 3u32);
    let mut a = ConsensusState::new(a_id, 3);
    let mut b = ConsensusState::new(b_id, 3);
    let mut c = ConsensusState::new(c_id, 3);
    for n in [&a, &b, &c] {
        assert_eq!(n.role(), Role::Follower);
        assert_eq!(n.current_term(), 0);
    }

    let req = match a.handle(Event::ElectionTimeout) {
        Action::BroadcastVoteRequest(r) => r,
        other => panic!("unexpected {:?}", other),
    };
    assert_eq!(req, request(1, a_id));
    assert_eq!(a.role(), Role::Candidate);
    assert_eq!(a.current_term(), 1);
    assert_eq!(a.voted_for(), Some(a_id));
    assert_eq!(a.votes_received(), vec![a_id]);

    for n in [&mut b, &mut c] {
        assert_eq!(
            n.handle(Event::VoteRequest(req)),
            Action::GrantVote { term: 1, candidate: a_id }
        );
        assert_eq!(n.current_term(), 1);
        assert_eq!(n.voted_for(), Some(a_id));
        assert_eq!(n.role(), Role::Follower);
    }

    assert_eq!(a.handle(Event::VoteGranted { term: 1, voter: b_id }), Action::StartHeartbeats);
    assert_eq!(a.role(), Role::Leader);
    assert_eq!(a.handle(Event::VoteGranted { term: 1, voter: c_id }), Action::Nothing);
    assert_eq!(a.role(), Role::Leader);

    let hb = a.heartbeat().unwrap();
    assert_eq!((hb.term, hb.leader_id, hb.leader_commit), (1, a_id, 0));
    assert!(hb.entries.is_empty());
    assert!(b.heartbeat().is_none());
}

fn leader_at_term_five() -> ConsensusState {
    let mut n = ConsensusState::new(1, 3);
    n.handle(Event::Heartbeat { term: 4, leader_id: 2 });
    n.handle(Event::ElectionTimeout);
    n.handle(Event::VoteGranted { term: 5, voter: 3 });
    assert_eq!(n.role(), Role::Leader);
    assert_eq!(n.current_term(), 5);
    n
}

#[test]
fn stale_vote_request_is_ignored_by_leader() {
    let mut n = leader_at_term_five();
    assert_eq!(n.handle(Event::VoteRequest(request(3, 2))), Action::Nothing);
    assert_eq!(n.role(), Role::Leader);
    assert_eq!(n.current_term(), 5);
    assert_eq!(n.voted_for(), Some(1));
}

#[test]
fn leader_steps_down_on_newer_term() {
    let mut n = leader_at_term_five();
    assert_eq!(n.handle(Event::Heartbeat { term: 6, leader_id: 3 }), Action::Nothing);
    assert_eq!(n.role(), Role::Follower);
    assert_eq!(n.current_term(), 6);
    assert_eq!(n.voted_for(), None);
}

#[test]
fn term_never_decreases_under_replay() {
    let mut n = ConsensusState::new(7, 5);
    let events = [
        Event::VoteRequest(request(4, 1)),
        Event::VoteRequest(request(2, 3)),
        Event::Heartbeat { term: 1, leader_id: 2 },
        Event::VoteRequest(request(4, 1)),
        Event::ElectionTimeout,
        Event::VoteGranted { term: 3, voter: 1 },
        Event::VoteRequest(request(4, 1)),
    ];
    let mut last = n.current_term();
    for e in events {
        n.handle(e);
        assert!(n.current_term() >= last);
        last = n.current_term();
    }
    assert_eq!(last, 5);
}

#[test]
fn one_vote_per_term() {
    let mut n = ConsensusState::new(9, 5);
    assert_eq!(n.handle(Event::VoteRequest(request(2, 1))), Action::GrantVote { term: 2, candidate: 1 });
    assert_eq!(n.handle(Event::VoteRequest(request(2, 3))), Action::Nothing);
    assert_eq!(n.voted_for(), Some(1));
    // The same candidate asking again gets the same answer.
    assert_eq!(n.handle(Event::VoteRequest(request(2, 1))), Action::GrantVote { term: 2, candidate: 1 });
    // A new term frees the vote.
    assert_eq!(n.handle(Event::VoteRequest(request(3, 3))), Action::GrantVote { term: 3, candidate: 3 });
    assert_eq!(n.voted_for(), Some(3));
}

#[test]
fn candidate_log_must_not_be_behind() {
    let ask = |last_log_term: u32, last_log_index: u32| {
        let mut n = ConsensusState::new(9, 3);
        n.set_last_log(2, 5);
        n.handle(Event::VoteRequest(RequestVote { term: 1, candidate_id: 4, last_log_term, last_log_index }))
    };
    let granted = Action::GrantVote { term: 1, candidate: 4 };
    assert_eq!(ask(2, 5), granted);
    assert_eq!(ask(2, 6), granted);
    assert_eq!(ask(3, 0), granted);
    assert_eq!(ask(2, 4), Action::Nothing);
    assert_eq!(ask(1, 9), Action::Nothing);
}

#[test]
fn candidate_yields_to_leader_of_same_term() {
    let mut n = ConsensusState::new(1, 3);
    n.handle(Event::ElectionTimeout);
    assert_eq!(n.role(), Role::Candidate);
    n.handle(Event::Heartbeat { term: 1, leader_id: 2 });
    assert_eq!(n.role(), Role::Follower);
    assert_eq!(n.current_term(), 1);
    assert_eq!(n.voted_for(), Some(1));
    assert!(n.votes_received().is_empty());
}

#[test]
fn single_node_cluster_leads_at_once() {
    let mut n = ConsensusState::new(1, 1);
    assert_eq!(n.handle(Event::ElectionTimeout), Action::BroadcastVoteRequest(request(1, 1)));
    assert_eq!(n.role(), Role::Leader);
    assert_eq!(n.handle(Event::ElectionTimeout), Action::Nothing);
    assert_eq!(n.current_term(), 1);
}

#[test]
fn duplicate_and_stale_grants_do_not_count() {
    let mut n = ConsensusState::new(1, 5);
    n.handle(Event::ElectionTimeout);
    n.handle(Event::VoteGranted { term: 1, voter: 2 });
    n.handle(Event::VoteGranted { term: 1, voter: 2 });
    n.handle(Event::VoteGranted { term: 0, voter: 3 });
    assert_eq!(n.role(), Role::Candidate);
    assert_eq!(n.votes_received(), vec![1, 2]);
    assert_eq!(n.handle(Event::VoteGranted { term: 1, voter: 4 }), Action::StartHeartbeats);
    assert_eq!(n.role(), Role::Leader);
}

#[test]
fn term_at_maximum_cannot_start_election() {
    let mut n = ConsensusState::new(1, 3);
    n.handle(Event::Heartbeat { term: u32::MAX, leader_id: 2 });
    assert_eq!(n.handle(Event::ElectionTimeout), Action::Nothing);
    assert_eq!(n.role(), Role::Follower);
    assert_eq!(n.current_term(), u32::MAX);
}
