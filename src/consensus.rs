//! The Follower / Candidate / Leader state machine that drives elections.
//!
//! Every input (a local election timeout or an inbound message) goes through
//! [`ConsensusState::handle`], whose effect is exactly the transition function
//! [`next`]. The safety laws are proved over arbitrary sequences of inputs.
use vstd::prelude::*;
use crate::codec::{AppendEntries, RequestVote};

verus! {

#[derive(Debug, Clone, Copy, PartialEq, Eq, Structural)]
pub enum Role {
    Follower,
    Candidate,
    Leader,
}

/// One input to the engine.
#[derive(Debug, Clone, Copy, PartialEq, Eq, Structural)]
pub enum Event {
    /// The local election timer fired with no heartbeat from a leader.
    ElectionTimeout,
    /// A candidate asks for this node's vote.
    VoteRequest(RequestVote),
    /// `voter` granted its vote for `term` to this node.
    VoteGranted { term: u32, voter: u32 },
    /// A leader's heartbeat or replication message for `term`.
    Heartbeat { term: u32, leader_id: u32 },
}

/// What the driver has to do after an input.
#[derive(Debug, Clone, Copy, PartialEq, Eq, Structural)]
pub enum Action {
    Nothing,
    /// Disseminate this vote request to the cluster.
    BroadcastVoteRequest(RequestVote),
    /// Tell `candidate` that it has this node's vote for `term`.
    GrantVote { term: u32, candidate: u32 },
    /// This node just became leader: start sending heartbeats.
    StartHeartbeats,
}

/// Mathematical value of a [`ConsensusState`].
pub struct ConsensusView {
    pub id: u32,
    pub cluster_size: u32,
    pub role: Role,
    pub term: u32,
    pub voted_for: Option<u32>,
    pub votes: Seq<u32>,
    pub last_log_term: u32,
    pub last_log_index: u32,
    pub commit_index: u32,
}

/// The state that the engine keeps between inputs.
pub struct ConsensusState {
    id: u32,
    cluster_size: u32,
    role: Role,
    current_term: u32,
    voted_for: Option<u32>,
    votes_received: Vec<u32>,
    last_log_term: u32,
    last_log_index: u32,
    commit_index: u32,
}

impl View for ConsensusState {
    type V = ConsensusView;

    closed spec fn view(&self) -> ConsensusView {
        ConsensusView {
            id: self.id,
            cluster_size: self.cluster_size,
            role: self.role,
            term: self.current_term,
            voted_for: self.voted_for,
            votes: self.votes_received@,
            last_log_term: self.last_log_term,
            last_log_index: self.last_log_index,
            commit_index: self.commit_index,
        }
    }
}

/// The invariant that every reachable state keeps.
pub open spec fn wf(s: ConsensusView) -> bool {
    &&& s.votes.no_duplicates()
    &&& s.votes.len() <= u32::MAX
    &&& s.role == Role::Candidate ==> 2 * s.votes.len() <= s.cluster_size
    &&& s.role != Role::Follower ==> s.voted_for == Some(s.id)
    &&& s.role == Role::Follower ==> s.votes.len() == 0
}

/// `votes` out of `cluster_size` is a strict majority.
pub open spec fn is_majority(votes: nat, cluster_size: u32) -> bool {
    2 * votes > cluster_size
}

/// A candidate's log `(term, index)` is not behind the local one.
pub open spec fn log_up_to_date(s: ConsensusView, r: RequestVote) -> bool {
    r.last_log_term > s.last_log_term || (r.last_log_term == s.last_log_term
        && r.last_log_index >= s.last_log_index)
}

/// Adopts `term` if it is newer than the current one, stepping down to Follower.
pub open spec fn adopt_term(s: ConsensusView, term: u32) -> ConsensusView {
    if term > s.term {
        ConsensusView { term, voted_for: None, role: Role::Follower, votes: Seq::empty(), ..s }
    } else {
        s
    }
}

/// Whether `s` grants the vote asked for by `r` (once `r`'s term is adopted).
pub open spec fn grants(s: ConsensusView, r: RequestVote) -> bool {
    &&& r.term == s.term
    &&& (s.voted_for is None || s.voted_for == Some(r.candidate_id))
    &&& log_up_to_date(s, r)
}

/// The state after input `e`.
pub open spec fn next(s: ConsensusView, e: Event) -> ConsensusView {
    match e {
        Event::ElectionTimeout => {
            if s.role == Role::Leader || s.term == u32::MAX {
                s
            } else {
                ConsensusView {
                    term: (s.term + 1) as u32,
                    voted_for: Some(s.id),
                    votes: seq![s.id],
                    role: if is_majority(1, s.cluster_size) {
                        Role::Leader
                    } else {
                        Role::Candidate
                    },
                    ..s
                }
            }
        },
        Event::VoteRequest(r) => {
            let s1 = adopt_term(s, r.term);
            if grants(s1, r) {
                ConsensusView { voted_for: Some(r.candidate_id), ..s1 }
            } else {
                s1
            }
        },
        Event::VoteGranted { term, voter } => {
            let s1 = adopt_term(s, term);
            if s1.role == Role::Candidate && term == s1.term && !s1.votes.contains(voter) {
                let votes = s1.votes.push(voter);
                ConsensusView {
                    votes,
                    role: if is_majority(votes.len(), s1.cluster_size) {
                        Role::Leader
                    } else {
                        Role::Candidate
                    },
                    ..s1
                }
            } else {
                s1
            }
        },
        Event::Heartbeat { term, .. } => {
            let s1 = adopt_term(s, term);
            if term == s1.term && s1.role == Role::Candidate {
                ConsensusView { role: Role::Follower, votes: Seq::empty(), ..s1 }
            } else {
                s1
            }
        },
    }
}

/// What the driver is asked to do after input `e` in state `s`.
pub open spec fn output(s: ConsensusView, e: Event) -> Action {
    match e {
        Event::ElectionTimeout => {
            if s.role == Role::Leader || s.term == u32::MAX {
                Action::Nothing
            } else {
                Action::BroadcastVoteRequest(
                    RequestVote {
                        term: (s.term + 1) as u32,
                        candidate_id: s.id,
                        last_log_term: s.last_log_term,
                        last_log_index: s.last_log_index,
                    },
                )
            }
        },
        Event::VoteRequest(r) => {
            if grants(adopt_term(s, r.term), r) {
                Action::GrantVote { term: r.term, candidate: r.candidate_id }
            } else {
                Action::Nothing
            }
        },
        Event::VoteGranted { .. } => {
            if s.role != Role::Leader && next(s, e).role == Role::Leader {
                Action::StartHeartbeats
            } else {
                Action::Nothing
            }
        },
        Event::Heartbeat { .. } => Action::Nothing,
    }
}

/// The state after the inputs `es`, in order.
pub open spec fn run(s: ConsensusView, es: Seq<Event>) -> ConsensusView
    decreases es.len(),
{
    if es.len() == 0 {
        s
    } else {
        run(next(s, es[0]), es.drop_first())
    }
}

/// Every transition keeps the invariant.
pub proof fn lemma_next_wf(s: ConsensusView, e: Event)
    requires
        wf(s),
    ensures
        wf(next(s, e)),
{
    match e {
        Event::ElectionTimeout => {
            if !(s.role == Role::Leader || s.term == u32::MAX) {
                assert(seq![s.id].no_duplicates());
            }
        },
        Event::VoteGranted { term, voter } => {
            let s1 = adopt_term(s, term);
            if s1.role == Role::Candidate && term == s1.term && !s1.votes.contains(voter) {
                let votes = s1.votes.push(voter);
                assert forall|i: int, j: int|
                    0 <= i < votes.len() && 0 <= j < votes.len() && i != j implies votes[i]
                    != votes[j] by {
                    if i < s1.votes.len() && j < s1.votes.len() {
                    } else if i == s1.votes.len() {
                        assert(votes[i] == voter);
                        assert(votes[j] == s1.votes[j]);
                    } else {
                        assert(votes[j] == voter);
                        assert(votes[i] == s1.votes[i]);
                    }
                }
            }
        },
        _ => {},
    }
}

/// The current term never decreases, whatever inputs arrive, in whatever
/// order, duplicated or replayed.
pub proof fn lemma_term_monotone(s: ConsensusView, es: Seq<Event>)
    ensures
        run(s, es).term >= s.term,
    decreases es.len(),
{
    if es.len() > 0 {
        lemma_term_monotone(next(s, es[0]), es.drop_first());
    }
}

/// A node votes at most once per term: once `voted_for` is set, it stays the
/// same for as long as the term does not change, whatever inputs arrive.
pub proof fn lemma_single_vote_per_term(s: ConsensusView, es: Seq<Event>)
    requires
        wf(s),
        s.voted_for is Some,
        run(s, es).term == s.term,
    ensures
        run(s, es).voted_for == s.voted_for,
    decreases es.len(),
{
    if es.len() > 0 {
        let s1 = next(s, es[0]);
        lemma_next_wf(s, es[0]);
        lemma_term_monotone(s1, es.drop_first());
        assert(s1.term == s.term);
        assert(s1.voted_for == s.voted_for);
        lemma_single_vote_per_term(s1, es.drop_first());
    }
}

/// No state is ever both a candidate and a leader, and every reachable state
/// keeps the invariant.
pub proof fn lemma_run_wf(s: ConsensusView, es: Seq<Event>)
    requires
        wf(s),
    ensures
        wf(run(s, es)),
    decreases es.len(),
{
    if es.len() > 0 {
        lemma_next_wf(s, es[0]);
        lemma_run_wf(next(s, es[0]), es.drop_first());
    }
}

fn contains_id(v: &Vec<u32>, x: u32) -> (r: bool)
    ensures
        r == v@.contains(x),
{
    let mut i: usize = 0;
    while i < v.len()
        invariant
            i <= v@.len(),
            forall|j: int| 0 <= j < i ==> v@[j] != x,
        decreases v.len() - i,
    {
        if v[i] == x {
            return true;
        }
        i = i + 1;
    }
    false
}

impl ConsensusState {
    pub closed spec fn well_formed(&self) -> bool {
        wf(self@)
    }

    /// A Follower at term 0 that has not voted, in a cluster of
    /// `cluster_size` nodes, with an empty log.
    pub fn new(id: u32, cluster_size: u32) -> (r: ConsensusState)
        ensures
            r.well_formed(),
            r@ == (ConsensusView {
                id,
                cluster_size,
                role: Role::Follower,
                term: 0,
                voted_for: None,
                votes: Seq::empty(),
                last_log_term: 0,
                last_log_index: 0,
                commit_index: 0,
            }),
    {
        ConsensusState {
            id,
            cluster_size,
            role: Role::Follower,
            current_term: 0,
            voted_for: None,
            votes_received: Vec::new(),
            last_log_term: 0,
            last_log_index: 0,
            commit_index: 0,
        }
    }

    fn adopt(&mut self, term: u32)
        requires
            wf(old(self)@),
        ensures
            final(self)@ == adopt_term(old(self)@, term),
            wf(final(self)@),
    {
        if term > self.current_term {
            self.current_term = term;
            self.voted_for = None;
            self.role = Role::Follower;
            self.votes_received = Vec::new();
        }
    }

    /// Applies one input and says what the driver has to do next.
    pub fn handle(&mut self, e: Event) -> (r: Action)
        requires
            old(self).well_formed(),
        ensures
            final(self).well_formed(),
            final(self)@ == next(old(self)@, e),
            r == output(old(self)@, e),
    {
        proof {
            lemma_next_wf(self@, e);
        }
        let ghost s0 = self@;
        match e {
            Event::ElectionTimeout => {
                if self.role == Role::Leader || self.current_term == u32::MAX {
                    return Action::Nothing;
                }
                self.current_term = self.current_term + 1;
                self.voted_for = Some(self.id);
                let mut votes: Vec<u32> = Vec::new();
                votes.push(self.id);
                self.votes_received = votes;
                self.role = if 2 > self.cluster_size as u64 {
                    Role::Leader
                } else {
                    Role::Candidate
                };
                assert(self@ == next(s0, e));
                Action::BroadcastVoteRequest(
                    RequestVote {
                        term: self.current_term,
                        candidate_id: self.id,
                        last_log_term: self.last_log_term,
                        last_log_index: self.last_log_index,
                    },
                )
            },
            Event::VoteRequest(r) => {
                self.adopt(r.term);
                let free = match self.voted_for {
                    None => true,
                    Some(c) => c == r.candidate_id,
                };
                let log_ok = r.last_log_term > self.last_log_term || (r.last_log_term
                    == self.last_log_term && r.last_log_index >= self.last_log_index);
                if r.term == self.current_term && free && log_ok {
                    self.voted_for = Some(r.candidate_id);
                    Action::GrantVote { term: r.term, candidate: r.candidate_id }
                } else {
                    Action::Nothing
                }
            },
            Event::VoteGranted { term, voter } => {
                let was_leader = self.role == Role::Leader;
                self.adopt(term);
                if self.role == Role::Candidate && term == self.current_term && !contains_id(
                    &self.votes_received,
                    voter,
                ) {
                    self.votes_received.push(voter);
                    if 2 * (self.votes_received.len() as u64) > self.cluster_size as u64 {
                        self.role = Role::Leader;
                    }
                    assert(self@ == next(s0, e));
                }
                if !was_leader && self.role == Role::Leader {
                    Action::StartHeartbeats
                } else {
                    Action::Nothing
                }
            },
            Event::Heartbeat { term, .. } => {
                self.adopt(term);
                if term == self.current_term && self.role == Role::Candidate {
                    self.role = Role::Follower;
                    self.votes_received = Vec::new();
                    assert(self@ == next(s0, e));
                }
                Action::Nothing
            },
        }
    }

    /// The heartbeat that a leader sends: no entries, its commit index and
    /// last log position. Only a leader sends one.
    pub fn heartbeat(&self) -> (r: Option<AppendEntries>)
        ensures
            r is Some <==> self@.role == Role::Leader,
            r is Some ==> ({
                let m = r->Some_0;
                &&& m.term == self@.term
                &&& m.leader_id == self@.id
                &&& m.leader_commit == self@.commit_index
                &&& m.entries@.len() == 0
                &&& m.previous_log_term == self@.last_log_term
                &&& m.previous_log_index == self@.last_log_index
            }),
    {
        if self.role == Role::Leader {
            Some(
                AppendEntries {
                    term: self.current_term,
                    leader_id: self.id,
                    leader_commit: self.commit_index,
                    entries: Vec::new(),
                    previous_log_term: self.last_log_term,
                    previous_log_index: self.last_log_index,
                },
            )
        } else {
            None
        }
    }

    /// Records the position of the last entry of the local log, against which
    /// candidates' logs are compared.
    pub fn set_last_log(&mut self, last_log_term: u32, last_log_index: u32)
        requires
            old(self).well_formed(),
        ensures
            final(self).well_formed(),
            final(self)@ == (ConsensusView { last_log_term, last_log_index, ..old(self)@ }),
    {
        self.last_log_term = last_log_term;
        self.last_log_index = last_log_index;
    }

    pub fn role(&self) -> (r: Role)
        ensures
            r == self@.role,
    {
        self.role
    }

    pub fn current_term(&self) -> (r: u32)
        ensures
            r == self@.term,
    {
        self.current_term
    }

    pub fn voted_for(&self) -> (r: Option<u32>)
        ensures
            r == self@.voted_for,
    {
        self.voted_for
    }

    /// The nodes that voted for this node in the current election.
    pub fn votes_received(&self) -> (r: Vec<u32>)
        ensures
            r@ == self@.votes,
    {
        self.votes_received.clone()
    }
}

} // verus!
