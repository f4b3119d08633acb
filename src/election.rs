//! Raft-style leader election for one shard: the state machine, its
//! executable form, and the vote-uniqueness and single-leader laws.
use vstd::prelude::*;

use vstd::set_lib::{lemma_len_subset, lemma_set_intersect_union_lens};

use crate::{LogIndex, PeerId, ShardId, Term};

verus! {

/// Role of this node in one shard's election.
#[derive(Debug, Clone, Copy, PartialEq, Eq, Structural)]
pub enum Role {
    Follower,
    Candidate,
    Leader,
}

/// A candidate's request for a vote, with the position of its log tail.
#[derive(Debug, Clone, Copy, PartialEq, Eq, Structural)]
pub struct VoteRequest {
    pub candidate: PeerId,
    pub term: Term,
    pub last_log_index: LogIndex,
    pub last_log_term: Term,
}

/// Raft's rule: a candidate's log is at least as up to date as ours when
/// its last term is greater, or equal with a last index at least as large.
pub open spec fn log_up_to_date(
    cand_index: LogIndex,
    cand_term: Term,
    my_index: LogIndex,
    my_term: Term,
) -> bool {
    cand_term > my_term || (cand_term == my_term && cand_index >= my_index)
}

/// An election timeout in `[min_ms, max_ms]` chosen by the random number
/// `random`: the random source is the caller's, so that runs can be
/// replayed with fixed draws.
pub fn election_timeout(min_ms: u64, max_ms: u64, random: u64) -> (r: u64)
    requires
        min_ms <= max_ms,
    ensures
        min_ms <= r <= max_ms,
        max_ms - min_ms < u64::MAX ==> r == min_ms + (random as int) % (max_ms - min_ms + 1),
        max_ms - min_ms == u64::MAX ==> r == random,
{
    let span = max_ms - min_ms;
    if span == u64::MAX {
        random
    } else {
        min_ms + random % (span + 1)
    }
}

/// The election state of one node for one shard, as a mathematical value.
pub struct ElectionView {
    pub self_id: PeerId,
    pub role: Role,
    pub term: Term,
    pub voted_for: Option<PeerId>,
    pub votes: Seq<PeerId>,
    pub leader: Option<PeerId>,
}

/// One input to the election state machine.
pub enum ElectionEvent {
    /// The randomized election timeout fired.
    Timeout,
    /// A vote request arrived; the two numbers are this node's own log tail.
    RequestVote(VoteRequest, LogIndex, Term),
    /// A vote response from a peer, with the number of healthy peers of the
    /// shard (this node included) that a majority is counted against.
    VoteResponse(PeerId, Term, bool, nat),
    /// An append or heartbeat from a peer that claims leadership.
    Append(PeerId, Term),
}

impl ElectionView {
    pub open spec fn inv(self) -> bool {
        &&& self.role != Role::Follower ==> self.voted_for == Some(self.self_id)
        &&& self.role == Role::Leader ==> self.leader == Some(self.self_id)
        &&& self.votes.no_duplicates()
    }

    /// Adopts a strictly greater term, reverting to follower.
    pub open spec fn observe(self, term: Term) -> ElectionView {
        if term > self.term {
            ElectionView {
                role: Role::Follower,
                term,
                voted_for: None,
                votes: Seq::empty(),
                leader: None,
                ..self
            }
        } else {
            self
        }
    }

    /// Whether the election timeout starts a new candidacy.
    pub open spec fn starts_election(self) -> bool {
        self.role != Role::Leader && self.term < u64::MAX
    }

    pub open spec fn after_timeout(self) -> ElectionView {
        if self.starts_election() {
            ElectionView {
                role: Role::Candidate,
                term: (self.term + 1) as Term,
                voted_for: Some(self.self_id),
                votes: seq![self.self_id],
                leader: None,
                ..self
            }
        } else {
            self
        }
    }

    pub open spec fn grants_vote(self, req: VoteRequest, my_index: LogIndex, my_term: Term) -> bool {
        let s = self.observe(req.term);
        &&& req.term == s.term
        &&& (s.voted_for == None::<PeerId> || s.voted_for == Some(req.candidate))
        &&& log_up_to_date(req.last_log_index, req.last_log_term, my_index, my_term)
    }

    pub open spec fn after_request_vote(
        self,
        req: VoteRequest,
        my_index: LogIndex,
        my_term: Term,
    ) -> ElectionView {
        let s = self.observe(req.term);
        if self.grants_vote(req, my_index, my_term) {
            ElectionView { voted_for: Some(req.candidate), ..s }
        } else {
            s
        }
    }

    /// Whether a granted vote from `from` is counted.
    pub open spec fn counts_vote(self, term: Term, granted: bool) -> bool {
        let s = self.observe(term);
        s.role == Role::Candidate && term == s.term && granted
    }

    pub open spec fn after_vote_response(
        self,
        from: PeerId,
        term: Term,
        granted: bool,
        quorum: nat,
    ) -> ElectionView {
        let s = self.observe(term);
        if self.counts_vote(term, granted) {
            let votes = if s.votes.contains(from) {
                s.votes
            } else {
                s.votes.push(from)
            };
            if votes.len() * 2 > quorum {
                ElectionView { role: Role::Leader, votes, leader: Some(self.self_id), ..s }
            } else {
                ElectionView { votes, ..s }
            }
        } else {
            s
        }
    }

    /// A claim of leadership is accepted when its term is newer, or equal
    /// while this node is not itself the leader.
    pub open spec fn accepts_append(self, term: Term) -> bool {
        term > self.term || (term == self.term && self.role != Role::Leader)
    }

    pub open spec fn after_append(self, leader: PeerId, term: Term) -> ElectionView {
        if self.accepts_append(term) {
            let s = self.observe(term);
            ElectionView { role: Role::Follower, votes: Seq::empty(), leader: Some(leader), ..s }
        } else {
            self
        }
    }

    pub open spec fn step(self, e: ElectionEvent) -> ElectionView {
        match e {
            ElectionEvent::Timeout => self.after_timeout(),
            ElectionEvent::RequestVote(req, i, t) => self.after_request_vote(req, i, t),
            ElectionEvent::VoteResponse(from, term, granted, quorum) => self.after_vote_response(
                from,
                term,
                granted,
                quorum,
            ),
            ElectionEvent::Append(leader, term) => self.after_append(leader, term),
        }
    }

    /// The vote that this node casts on event `e`, as (term, candidate):
    /// its own vote when it starts an election, or a granted request.
    pub open spec fn vote_cast(self, e: ElectionEvent) -> Option<(Term, PeerId)> {
        match e {
            ElectionEvent::Timeout => if self.starts_election() {
                Some(((self.term + 1) as Term, self.self_id))
            } else {
                None
            },
            ElectionEvent::RequestVote(req, i, t) => if self.grants_vote(req, i, t) {
                Some((req.term, req.candidate))
            } else {
                None
            },
            _ => None,
        }
    }
}

/// The state reached from `s` after the events `es`, in order.
pub open spec fn run(s: ElectionView, es: Seq<ElectionEvent>) -> ElectionView
    decreases es.len(),
{
    if es.len() == 0 {
        s
    } else {
        run(s, es.drop_last()).step(es.last())
    }
}

/// The vote cast by the `i`-th event of `es`, run from `s`.
pub open spec fn vote_at(s: ElectionView, es: Seq<ElectionEvent>, i: int) -> Option<(Term, PeerId)> {
    run(s, es.subrange(0, i)).vote_cast(es[i])
}

/// Every step keeps the well-formedness of the state, never lowers the
/// term, and keeps a vote already cast in an unchanged term.
pub proof fn lemma_step(s: ElectionView, e: ElectionEvent)
    requires
        s.inv(),
    ensures
        s.step(e).inv(),
        s.step(e).term >= s.term,
        s.step(e).term == s.term && s.voted_for is Some ==> s.step(e).voted_for == s.voted_for,
        s.vote_cast(e) matches Some((t, c)) ==> s.step(e).term == t && s.step(e).voted_for == Some(c),
{
    match e {
        ElectionEvent::VoteResponse(from, term, granted, quorum) => {
            let o = s.observe(term);
            if s.counts_vote(term, granted) && !o.votes.contains(from) {
                assert forall|a: int, b: int|
                    0 <= a < b < o.votes.push(from).len() implies o.votes.push(from)[a]
                    != o.votes.push(from)[b] by {
                    if b == o.votes.len() {
                        assert(o.votes.contains(o.votes[a]));
                    }
                }
            }
        },
        _ => {},
    }
}

pub proof fn lemma_contains_push<A>(s: Seq<A>, last: A, x: A)
    ensures
        s.push(last).contains(x) == (s.contains(x) || last == x),
{
    if s.contains(x) {
        let k = choose|k: int| 0 <= k < s.len() && s[k] == x;
        assert(s.push(last)[k] == x);
    }
    if last == x {
        assert(s.push(last)[s.len() as int] == x);
    }
    if s.push(last).contains(x) && last != x {
        let k = choose|k: int| 0 <= k < s.len() + 1 && s.push(last)[k] == x;
        assert(s[k] == x);
    }
}

proof fn lemma_run_step(s: ElectionView, es: Seq<ElectionEvent>, k: int)
    requires
        0 <= k < es.len(),
    ensures
        run(s, es.subrange(0, k + 1)) == run(s, es.subrange(0, k)).step(es[k]),
{
    assert(es.subrange(0, k + 1).drop_last() =~= es.subrange(0, k));
}

/// After `k` events, every vote cast earlier in the run at term `t` is the
/// vote currently recorded for `t`, or the node has moved to a later term.
proof fn lemma_votes_recorded(s: ElectionView, es: Seq<ElectionEvent>, k: int, i: int)
    requires
        s.inv(),
        0 <= i < k <= es.len(),
        vote_at(s, es, i) is Some,
    ensures
        run(s, es.subrange(0, k)).inv(),
        ({
            let (t, c) = vote_at(s, es, i).unwrap();
            let r = run(s, es.subrange(0, k));
            r.term > t || (r.term == t && r.voted_for == Some(c))
        }),
    decreases k,
{
    lemma_run_inv(s, es, k - 1);
    lemma_run_step(s, es, k - 1);
    let prev = run(s, es.subrange(0, k - 1));
    lemma_step(prev, es[k - 1]);
    if i < k - 1 {
        lemma_votes_recorded(s, es, k - 1, i);
    }
}

proof fn lemma_run_inv(s: ElectionView, es: Seq<ElectionEvent>, k: int)
    requires
        s.inv(),
        0 <= k <= es.len(),
    ensures
        run(s, es.subrange(0, k)).inv(),
    decreases k,
{
    if k == 0 {
        assert(es.subrange(0, 0) =~= Seq::<ElectionEvent>::empty());
    } else {
        lemma_run_inv(s, es, k - 1);
        lemma_run_step(s, es, k - 1);
        lemma_step(run(s, es.subrange(0, k - 1)), es[k - 1]);
    }
}

/// Vote uniqueness: along any run of events from a well-formed state, a node
/// never casts votes for two different candidates in the same term.
pub proof fn lemma_vote_uniqueness(s: ElectionView, es: Seq<ElectionEvent>, i: int, j: int)
    requires
        s.inv(),
        0 <= i < j < es.len(),
        vote_at(s, es, i) is Some,
        vote_at(s, es, j) is Some,
        vote_at(s, es, i).unwrap().0 == vote_at(s, es, j).unwrap().0,
    ensures
        vote_at(s, es, i).unwrap().1 == vote_at(s, es, j).unwrap().1,
{
    lemma_votes_recorded(s, es, j, i);
}

/// The state of node `v` before it has seen any event.
pub open spec fn fresh_view(v: PeerId) -> ElectionView {
    ElectionView {
        self_id: v,
        role: Role::Follower,
        term: 0,
        voted_for: None,
        votes: Seq::empty(),
        leader: None,
    }
}

/// Node `v` cast a vote for `c` in term `t` somewhere in its run.
pub open spec fn cast_vote(events: Map<PeerId, Seq<ElectionEvent>>, v: PeerId, t: Term, c: PeerId) -> bool {
    exists|j: int| 0 <= j < events[v].len() && vote_at(fresh_view(v), events[v], j) == Some((t, c))
}

/// The runs of a shard's `members`, each from a fresh state, where every
/// granted vote response that a member receives comes from a member that
/// really cast that vote, and majorities are counted against all members.
pub open spec fn genuine_runs(members: Set<PeerId>, events: Map<PeerId, Seq<ElectionEvent>>) -> bool {
    &&& members.finite()
    &&& forall|v: PeerId| #[trigger] members.contains(v) ==> events.dom().contains(v)
    &&& forall|c: PeerId, i: int|
        #![trigger members.contains(c), events[c][i]]
        members.contains(c) && 0 <= i < events[c].len() ==> match events[c][i] {
            ElectionEvent::VoteResponse(from, t, granted, quorum) => granted ==> {
                &&& quorum == members.len()
                &&& members.contains(from)
                &&& cast_vote(events, from, t, c)
            },
            _ => true,
        }
}

/// The state of member `c` after the first `k` events of its run.
pub open spec fn state_at(events: Map<PeerId, Seq<ElectionEvent>>, c: PeerId, k: int) -> ElectionView {
    run(fresh_view(c), events[c].subrange(0, k))
}

proof fn lemma_quorums_intersect(m: Set<PeerId>, a: Set<PeerId>, b: Set<PeerId>)
    requires
        m.finite(),
        a.subset_of(m),
        b.subset_of(m),
        a.len() * 2 > m.len(),
        b.len() * 2 > m.len(),
    ensures
        exists|p: PeerId| a.contains(p) && b.contains(p),
{
    lemma_len_subset(a, m);
    lemma_len_subset(b, m);
    lemma_len_subset(a + b, m);
    lemma_set_intersect_union_lens(a, b);
    if !exists|p: PeerId| a.contains(p) && b.contains(p) {
        assert(a.intersect(b) =~= Set::empty());
    }
}

/// Along a genuine run, a candidate or leader counts only votes that
/// members really cast for it in its current term, and a leader holds
/// votes from a majority of the members.
proof fn lemma_counted_votes(members: Set<PeerId>, events: Map<PeerId, Seq<ElectionEvent>>, c: PeerId, k: int)
    requires
        genuine_runs(members, events),
        members.contains(c),
        0 <= k <= events[c].len(),
    ensures
        state_at(events, c, k).inv(),
        state_at(events, c, k).self_id == c,
        state_at(events, c, k).role != Role::Follower ==> forall|p: PeerId| #[trigger]
            state_at(events, c, k).votes.contains(p) ==> members.contains(p) && cast_vote(
                events,
                p,
                state_at(events, c, k).term,
                c,
            ),
        state_at(events, c, k).role == Role::Leader ==> state_at(events, c, k).votes.len() * 2
            > members.len(),
    decreases k,
{
    let es = events[c];
    if k == 0 {
        assert(es.subrange(0, 0) =~= Seq::<ElectionEvent>::empty());
    } else {
        lemma_counted_votes(members, events, c, k - 1);
        lemma_run_step(fresh_view(c), es, k - 1);
        let s = state_at(events, c, k - 1);
        let e = es[k - 1];
        lemma_step(s, e);
        let n = s.step(e);
        assert(n == state_at(events, c, k));
        match e {
            ElectionEvent::Timeout => {
                if s.starts_election() {
                    assert(vote_at(fresh_view(c), es, k - 1) == Some((n.term, c)));
                    assert(cast_vote(events, c, n.term, c));
                    assert forall|p: PeerId| #[trigger] n.votes.contains(p) implies members.contains(p)
                        && cast_vote(events, p, n.term, c) by {
                        assert(n.votes == seq![c]);
                        assert(n.votes[0] == c);
                    }
                }
            },
            ElectionEvent::VoteResponse(from, t, granted, quorum) => {
                assert(members.contains(c) && 0 <= k - 1 < events[c].len());
                assert(events[c][k - 1] == e);
                if s.counts_vote(t, granted) {
                    let o = s.observe(t);
                    assert(o == s);
                    assert forall|p: PeerId| #[trigger] n.votes.contains(p) implies members.contains(p)
                        && cast_vote(events, p, n.term, c) by {
                        if !o.votes.contains(from) {
                            lemma_contains_push(o.votes, from, p);
                        }
                    }
                }
            },
            _ => {},
        }
    }
}

/// Single-leader safety: in genuine runs of a shard's members, two members
/// that each believe themselves leader of the same term, at any points of
/// their runs, are the same member.
///
/// This holds when every member counts its majority against the full
/// membership of the shard (`genuine_runs`). `Cluster::handle_vote_response`
/// counts against the healthy peers this node sees, plus itself; when two
/// nodes' views of which peers are healthy differ, each may reach a majority
/// of its own view in the same term (with five members, two nodes that each
/// see no healthy peer and each win one vote both lead), so the guarantee
/// is only as good as the agreement of those views.
pub proof fn lemma_single_leader(
    members: Set<PeerId>,
    events: Map<PeerId, Seq<ElectionEvent>>,
    a: PeerId,
    ka: int,
    b: PeerId,
    kb: int,
)
    requires
        genuine_runs(members, events),
        members.contains(a),
        members.contains(b),
        0 <= ka <= events[a].len(),
        0 <= kb <= events[b].len(),
        state_at(events, a, ka).role == Role::Leader,
        state_at(events, b, kb).role == Role::Leader,
        state_at(events, a, ka).term == state_at(events, b, kb).term,
    ensures
        a == b,
{
    lemma_counted_votes(members, events, a, ka);
    lemma_counted_votes(members, events, b, kb);
    let sa = state_at(events, a, ka);
    let sb = state_at(events, b, kb);
    let t = sa.term;
    sa.votes.unique_seq_to_set();
    sb.votes.unique_seq_to_set();
    let va = sa.votes.to_set();
    let vb = sb.votes.to_set();
    assert(va.subset_of(members));
    assert(vb.subset_of(members));
    lemma_quorums_intersect(members, va, vb);
    let p = choose|p: PeerId| va.contains(p) && vb.contains(p);
    assert(sa.votes.contains(p));
    assert(sb.votes.contains(p));
    let i = choose|j: int| 0 <= j < events[p].len() && vote_at(fresh_view(p), events[p], j) == Some((t, a));
    let j = choose|j: int| 0 <= j < events[p].len() && vote_at(fresh_view(p), events[p], j) == Some((t, b));
    if i < j {
        lemma_vote_uniqueness(fresh_view(p), events[p], i, j);
    } else if j < i {
        lemma_vote_uniqueness(fresh_view(p), events[p], j, i);
    }
}

/// Term and vote bookkeeping of this node for one shard.
#[derive(Debug)]
pub struct Election {
    pub shard_id: ShardId,
    pub self_id: PeerId,
    pub role: Role,
    pub term: Term,
    pub voted_for: Option<PeerId>,
    pub votes: Vec<PeerId>,
    pub leader: Option<PeerId>,
}

impl View for Election {
    type V = ElectionView;

    open spec fn view(&self) -> ElectionView {
        ElectionView {
            self_id: self.self_id,
            role: self.role,
            term: self.term,
            voted_for: self.voted_for,
            votes: self.votes@,
            leader: self.leader,
        }
    }
}

impl Election {
    /// A follower in term 0 that has not voted and knows no leader.
    pub fn new(shard_id: ShardId, self_id: PeerId) -> (r: Election)
        ensures
            r@.inv(),
            r.shard_id == shard_id,
            r@ == (ElectionView {
                self_id,
                role: Role::Follower,
                term: 0,
                voted_for: None,
                votes: Seq::empty(),
                leader: None,
            }),
    {
        Election {
            shard_id,
            self_id,
            role: Role::Follower,
            term: 0,
            voted_for: None,
            votes: Vec::new(),
            leader: None,
        }
    }

    fn adopt_term(&mut self, term: Term)
        ensures
            final(self)@ == old(self)@.observe(term),
            final(self).shard_id == old(self).shard_id,
    {
        if term > self.term {
            self.role = Role::Follower;
            self.term = term;
            self.voted_for = None;
            self.votes = Vec::new();
            self.leader = None;
        }
    }

    /// The election timeout fired: unless this node leads (or the term space
    /// is exhausted), it starts a new term, votes for itself and returns the
    /// request to send to the shard's healthy peers.
    pub fn on_election_timeout(&mut self, last_log_index: LogIndex, last_log_term: Term) -> (r:
        Option<VoteRequest>)
        ensures
            final(self)@ == old(self)@.after_timeout(),
            final(self).shard_id == old(self).shard_id,
            r == (if old(self)@.starts_election() {
                Some(
                    VoteRequest {
                        candidate: old(self).self_id,
                        term: (old(self).term + 1) as Term,
                        last_log_index,
                        last_log_term,
                    },
                )
            } else {
                None
            }),
    {
        if self.role == Role::Leader || self.term == u64::MAX {
            return None;
        }
        self.term = self.term + 1;
        self.role = Role::Candidate;
        self.voted_for = Some(self.self_id);
        let mut votes: Vec<PeerId> = Vec::new();
        votes.push(self.self_id);
        self.votes = votes;
        self.leader = None;
        assert(self.votes@ =~= seq![self.self_id]);
        Some(VoteRequest { candidate: self.self_id, term: self.term, last_log_index, last_log_term })
    }

    /// Answers a vote request, given this node's own log tail; returns
    /// whether the vote is granted. The answer carries `self.term`.
    pub fn handle_request_vote(
        &mut self,
        req: VoteRequest,
        my_last_log_index: LogIndex,
        my_last_log_term: Term,
    ) -> (granted: bool)
        ensures
            granted == old(self)@.grants_vote(req, my_last_log_index, my_last_log_term),
            final(self)@ == old(self)@.after_request_vote(req, my_last_log_index, my_last_log_term),
            final(self).shard_id == old(self).shard_id,
    {
        self.adopt_term(req.term);
        let free = match self.voted_for {
            None => true,
            Some(c) => c == req.candidate,
        };
        let up_to_date = req.last_log_term > my_last_log_term || (req.last_log_term
            == my_last_log_term && req.last_log_index >= my_last_log_index);
        if req.term == self.term && free && up_to_date {
            self.voted_for = Some(req.candidate);
            true
        } else {
            false
        }
    }

    /// Counts a vote response against `quorum`, the number of healthy peers
    /// of the shard with this node included; returns whether this node has
    /// just become leader.
    pub fn handle_vote_response(&mut self, from: PeerId, term: Term, granted: bool, quorum: usize) -> (
        elected: bool)
        requires
            old(self)@.inv(),
        ensures
            final(self)@ == old(self)@.after_vote_response(from, term, granted, quorum as nat),
            final(self).shard_id == old(self).shard_id,
            elected == (old(self).role != Role::Leader && final(self).role == Role::Leader),
    {
        let was_leader = self.role == Role::Leader;
        self.adopt_term(term);
        if self.role == Role::Candidate && term == self.term && granted {
            let mut seen = false;
            let mut i: usize = 0;
            while i < self.votes.len()
                invariant
                    i <= self.votes@.len(),
                    seen == self.votes@.subrange(0, i as int).contains(from),
                decreases self.votes@.len() - i,
            {
                if self.votes[i] == from {
                    seen = true;
                }
                proof {
                    assert(self.votes@.subrange(0, i + 1) =~= self.votes@.subrange(0, i as int).push(
                        self.votes@[i as int],
                    ));
                    lemma_contains_push(self.votes@.subrange(0, i as int), self.votes@[i as int], from);
                }
                i = i + 1;
            }
            assert(self.votes@.subrange(0, self.votes@.len() as int) =~= self.votes@);
            if !seen {
                self.votes.push(from);
            }
            if self.votes.len() as u128 * 2 > quorum as u128 {
                self.role = Role::Leader;
                self.leader = Some(self.self_id);
            }
        }
        !was_leader && self.role == Role::Leader
    }

    /// Handles a claim of leadership (an append or heartbeat) from `leader`
    /// in `term`; returns whether it was accepted.
    pub fn handle_append(&mut self, leader: PeerId, term: Term) -> (accepted: bool)
        ensures
            accepted == old(self)@.accepts_append(term),
            final(self)@ == old(self)@.after_append(leader, term),
            final(self).shard_id == old(self).shard_id,
    {
        if term > self.term || (term == self.term && self.role != Role::Leader) {
            self.adopt_term(term);
            self.role = Role::Follower;
            self.votes = Vec::new();
            self.leader = Some(leader);
            true
        } else {
            false
        }
    }

    /// Reverts to follower when a message carries a strictly greater term.
    pub fn observe_term(&mut self, term: Term)
        ensures
            final(self)@ == old(self)@.observe(term),
            final(self).shard_id == old(self).shard_id,
    {
        self.adopt_term(term);
    }

    pub fn is_leader(&self) -> (r: bool)
        ensures
            r == (self.role == Role::Leader),
    {
        self.role == Role::Leader
    }
}

} // verus!
