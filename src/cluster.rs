//! The process-wide coordination state: the peer registry, and per shard
//! the election and log, with the operations that drive them from messages.
use vstd::prelude::*;

use crate::election::{Election, Role, VoteRequest};
use crate::heartbeat::DetectorConfig;
use crate::log::{AppendOutcome, FollowerProgress, LogEntry, ReplicatedLog, entries_view};
use crate::peer::{Peer, PeerInfo, State, UpsertOutcome};
use crate::{LogIndex, PeerId, ShardId, Term};

verus! {

/// Election and log state of this node for one shard.
#[derive(Debug)]
pub struct Shard {
    pub shard_id: ShardId,
    pub election: Election,
    pub log: ReplicatedLog,
    pub followers: Vec<FollowerProgress>,
}

impl Shard {
    pub open spec fn inv(&self) -> bool {
        &&& self.election.shard_id == self.shard_id
        &&& self.log.shard_id == self.shard_id
        &&& self.election@.inv()
        &&& self.log.inv()
        &&& forall|i: int| 0 <= i < self.followers@.len() ==> (#[trigger] self.followers@[i]).next_index >= 1
    }
}

/// Returned by `submit` when this node does not lead the shard.
#[derive(Debug, Clone, Copy, PartialEq, Eq, Structural)]
pub struct NoLeaderError {
    pub shard_id: ShardId,
}

/// What `cluster_status` reports of each peer.
#[derive(Debug, Clone, Copy, PartialEq, Eq, Structural)]
pub struct PeerSnapshot {
    pub peer_id: PeerId,
    pub shard_id: ShardId,
    pub epoch: u64,
    pub state: State,
    pub last_log_index: LogIndex,
    pub commit_index: LogIndex,
}

pub open spec fn snapshot_of(p: Peer) -> PeerSnapshot {
    PeerSnapshot {
        peer_id: p.peer_id,
        shard_id: p.shard_id,
        epoch: p.epoch,
        state: p.state,
        last_log_index: p.last_log_index,
        commit_index: p.commit_index,
    }
}

/// Ids of the peers of `peers` that serve `shard_id`, in registry order.
pub open spec fn ids_in_shard(peers: Seq<Peer>, shard_id: ShardId) -> Seq<PeerId>
    decreases peers.len(),
{
    if peers.len() == 0 {
        Seq::empty()
    } else {
        let rest = ids_in_shard(peers.drop_last(), shard_id);
        if peers.last().shard_id == shard_id {
            rest.push(peers.last().peer_id)
        } else {
            rest
        }
    }
}

/// Ids of the healthy peers of `peers` that serve `shard_id`, in order.
pub open spec fn healthy_ids_in_shard(peers: Seq<Peer>, shard_id: ShardId) -> Seq<PeerId>
    decreases peers.len(),
{
    if peers.len() == 0 {
        Seq::empty()
    } else {
        let rest = healthy_ids_in_shard(peers.drop_last(), shard_id);
        if peers.last().shard_id == shard_id && peers.last().state.spec_is_healthy() {
            rest.push(peers.last().peer_id)
        } else {
            rest
        }
    }
}

/// Milliseconds from `last` to `now`, or 0 when `now` is earlier.
pub open spec fn elapsed_since(now: u64, last: u64) -> int {
    if now >= last {
        now - last
    } else {
        0
    }
}

/// Ids of the peers whose lifecycle state differs between `before` and
/// `after` (position by position), in order.
pub open spec fn changed_ids(before: Seq<Peer>, after: Seq<Peer>) -> Seq<PeerId>
    decreases before.len(),
{
    if before.len() == 0 {
        Seq::empty()
    } else {
        let rest = changed_ids(before.drop_last(), after.subrange(0, after.len() - 1));
        if before.last().state != after[before.len() - 1].state {
            rest.push(before.last().peer_id)
        } else {
            rest
        }
    }
}

/// An id held by no peer of `peers` is not among their healthy ids.
pub proof fn lemma_healthy_ids_exclude(peers: Seq<Peer>, shard_id: ShardId, id: PeerId)
    requires
        forall|i: int| 0 <= i < peers.len() ==> (#[trigger] peers[i]).peer_id != id,
    ensures
        !healthy_ids_in_shard(peers, shard_id).contains(id),
    decreases peers.len(),
{
    if peers.len() > 0 {
        lemma_healthy_ids_exclude(peers.drop_last(), shard_id, id);
        let rest = healthy_ids_in_shard(peers.drop_last(), shard_id);
        assert(peers.last().peer_id != id);
        crate::election::lemma_contains_push(rest, peers.last().peer_id, id);
    }
}

/// Number of healthy peers of `peers` that serve `shard_id`.
pub open spec fn healthy_in_shard(peers: Seq<Peer>, shard_id: ShardId) -> nat
    decreases peers.len(),
{
    if peers.len() == 0 {
        0
    } else {
        healthy_in_shard(peers.drop_last(), shard_id) + if peers.last().shard_id == shard_id
            && peers.last().state.spec_is_healthy() {
            1nat
        } else {
            0nat
        }
    }
}

/// The coordination state of this process: its own identity, the peers it
/// knows (unique by id), and its election and log state per shard.
#[derive(Debug)]
pub struct Cluster {
    pub peer_id: PeerId,
    pub shard_id: ShardId,
    pub config: DetectorConfig,
    pub peers: Vec<Peer>,
    pub shards: Vec<Shard>,
}

impl Cluster {
    pub open spec fn inv(&self) -> bool {
        &&& forall|i: int| 0 <= i < self.peers@.len() ==> (#[trigger] self.peers@[i]).inv()
        &&& forall|i: int| 0 <= i < self.peers@.len() ==> (#[trigger] self.peers@[i]).peer_id != self.peer_id
        &&& forall|i: int, j: int|
            0 <= i < j < self.peers@.len() ==> (#[trigger] self.peers@[i]).peer_id
                != (#[trigger] self.peers@[j]).peer_id
        &&& forall|i: int|
            0 <= i < self.shards@.len() ==> (#[trigger] self.shards@[i]).inv()
                && self.shards@[i].election.self_id == self.peer_id
        &&& forall|i: int, j: int|
            0 <= i < j < self.shards@.len() ==> (#[trigger] self.shards@[i]).shard_id
                != (#[trigger] self.shards@[j]).shard_id
    }

    /// The peer with id `id` is at position `i` of the registry.
    pub open spec fn peer_at(&self, id: PeerId, i: int) -> bool {
        0 <= i < self.peers@.len() && self.peers@[i].peer_id == id
    }

    pub open spec fn knows(&self, id: PeerId) -> bool {
        exists|i: int| self.peer_at(id, i)
    }

    pub open spec fn shard_at(&self, shard_id: ShardId, i: int) -> bool {
        0 <= i < self.shards@.len() && self.shards@[i].shard_id == shard_id
    }

    pub open spec fn has_shard(&self, shard_id: ShardId) -> bool {
        exists|i: int| self.shard_at(shard_id, i)
    }

    /// A node that knows no peer yet and serves `shard_id`, as a follower in
    /// term 0 with an empty log.
    pub fn new(peer_id: PeerId, shard_id: ShardId, config: DetectorConfig) -> (r: Cluster)
        ensures
            r.inv(),
            r.peer_id == peer_id,
            r.shard_id == shard_id,
            r.config == config,
            r.peers@.len() == 0,
            r.shards@.len() == 1,
            r.shards@[0].shard_id == shard_id,
            r.shards@[0].election@.role == Role::Follower,
            r.shards@[0].election@.term == 0,
            r.shards@[0].log@.entries.len() == 0,
    {
        let mut shards: Vec<Shard> = Vec::new();
        shards.push(
            Shard {
                shard_id,
                election: Election::new(shard_id, peer_id),
                log: ReplicatedLog::new(shard_id),
                followers: Vec::new(),
            },
        );
        Cluster { peer_id, shard_id, config, peers: Vec::new(), shards }
    }

    /// Position of the peer with id `peer_id` in the registry.
    fn find_peer(&self, peer_id: PeerId) -> (r: Option<usize>)
        ensures
            match r {
                Some(i) => self.peer_at(peer_id, i as int),
                None => !self.knows(peer_id),
            },
    {
        let mut i: usize = 0;
        while i < self.peers.len()
            invariant
                i <= self.peers@.len(),
                forall|j: int| 0 <= j < i ==> self.peers@[j].peer_id != peer_id,
            decreases self.peers@.len() - i,
        {
            if self.peers[i].peer_id == peer_id {
                return Some(i);
            }
            i = i + 1;
        }
        None
    }

    /// Position of the state of shard `shard_id`.
    fn find_shard(&self, shard_id: ShardId) -> (r: Option<usize>)
        ensures
            match r {
                Some(i) => self.shard_at(shard_id, i as int),
                None => !self.has_shard(shard_id),
            },
    {
        let mut i: usize = 0;
        while i < self.shards.len()
            invariant
                i <= self.shards@.len(),
                forall|j: int| 0 <= j < i ==> self.shards@[j].shard_id != shard_id,
            decreases self.shards@.len() - i,
        {
            if self.shards[i].shard_id == shard_id {
                return Some(i);
            }
            i = i + 1;
        }
        None
    }

    pub fn get_peer(&self, peer_id: PeerId) -> (r: Option<&Peer>)
        ensures
            match r {
                Some(p) => exists|i: int| self.peer_at(peer_id, i) && *p == self.peers@[i],
                None => !self.knows(peer_id),
            },
    {
        match self.find_peer(peer_id) {
            Some(i) => Some(&self.peers[i]),
            None => None,
        }
    }

    /// The registry entry of `peer_id`, for the caller to update in place;
    /// the rest of the registry is unchanged.
    pub fn get_peer_mut(&mut self, peer_id: PeerId) -> (r: Option<&mut Peer>)
        ensures
            match r {
                Some(p) => exists|i: int|
                    old(self).peer_at(peer_id, i) && *p == old(self).peers@[i] && final(self).peers@
                        == old(self).peers@.update(i, *final(p)),
                None => !old(self).knows(peer_id) && *final(self) == *old(self),
            },
            final(self).peer_id == old(self).peer_id,
            final(self).shard_id == old(self).shard_id,
            final(self).config == old(self).config,
            final(self).shards@ == old(self).shards@,
    {
        match self.find_peer(peer_id) {
            Some(i) => Some(&mut self.peers[i]),
            None => None,
        }
    }

    pub fn is_known_peer(&self, peer_id: PeerId) -> (r: bool)
        ensures
            r == self.knows(peer_id),
    {
        self.find_peer(peer_id).is_some()
    }

    pub fn is_peer_healthy(&self, peer_id: PeerId) -> (r: bool)
        requires
            self.inv(),
        ensures
            r == exists|i: int| self.peer_at(peer_id, i) && self.peers@[i].state.spec_is_healthy(),
    {
        match self.find_peer(peer_id) {
            Some(i) => self.peers[i].is_healthy(),
            None => false,
        }
    }

    /// Merges a gossiped peer description: an unknown peer is added as a
    /// seed; a known one is merged by epoch (see `Peer::merge_info`).
    pub fn upsert_peer(&mut self, info: PeerInfo, now: u64) -> (r: UpsertOutcome)
        requires
            old(self).inv(),
        ensures
            final(self).inv(),
            final(self).peer_id == old(self).peer_id,
            final(self).shard_id == old(self).shard_id,
            final(self).shards@ == old(self).shards@,
            info.peer_id == old(self).peer_id ==> r == UpsertOutcome::Own && final(self).peers@
                == old(self).peers@,
            info.peer_id != old(self).peer_id ==> final(self).knows(info.peer_id),
            info.peer_id != old(self).peer_id && !old(self).knows(info.peer_id) ==> r
                == UpsertOutcome::Inserted && final(self).peers@.len() == old(self).peers@.len() + 1
                && final(self).peers@.drop_last() == old(self).peers@
                && final(self).peers@.last().describes(info, State::Seed, now),
            forall|i: int|
                old(self).peer_at(info.peer_id, i) ==> {
                    &&& r == old(self).peers@[i].merge_outcome(info)
                    &&& old(self).peers@[i].merged(info, now, final(self).peers@[i])
                    &&& final(self).peers@.len() == old(self).peers@.len()
                    &&& forall|j: int|
                        0 <= j < old(self).peers@.len() && j != i ==> final(self).peers@[j]
                            == old(self).peers@[j]
                },
    {
        let id = info.peer_id;
        if id == self.peer_id {
            proof {
                assert forall|i: int| !old(self).peer_at(id, i) by {
                    if 0 <= i < self.peers@.len() {
                        assert(self.peers@[i].peer_id != self.peer_id);
                    }
                }
            }
            return UpsertOutcome::Own;
        }
        match self.find_peer(id) {
            Some(i) => {
                let ghost before = self.peers@;
                let r = self.peers[i].merge_info(info, now);
                assert(self.peers@ == before.update(i as int, self.peers@[i as int]));
                assert(self.peer_at(id, i as int));
                proof {
                    assert forall|a: int, b: int|
                        0 <= a < b < self.peers@.len() implies (#[trigger] self.peers@[a]).peer_id
                        != (#[trigger] self.peers@[b]).peer_id by {
                        assert(before[a].peer_id != before[b].peer_id);
                    }
                    assert forall|a: int| 0 <= a < self.peers@.len() implies (
                    #[trigger] self.peers@[a]).inv() && self.peers@[a].peer_id != self.peer_id by {
                        if a != i {
                            assert(self.peers@[a] == before[a]);
                        }
                    }
                    assert forall|a: int, b: int|
                        #![auto]
                        old(self).peer_at(id, a) && old(self).peer_at(id, b) implies a == b by {
                        if a < b {
                            assert(before[a].peer_id != before[b].peer_id);
                        } else if b < a {
                            assert(before[b].peer_id != before[a].peer_id);
                        }
                    }
                }
                r
            },
            None => {
                let peer = Peer::new(info, State::Seed, now);
                let ghost before = self.peers@;
                self.peers.push(peer);
                assert(self.peers@.drop_last() =~= before);
                proof {
                    assert forall|a: int, b: int|
                        0 <= a < b < self.peers@.len() implies (#[trigger] self.peers@[a]).peer_id
                        != (#[trigger] self.peers@[b]).peer_id by {
                        if b == before.len() {
                            assert(!old(self).peer_at(id, a));
                        } else {
                            assert(before[a].peer_id != before[b].peer_id);
                        }
                    }
                    assert forall|a: int| 0 <= a < self.peers@.len() implies (
                    #[trigger] self.peers@[a]).inv() && self.peers@[a].peer_id != self.peer_id by {
                        if a < before.len() {
                            assert(self.peers@[a] == before[a]);
                        }
                    }
                }
                assert(self.peer_at(id, before.len() as int));
                UpsertOutcome::Inserted
            },
        }
    }

    /// Removes `peer_id` from the registry; returns whether it was known.
    pub fn remove_peer(&mut self, peer_id: PeerId) -> (r: bool)
        requires
            old(self).inv(),
        ensures
            final(self).inv(),
            r == old(self).knows(peer_id),
            !final(self).knows(peer_id),
            final(self).peer_id == old(self).peer_id,
            final(self).shard_id == old(self).shard_id,
            final(self).shards@ == old(self).shards@,
            forall|i: int|
                old(self).peer_at(peer_id, i) ==> final(self).peers@ == old(self).peers@.remove(i),
            !old(self).knows(peer_id) ==> final(self).peers@ == old(self).peers@,
    {
        match self.find_peer(peer_id) {
            Some(i) => {
                let ghost before = self.peers@;
                self.peers.remove(i);
                assert(self.peers@ =~= before.remove(i as int));
                proof {
                    assert forall|a: int| #![auto] old(self).peer_at(peer_id, a) implies a == i by {
                        if a < i {
                            assert(before[a].peer_id != before[i as int].peer_id);
                        } else if i < a {
                            assert(before[i as int].peer_id != before[a].peer_id);
                        }
                    }
                    assert forall|a: int| #![auto] !self.peer_at(peer_id, a) by {
                        if 0 <= a < self.peers@.len() {
                            if a < i {
                                assert(self.peers@[a] == before[a]);
                                assert(before[a].peer_id != before[i as int].peer_id);
                            } else {
                                assert(self.peers@[a] == before[a + 1]);
                                assert(before[i as int].peer_id != before[a + 1].peer_id);
                            }
                        }
                    }
                    assert forall|x: int, y: int|
                        0 <= x < y < self.peers@.len() implies (#[trigger] self.peers@[x]).peer_id
                        != (#[trigger] self.peers@[y]).peer_id by {
                        let bx = if x < i {
                            x
                        } else {
                            x + 1
                        };
                        let by_ = if y < i {
                            y
                        } else {
                            y + 1
                        };
                        assert(before[bx].peer_id != before[by_].peer_id);
                    }
                }
                true
            },
            None => false,
        }
    }

    /// Ids of the known peers that serve `shard_id`.
    pub fn list_by_shard(&self, shard_id: ShardId) -> (r: Vec<PeerId>)
        ensures
            r@ == ids_in_shard(self.peers@, shard_id),
    {
        let mut r: Vec<PeerId> = Vec::new();
        let mut i: usize = 0;
        while i < self.peers.len()
            invariant
                i <= self.peers@.len(),
                r@ == ids_in_shard(self.peers@.subrange(0, i as int), shard_id),
            decreases self.peers@.len() - i,
        {
            assert(self.peers@.subrange(0, i + 1).drop_last() =~= self.peers@.subrange(0, i as int));
            if self.peers[i].shard_id == shard_id {
                r.push(self.peers[i].peer_id);
            }
            i = i + 1;
        }
        assert(self.peers@.subrange(0, self.peers@.len() as int) =~= self.peers@);
        r
    }

    /// Number of nodes a majority is counted against in `shard_id`: the
    /// healthy peers serving it, plus this node.
    pub fn quorum_size(&self, shard_id: ShardId) -> (r: usize)
        ensures
            r == if healthy_in_shard(self.peers@, shard_id) < usize::MAX {
                healthy_in_shard(self.peers@, shard_id) + 1
            } else {
                usize::MAX as nat
            },
    {
        let mut count: usize = 0;
        let mut i: usize = 0;
        while i < self.peers.len()
            invariant
                i <= self.peers@.len(),
                count == healthy_in_shard(self.peers@.subrange(0, i as int), shard_id),
                count <= i,
            decreases self.peers@.len() - i,
        {
            assert(self.peers@.subrange(0, i + 1).drop_last() =~= self.peers@.subrange(0, i as int));
            if self.peers[i].shard_id == shard_id && self.peers[i].is_healthy() {
                count = count + 1;
            }
            i = i + 1;
        }
        assert(self.peers@.subrange(0, self.peers@.len() as int) =~= self.peers@);
        if count < usize::MAX {
            count + 1
        } else {
            count
        }
    }

    /// The leader of `shard_id` as this node knows it.
    pub fn current_leader(&self, shard_id: ShardId) -> (r: Option<PeerId>)
        ensures
            self.has_shard(shard_id) ==> exists|i: int|
                self.shard_at(shard_id, i) && r == self.shards@[i].election.leader,
            !self.has_shard(shard_id) ==> r is None,
    {
        match self.find_shard(shard_id) {
            Some(i) => self.shards[i].election.leader,
            None => None,
        }
    }

    /// Whether this node leads `shard_id`.
    pub open spec fn leads(&self, shard_id: ShardId) -> bool {
        exists|i: int| self.shard_at(shard_id, i) && self.shards@[i].election.role == Role::Leader
    }

    /// Appends `payload` to the log of `shard_id` in the current term when
    /// this node leads it, and returns the assigned index at once, without
    /// waiting for the entry to commit.
    pub fn submit(&mut self, shard_id: ShardId, payload: Vec<u8>) -> (r: Result<LogIndex, NoLeaderError>)
        requires
            old(self).inv(),
        ensures
            final(self).inv(),
            final(self).peers@ == old(self).peers@,
            final(self).shards@.len() == old(self).shards@.len(),
            final(self).peer_id == old(self).peer_id,
            final(self).shard_id == old(self).shard_id,
            final(self).config == old(self).config,
            forall|j: int|
                0 <= j < old(self).shards@.len() ==> (#[trigger] final(self).shards@[j]).shard_id
                    == old(self).shards@[j].shard_id,
            forall|j: int|
                0 <= j < old(self).shards@.len() && old(self).shards@[j].shard_id != shard_id
                    ==> #[trigger] final(self).shards@[j] == old(self).shards@[j],
            !old(self).leads(shard_id) ==> r == Err::<LogIndex, NoLeaderError>(NoLeaderError { shard_id })
                && final(self).shards@ == old(self).shards@,
            forall|i: int|
                old(self).shard_at(shard_id, i) && old(self).shards@[i].election.role == Role::Leader
                    && old(self).shards@[i].log@.entries.len() + 1 < u64::MAX ==> {
                    &&& r == Ok::<LogIndex, NoLeaderError>(
                        (old(self).shards@[i].log@.entries.len() + 1) as LogIndex,
                    )
                    &&& final(self).shards@[i].log@.entries == old(self).shards@[i].log@.entries.push(
                        (old(self).shards@[i].election.term, payload@),
                    )
                    &&& final(self).shards@[i].log@.commit_index
                        == old(self).shards@[i].log@.commit_index
                    &&& final(self).shards@[i].election@ == old(self).shards@[i].election@
                },
            forall|i: int|
                old(self).shard_at(shard_id, i) && old(self).shards@[i].election.role == Role::Leader
                    && old(self).shards@[i].log@.entries.len() + 1 >= u64::MAX ==> r == Err::<
                    LogIndex,
                    NoLeaderError,
                >(NoLeaderError { shard_id }) && final(self).shards@[i].log@ == old(self).shards@[i].log@,
    {
        match self.find_shard(shard_id) {
            Some(i) => {
                proof {
                    assert forall|a: int| #![auto] old(self).shard_at(shard_id, a) implies a == i by {
                        if a < i {
                            assert(old(self).shards@[a].shard_id != old(self).shards@[i as int].shard_id);
                        } else if i < a {
                            assert(old(self).shards@[i as int].shard_id != old(self).shards@[a].shard_id);
                        }
                    }
                }
                if self.shards[i].election.role != Role::Leader {
                    return Err(NoLeaderError { shard_id });
                }
                let term = self.shards[i].election.term;
                let ghost before = self.shards@;
                let shard = &mut self.shards[i];
                let r = shard.log.append_new(term, payload);
                assert(self.shards@ == before.update(i as int, self.shards@[i as int]));
                match r {
                    Some(index) => Ok(index),
                    None => Err(NoLeaderError { shard_id }),
                }
            },
            None => Err(NoLeaderError { shard_id }),
        }
    }

    /// What the API layer's diagnostics show of every known peer.
    pub fn cluster_status(&self) -> (r: Vec<PeerSnapshot>)
        ensures
            r@ == self.peers@.map_values(|p: Peer| snapshot_of(p)),
    {
        let mut r: Vec<PeerSnapshot> = Vec::new();
        let mut i: usize = 0;
        while i < self.peers.len()
            invariant
                i <= self.peers@.len(),
                r@ == self.peers@.subrange(0, i as int).map_values(|p: Peer| snapshot_of(p)),
            decreases self.peers@.len() - i,
        {
            let p = &self.peers[i];
            r.push(
                PeerSnapshot {
                    peer_id: p.peer_id,
                    shard_id: p.shard_id,
                    epoch: p.epoch,
                    state: p.state,
                    last_log_index: p.last_log_index,
                    commit_index: p.commit_index,
                },
            );
            assert(self.peers@.subrange(0, i + 1).map_values(|p: Peer| snapshot_of(p))
                =~= self.peers@.subrange(0, i as int).map_values(|p: Peer| snapshot_of(p)).push(
                snapshot_of(self.peers@[i as int]),
            ));
            i = i + 1;
        }
        assert(self.peers@.subrange(0, self.peers@.len() as int) =~= self.peers@);
        r
    }

    /// Ids of the healthy peers that serve `shard_id`.
    pub fn healthy_peers(&self, shard_id: ShardId) -> (r: Vec<PeerId>)
        ensures
            r@ == healthy_ids_in_shard(self.peers@, shard_id),
    {
        let mut r: Vec<PeerId> = Vec::new();
        let mut i: usize = 0;
        while i < self.peers.len()
            invariant
                i <= self.peers@.len(),
                r@ == healthy_ids_in_shard(self.peers@.subrange(0, i as int), shard_id),
            decreases self.peers@.len() - i,
        {
            assert(self.peers@.subrange(0, i + 1).drop_last() =~= self.peers@.subrange(0, i as int));
            if self.peers[i].shard_id == shard_id && self.peers[i].is_healthy() {
                r.push(self.peers[i].peer_id);
            }
            i = i + 1;
        }
        assert(self.peers@.subrange(0, self.peers@.len() as int) =~= self.peers@);
        r
    }

    /// The position of `shard_id` is the only one that holds it.
    proof fn lemma_shard_unique(&self, shard_id: ShardId, i: int)
        requires
            self.inv(),
            self.shard_at(shard_id, i),
        ensures
            forall|a: int| #[trigger] self.shard_at(shard_id, a) ==> a == i,
    {
        assert forall|a: int| #[trigger] self.shard_at(shard_id, a) implies a == i by {
            if a < i {
                assert(self.shards@[a].shard_id != self.shards@[i].shard_id);
            } else if i < a {
                assert(self.shards@[i].shard_id != self.shards@[a].shard_id);
            }
        }
    }

    /// The election timeout of `shard_id` fired: unless this node leads it,
    /// a new term starts with this node's vote, and the request carrying the
    /// tail of its log goes to every healthy peer of the shard.
    pub fn start_election(&mut self, shard_id: ShardId) -> (r: Option<(VoteRequest, Vec<PeerId>)>)
        requires
            old(self).inv(),
        ensures
            final(self).inv(),
            final(self).peers@ == old(self).peers@,
            final(self).shards@.len() == old(self).shards@.len(),
            final(self).peer_id == old(self).peer_id,
            final(self).shard_id == old(self).shard_id,
            final(self).config == old(self).config,
            forall|j: int|
                0 <= j < old(self).shards@.len() ==> (#[trigger] final(self).shards@[j]).shard_id
                    == old(self).shards@[j].shard_id,
            forall|j: int|
                0 <= j < old(self).shards@.len() && old(self).shards@[j].shard_id != shard_id
                    ==> #[trigger] final(self).shards@[j] == old(self).shards@[j],
            !old(self).has_shard(shard_id) ==> r is None && final(self).shards@ == old(self).shards@,
            forall|i: int|
                #[trigger] old(self).shard_at(shard_id, i) ==> {
                    let s = old(self).shards@[i];
                    &&& final(self).shards@[i].election@ == s.election@.after_timeout()
                    &&& final(self).shards@[i].log@ == s.log@
                    &&& r == if s.election@.starts_election() {
                        Some(
                            (
                                VoteRequest {
                                    candidate: old(self).peer_id,
                                    term: (s.election.term + 1) as Term,
                                    last_log_index: s.log@.entries.len() as LogIndex,
                                    last_log_term: s.log@.last_term(),
                                },
                                r.unwrap().1,
                            ),
                        )
                    } else {
                        None::<(VoteRequest, Vec<PeerId>)>
                    }
                    &&& r matches Some((_, targets)) ==> targets@ == healthy_ids_in_shard(
                        old(self).peers@,
                        shard_id,
                    )
                    &&& r matches Some((_, targets)) ==> !targets@.contains(old(self).peer_id)
                },
    {
        match self.find_shard(shard_id) {
            Some(i) => {
                proof {
                    self.lemma_shard_unique(shard_id, i as int);
                }
                let targets = self.healthy_peers(shard_id);
                proof {
                    lemma_healthy_ids_exclude(self.peers@, shard_id, self.peer_id);
                }
                let ghost before = self.shards@;
                let shard = &mut self.shards[i];
                let last_index = shard.log.last_index();
                let last_term = shard.log.last_term();
                let req = shard.election.on_election_timeout(last_index, last_term);
                proof {
                    crate::election::lemma_step(
                        before[i as int].election@,
                        crate::election::ElectionEvent::Timeout,
                    );
                }
                assert(self.shards@ == before.update(i as int, self.shards@[i as int]));
                match req {
                    Some(req) => Some((req, targets)),
                    None => None,
                }
            },
            None => None,
        }
    }

    /// Answers a vote request for `shard_id` from this node's own log tail;
    /// returns the term of the answer and whether the vote is granted.
    pub fn handle_vote_request(&mut self, shard_id: ShardId, req: VoteRequest) -> (r: Option<(Term, bool)>)
        requires
            old(self).inv(),
        ensures
            final(self).inv(),
            final(self).peers@ == old(self).peers@,
            final(self).shards@.len() == old(self).shards@.len(),
            final(self).peer_id == old(self).peer_id,
            final(self).shard_id == old(self).shard_id,
            final(self).config == old(self).config,
            forall|j: int|
                0 <= j < old(self).shards@.len() ==> (#[trigger] final(self).shards@[j]).shard_id
                    == old(self).shards@[j].shard_id,
            forall|j: int|
                0 <= j < old(self).shards@.len() && old(self).shards@[j].shard_id != shard_id
                    ==> #[trigger] final(self).shards@[j] == old(self).shards@[j],
            !old(self).has_shard(shard_id) ==> r is None && final(self).shards@ == old(self).shards@,
            forall|i: int|
                #[trigger] old(self).shard_at(shard_id, i) ==> {
                    let s = old(self).shards@[i];
                    let li = s.log@.entries.len() as LogIndex;
                    let lt = s.log@.last_term();
                    &&& final(self).shards@[i].election@ == s.election@.after_request_vote(req, li, lt)
                    &&& final(self).shards@[i].log@ == s.log@
                    &&& r == Some((final(self).shards@[i].election.term, s.election@.grants_vote(req, li, lt)))
                },
    {
        match self.find_shard(shard_id) {
            Some(i) => {
                proof {
                    self.lemma_shard_unique(shard_id, i as int);
                }
                let ghost before = self.shards@;
                let shard = &mut self.shards[i];
                let last_index = shard.log.last_index();
                let last_term = shard.log.last_term();
                let granted = shard.election.handle_request_vote(req, last_index, last_term);
                proof {
                    crate::election::lemma_step(
                        before[i as int].election@,
                        crate::election::ElectionEvent::RequestVote(req, last_index, last_term),
                    );
                }
                let term = shard.election.term;
                assert(self.shards@ == before.update(i as int, self.shards@[i as int]));
                Some((term, granted))
            },
            None => None,
        }
    }

    /// Counts a vote response for `shard_id` against the healthy peers of
    /// the shard and this node; on election, the leader starts tracking each
    /// healthy peer from just after its own last entry. Returns whether this
    /// node has just become leader.
    pub fn handle_vote_response(&mut self, shard_id: ShardId, from: PeerId, term: Term, granted: bool) -> (
        elected: bool)
        requires
            old(self).inv(),
        ensures
            final(self).inv(),
            final(self).peers@ == old(self).peers@,
            final(self).shards@.len() == old(self).shards@.len(),
            final(self).peer_id == old(self).peer_id,
            final(self).shard_id == old(self).shard_id,
            final(self).config == old(self).config,
            forall|j: int|
                0 <= j < old(self).shards@.len() ==> (#[trigger] final(self).shards@[j]).shard_id
                    == old(self).shards@[j].shard_id,
            forall|j: int|
                0 <= j < old(self).shards@.len() && old(self).shards@[j].shard_id != shard_id
                    ==> #[trigger] final(self).shards@[j] == old(self).shards@[j],
            !old(self).has_shard(shard_id) ==> !elected && final(self).shards@ == old(self).shards@,
            forall|i: int|
                #[trigger] old(self).shard_at(shard_id, i) ==> {
                    let s = old(self).shards@[i];
                    let q = if healthy_in_shard(old(self).peers@, shard_id) < usize::MAX {
                        healthy_in_shard(old(self).peers@, shard_id) + 1
                    } else {
                        usize::MAX as nat
                    };
                    &&& final(self).shards@[i].election@ == s.election@.after_vote_response(from, term, granted, q)
                    &&& final(self).shards@[i].log@ == s.log@
                    &&& elected == (s.election.role != Role::Leader && final(self).shards@[i].election.role
                        == Role::Leader)
                    &&& elected ==> final(self).shards@[i].followers@ == healthy_ids_in_shard(
                        old(self).peers@,
                        shard_id,
                    ).map_values(
                        |id: PeerId|
                            FollowerProgress {
                                peer_id: id,
                                next_index: (s.log@.entries.len() + 1) as LogIndex,
                                match_index: 0,
                            },
                    )
                    &&& !elected ==> final(self).shards@[i].followers@ == s.followers@
                },
    {
        match self.find_shard(shard_id) {
            Some(i) => {
                proof {
                    self.lemma_shard_unique(shard_id, i as int);
                }
                let quorum = self.quorum_size(shard_id);
                let targets = self.healthy_peers(shard_id);
                let ghost before = self.shards@;
                let shard = &mut self.shards[i];
                let elected = shard.election.handle_vote_response(from, term, granted, quorum);
                proof {
                    crate::election::lemma_step(
                        before[i as int].election@,
                        crate::election::ElectionEvent::VoteResponse(from, term, granted, quorum as nat),
                    );
                }
                if elected {
                    let last = shard.log.last_index();
                    let mut followers: Vec<FollowerProgress> = Vec::new();
                    let mut k: usize = 0;
                    while k < targets.len()
                        invariant
                            k <= targets@.len(),
                            last < u64::MAX,
                            followers@ == targets@.subrange(0, k as int).map_values(
                                |id: PeerId|
                                    FollowerProgress {
                                        peer_id: id,
                                        next_index: (last + 1) as LogIndex,
                                        match_index: 0,
                                    },
                            ),
                        decreases targets@.len() - k,
                    {
                        followers.push(FollowerProgress::new(targets[k], last));
                        assert(targets@.subrange(0, k + 1) =~= targets@.subrange(0, k as int).push(targets@[k as int]));
                        assert(followers@ =~= targets@.subrange(0, k + 1).map_values(
                            |id: PeerId|
                                FollowerProgress {
                                    peer_id: id,
                                    next_index: (last + 1) as LogIndex,
                                    match_index: 0,
                                },
                        ));
                        k = k + 1;
                    }
                    assert(targets@.subrange(0, targets@.len() as int) =~= targets@);
                    shard.followers = followers;
                }
                assert(self.shards@ == before.update(i as int, self.shards@[i as int]));
                elected
            },
            None => false,
        }
    }

    /// Follower side of an append for `shard_id` from `leader` in `term`:
    /// when the claim of leadership is accepted the log processes the
    /// entries; otherwise the append fails and the log is unchanged. Returns
    /// the term of the answer and its outcome.
    pub fn handle_append_entries(
        &mut self,
        shard_id: ShardId,
        leader: PeerId,
        term: Term,
        prev_index: LogIndex,
        prev_term: Term,
        entries: Vec<LogEntry>,
        leader_commit: LogIndex,
    ) -> (r: Option<(Term, AppendOutcome)>)
        requires
            old(self).inv(),
        ensures
            final(self).inv(),
            final(self).peers@ == old(self).peers@,
            final(self).shards@.len() == old(self).shards@.len(),
            final(self).peer_id == old(self).peer_id,
            final(self).shard_id == old(self).shard_id,
            final(self).config == old(self).config,
            forall|j: int|
                0 <= j < old(self).shards@.len() ==> (#[trigger] final(self).shards@[j]).shard_id
                    == old(self).shards@[j].shard_id,
            forall|j: int|
                0 <= j < old(self).shards@.len() && old(self).shards@[j].shard_id != shard_id
                    ==> #[trigger] final(self).shards@[j] == old(self).shards@[j],
            !old(self).has_shard(shard_id) ==> r is None && final(self).shards@ == old(self).shards@,
            forall|i: int|
                #[trigger] old(self).shard_at(shard_id, i) ==> {
                    let s = old(self).shards@[i];
                    let new = entries_view(entries@);
                    &&& final(self).shards@[i].election@ == s.election@.after_append(leader, term)
                    &&& final(self).shards@[i].followers@ == s.followers@
                    &&& s.election@.accepts_append(term) ==> final(self).shards@[i].log@
                        == s.log@.after_append_entries(prev_index, prev_term, new, leader_commit)
                        && r == Some(
                        (
                            final(self).shards@[i].election.term,
                            s.log@.append_outcome(prev_index, prev_term, new),
                        ),
                    )
                    &&& !s.election@.accepts_append(term) ==> final(self).shards@[i].log@ == s.log@
                        && r == Some(
                        (
                            s.election.term,
                            AppendOutcome {
                                success: false,
                                match_index: s.log@.entries.len() as LogIndex,
                            },
                        ),
                    )
                },
    {
        match self.find_shard(shard_id) {
            Some(i) => {
                proof {
                    self.lemma_shard_unique(shard_id, i as int);
                }
                let ghost before = self.shards@;
                let shard = &mut self.shards[i];
                let accepted = shard.election.handle_append(leader, term);
                proof {
                    crate::election::lemma_step(
                        before[i as int].election@,
                        crate::election::ElectionEvent::Append(leader, term),
                    );
                }
                let outcome = if accepted {
                    shard.log.append_entries(prev_index, prev_term, entries, leader_commit)
                } else {
                    AppendOutcome { success: false, match_index: shard.log.last_index() }
                };
                let current = shard.election.term;
                assert(self.shards@ == before.update(i as int, self.shards@[i as int]));
                Some((current, outcome))
            },
            None => None,
        }
    }

    /// Match indexes of the followers, in order.
    fn match_indexes(followers: &Vec<FollowerProgress>) -> (r: Vec<LogIndex>)
        ensures
            r@ == followers@.map_values(|f: FollowerProgress| f.match_index),
    {
        let mut r: Vec<LogIndex> = Vec::new();
        let mut k: usize = 0;
        while k < followers.len()
            invariant
                k <= followers@.len(),
                r@ == followers@.subrange(0, k as int).map_values(|f: FollowerProgress| f.match_index),
            decreases followers@.len() - k,
        {
            r.push(followers[k].match_index);
            assert(r@ =~= followers@.subrange(0, k + 1).map_values(|f: FollowerProgress| f.match_index));
            k = k + 1;
        }
        assert(followers@.subrange(0, followers@.len() as int) =~= followers@);
        r
    }

    /// Leader side of a follower's answer for `shard_id`: a newer term makes
    /// this node a follower; while it leads in `term`, the follower's
    /// progress is updated and the commit index advances to what a majority
    /// of the shard's healthy peers and this node holds. Returns the commit
    /// index afterwards.
    pub fn handle_append_ack(
        &mut self,
        shard_id: ShardId,
        from: PeerId,
        term: Term,
        outcome: AppendOutcome,
    ) -> (r: Option<LogIndex>)
        requires
            old(self).inv(),
        ensures
            final(self).inv(),
            final(self).peers@ == old(self).peers@,
            final(self).shards@.len() == old(self).shards@.len(),
            final(self).peer_id == old(self).peer_id,
            final(self).shard_id == old(self).shard_id,
            final(self).config == old(self).config,
            forall|j: int|
                0 <= j < old(self).shards@.len() ==> (#[trigger] final(self).shards@[j]).shard_id
                    == old(self).shards@[j].shard_id,
            forall|j: int|
                0 <= j < old(self).shards@.len() && old(self).shards@[j].shard_id != shard_id
                    ==> #[trigger] final(self).shards@[j] == old(self).shards@[j],
            !old(self).has_shard(shard_id) ==> r is None && final(self).shards@ == old(self).shards@,
            forall|i: int|
                #[trigger] old(self).shard_at(shard_id, i) ==> {
                    let s = old(self).shards@[i];
                    let f = final(self).shards@[i];
                    let q = if healthy_in_shard(old(self).peers@, shard_id) < usize::MAX {
                        healthy_in_shard(old(self).peers@, shard_id) + 1
                    } else {
                        usize::MAX as nat
                    };
                    &&& f.election@ == s.election@.observe(term)
                    &&& r == Some(f.log.commit_index)
                    &&& f.log.commit_index >= s.log.commit_index
                    &&& f.log@.entries == s.log@.entries
                    &&& f.followers@.len() == s.followers@.len()
                    &&& forall|k: int|
                        0 <= k < s.followers@.len() && s.followers@[k].peer_id == from && s.election.role
                            == Role::Leader && s.election.term == term ==> f.followers@[k]
                            == s.followers@[k].after_ack(outcome)
                    &&& forall|k: int|
                        0 <= k < s.followers@.len() && s.followers@[k].peer_id != from
                            ==> f.followers@[k] == s.followers@[k]
                    &&& (s.election.role == Role::Leader && s.election.term == term) ==> f.log@
                        == s.log@.after_advance_commit(
                        term,
                        f.followers@.map_values(|p: FollowerProgress| p.match_index),
                        q,
                    )
                    &&& !(s.election.role == Role::Leader && s.election.term == term) ==> f.log@
                        == s.log@ && f.followers@ == s.followers@
                },
    {
        match self.find_shard(shard_id) {
            Some(i) => {
                proof {
                    self.lemma_shard_unique(shard_id, i as int);
                }
                let quorum = self.quorum_size(shard_id);
                let ghost before = self.shards@;
                let shard = &mut self.shards[i];
                let leading = shard.election.role == Role::Leader && shard.election.term == term;
                shard.election.observe_term(term);
                if leading {
                    let ghost fs = shard.followers@;
                    let ghost log0 = shard.log;
                    let ghost election0 = shard.election;
                    let ghost sid = shard.shard_id;
                    let mut k: usize = 0;
                    while k < shard.followers.len()
                        invariant
                            shard.log == log0,
                            shard.election == election0,
                            shard.shard_id == sid,
                            k <= shard.followers@.len() == fs.len(),
                            forall|j: int|
                                0 <= j < fs.len() && (j >= k || fs[j].peer_id != from)
                                    ==> shard.followers@[j] == fs[j],
                            forall|j: int|
                                0 <= j < k && fs[j].peer_id == from ==> shard.followers@[j]
                                    == fs[j].after_ack(outcome),
                            forall|j: int|
                                0 <= j < fs.len() ==> (#[trigger] shard.followers@[j]).next_index >= 1
                                    && shard.followers@[j].peer_id == fs[j].peer_id,
                        decreases fs.len() - k,
                    {
                        if shard.followers[k].peer_id == from {
                            shard.followers[k].on_append_ack(outcome);
                        }
                        k = k + 1;
                    }
                    let matches = Self::match_indexes(&shard.followers);
                    shard.log.advance_commit(term, &matches, quorum);
                }
                let commit = shard.log.commit_index;
                assert(self.shards@ == before.update(i as int, self.shards@[i as int]));
                Some(commit)
            },
            None => None,
        }
    }

    /// The append that the leader of `shard_id` sends to `follower` next:
    /// the entries from the follower's next index (capped just after the
    /// log's end), with the position before them and the commit index.
    pub fn append_request(&self, shard_id: ShardId, follower: PeerId) -> (r: Option<
        (Term, LogIndex, Term, Vec<LogEntry>, LogIndex),
    >)
        requires
            self.inv(),
        ensures
            !self.leads(shard_id) ==> r is None,
            forall|i: int, k: int|
                #[trigger] self.shard_at(shard_id, i) && self.shards@[i].election.role == Role::Leader
                    && 0 <= k < self.shards@[i].followers@.len()
                    && #[trigger] self.shards@[i].followers@[k].peer_id == follower
                    && (forall|j: int|
                    0 <= j < k ==> self.shards@[i].followers@[j].peer_id != follower) ==> {
                    let s = self.shards@[i];
                    let len = s.log@.entries.len();
                    let next = if s.followers@[k].next_index <= len + 1 {
                        s.followers@[k].next_index as int
                    } else {
                        len + 1 as int
                    };
                    r matches Some((t, prev, prev_term, entries, commit)) && t == s.election.term
                        && prev == next - 1 && prev_term == (if next == 1 {
                        0
                    } else {
                        s.log@.entries[next - 2].0
                    }) && entries_view(entries@) == s.log@.entries.subrange(next - 1, len as int)
                        && commit == s.log.commit_index
                },
    {
        match self.find_shard(shard_id) {
            Some(i) => {
                proof {
                    self.lemma_shard_unique(shard_id, i as int);
                }
                let shard = &self.shards[i];
                if shard.election.role != Role::Leader {
                    return None;
                }
                let mut k: usize = 0;
                while k < shard.followers.len()
                    invariant
                        shard.inv(),
                        shard == &self.shards@[i as int],
                        shard.election.role == Role::Leader,
                        self.shard_at(shard_id, i as int),
                        forall|a: int| #[trigger] self.shard_at(shard_id, a) ==> a == i,
                        k <= shard.followers@.len(),
                        forall|j: int| 0 <= j < k ==> shard.followers@[j].peer_id != follower,
                    decreases shard.followers@.len() - k,
                {
                    if shard.followers[k].peer_id == follower {
                        let len = shard.log.last_index();
                        let next = if shard.followers[k].next_index <= len + 1 {
                            shard.followers[k].next_index
                        } else {
                            len + 1
                        };
                        let (prev, prev_term, entries) = shard.log.entries_from(next);
                        return Some((shard.election.term, prev, prev_term, entries, shard.log.commit_index));
                    }
                    k = k + 1;
                }
                None
            },
            None => None,
        }
    }

    /// Records a heartbeat reply of `peer_id` (see `Peer::on_heartbeat_reply`);
    /// returns whether its lifecycle state changed. Unknown peers are ignored.
    pub fn on_heartbeat_reply(&mut self, peer_id: PeerId, rtt: u32, now: u64) -> (changed: bool)
        requires
            old(self).inv(),
        ensures
            final(self).inv(),
            final(self).shards@ == old(self).shards@,
            final(self).peers@.len() == old(self).peers@.len(),
            !old(self).knows(peer_id) ==> !changed && final(self).peers@ == old(self).peers@,
            forall|i: int|
                #[trigger] old(self).peer_at(peer_id, i) ==> {
                    &&& final(self).peers@[i].state == old(self).peers@[i].state.after_reply()
                    &&& final(self).peers@[i].last_heartbeat == now
                    &&& final(self).peers@[i].peer_id == old(self).peers@[i].peer_id
                    &&& final(self).peers@[i].shard_id == old(self).peers@[i].shard_id
                    &&& final(self).peers@[i].epoch == old(self).peers@[i].epoch
                    &&& final(self).peers@[i].generation == old(self).peers@[i].generation
                    &&& final(self).peers@[i].addr@ == old(self).peers@[i].addr@
                    &&& final(self).peers@[i].last_log_index == old(self).peers@[i].last_log_index
                    &&& final(self).peers@[i].last_log_term == old(self).peers@[i].last_log_term
                    &&& final(self).peers@[i].commit_index == old(self).peers@[i].commit_index
                    &&& final(self).peers@[i].vote_granted == old(self).peers@[i].vote_granted
                    &&& old(self).peers@[i].state.spec_is_offline() ==> final(self).peers@[i].stats_are_reset()
                    &&& !old(self).peers@[i].state.spec_is_offline() ==> final(self).peers@[i].hb_window@
                        == old(self).peers@[i].hb_window@.update(old(self).peers@[i].hb_window_pos as int, rtt)
                    &&& changed == (final(self).peers@[i].state != old(self).peers@[i].state)
                    &&& forall|j: int|
                        0 <= j < old(self).peers@.len() && j != i ==> final(self).peers@[j]
                            == old(self).peers@[j]
                },
    {
        match self.find_peer(peer_id) {
            Some(i) => {
                let ghost before = self.peers@;
                let changed = self.peers[i].on_heartbeat_reply(rtt, now);
                proof {
                    assert(self.peers@ == before.update(i as int, self.peers@[i as int]));
                    assert forall|a: int| #[trigger] old(self).peer_at(peer_id, a) implies a == i by {
                        if a < i {
                            assert(before[a].peer_id != before[i as int].peer_id);
                        } else if i < a {
                            assert(before[i as int].peer_id != before[a].peer_id);
                        }
                    }
                    assert forall|a: int, b: int|
                        0 <= a < b < self.peers@.len() implies (#[trigger] self.peers@[a]).peer_id
                        != (#[trigger] self.peers@[b]).peer_id by {
                        assert(before[a].peer_id != before[b].peer_id);
                    }
                    assert forall|a: int| 0 <= a < self.peers@.len() implies (
                    #[trigger] self.peers@[a]).inv() by {
                        if a != i {
                            assert(self.peers@[a] == before[a]);
                        }
                    }
                }
                changed
            },
            None => false,
        }
    }

    /// Checks every peer against its deadline at `now` (see
    /// `Peer::check_deadline`) and returns the ids of those whose lifecycle
    /// state changed, in registry order.
    pub fn check_peers(&mut self, now: u64) -> (r: Vec<PeerId>)
        requires
            old(self).inv(),
        ensures
            final(self).inv(),
            final(self).shards@ == old(self).shards@,
            final(self).config == old(self).config,
            final(self).peers@.len() == old(self).peers@.len(),
            forall|i: int|
                0 <= i < old(self).peers@.len() ==> {
                    let p = old(self).peers@[i];
                    &&& (#[trigger] final(self).peers@[i]).peer_id == p.peer_id
                    &&& final(self).peers@[i].shard_id == p.shard_id
                    &&& final(self).peers@[i].state == p.state.after_check(
                        elapsed_since(now, p.last_heartbeat),
                        p.spec_deadline(old(self).config),
                    )
                },
            r@ == changed_ids(old(self).peers@, final(self).peers@),
    {
        let ghost before = self.peers@;
        let cfg = self.config;
        let mut r: Vec<PeerId> = Vec::new();
        let mut i: usize = 0;
        while i < self.peers.len()
            invariant
                i <= self.peers@.len() == before.len(),
                cfg == self.config,
                cfg == old(self).config,
                before == old(self).peers@,
                self.shards@ == old(self).shards@,
                self.peer_id == old(self).peer_id,
                old(self).inv(),
                forall|j: int| 0 <= j < before.len() ==> (#[trigger] self.peers@[j]).inv(),
                forall|j: int|
                    0 <= j < before.len() ==> (#[trigger] self.peers@[j]).peer_id == before[j].peer_id
                        && self.peers@[j].shard_id == before[j].shard_id,
                forall|j: int|
                    i <= j < before.len() ==> #[trigger] self.peers@[j] == before[j],
                forall|j: int|
                    0 <= j < i ==> (#[trigger] self.peers@[j]).state == before[j].state.after_check(
                        elapsed_since(now, before[j].last_heartbeat),
                        before[j].spec_deadline(cfg),
                    ),
                r@ == changed_ids(before.subrange(0, i as int), self.peers@.subrange(0, i as int)),
            decreases before.len() - i,
        {
            let ghost mid = self.peers@;
            let changed = self.peers[i].check_deadline(now, cfg);
            proof {
                assert(self.peers@ == mid.update(i as int, self.peers@[i as int]));
                let b1 = before.subrange(0, i + 1);
                let a1 = self.peers@.subrange(0, i + 1);
                assert(b1.drop_last() =~= before.subrange(0, i as int));
                assert(a1.subrange(0, a1.len() - 1) =~= self.peers@.subrange(0, i as int));
                assert(self.peers@.subrange(0, i as int) =~= mid.subrange(0, i as int));
            }
            if changed {
                r.push(self.peers[i].peer_id);
            }
            i = i + 1;
        }
        proof {
            assert(before.subrange(0, before.len() as int) =~= before);
            assert(self.peers@.subrange(0, before.len() as int) =~= self.peers@);
            assert forall|a: int, b: int|
                0 <= a < b < self.peers@.len() implies (#[trigger] self.peers@[a]).peer_id
                != (#[trigger] self.peers@[b]).peer_id by {
                assert(before[a].peer_id != before[b].peer_id);
            }
        }
        r
    }
}

} // verus!
