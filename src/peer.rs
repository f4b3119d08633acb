//! A cluster member as this node sees it: identity, lifecycle state and
//! heartbeat statistics.
use vstd::prelude::*;

use crate::heartbeat::{
    adaptive_deadline, lemma_sums_bounded, lemma_sums_update, lemma_zeros_sum, seq_sq_sum, seq_sum,
    spec_adaptive_deadline, DetectorConfig, HEARTBEAT_WINDOW,
};
use crate::{LogIndex, PeerId, ShardId, Term};

verus! {

/// Lifecycle of a peer as seen by the failure detector.
#[derive(Debug, Clone, Copy, PartialEq, Eq, Structural)]
pub enum State {
    Seed,
    Alive,
    Suspected,
    Offline,
    Left,
}

impl State {
    /// A suspected peer still counts toward quorum until confirmed offline.
    pub open spec fn spec_is_healthy(self) -> bool {
        self == State::Alive || self == State::Suspected
    }

    pub open spec fn spec_is_offline(self) -> bool {
        self == State::Offline || self == State::Left
    }

    /// State after a heartbeat reply: a seed or suspected peer becomes alive;
    /// an offline or departed peer is re-admitted as a new seed.
    pub open spec fn after_reply(self) -> State {
        if self.spec_is_offline() {
            State::Seed
        } else {
            State::Alive
        }
    }

    /// State after a liveness check, `elapsed` milliseconds after the last
    /// reply, against deadline `d`: one missed deadline makes an alive peer
    /// suspected, two consecutive ones make a suspected peer offline.
    pub open spec fn after_check(self, elapsed: int, d: int) -> State {
        if self == State::Alive && elapsed > d {
            State::Suspected
        } else if self == State::Suspected && elapsed > 2 * d {
            State::Offline
        } else {
            self
        }
    }
}

/// What a peer announces of itself when it is introduced by gossip.
#[derive(Debug, Clone)]
pub struct PeerInfo {
    pub peer_id: PeerId,
    pub shard_id: ShardId,
    pub epoch: u64,
    pub generation: u64,
    pub addr: String,
    pub hostname: String,
    pub last_log_index: LogIndex,
    pub last_log_term: Term,
}

/// One cluster member as this node knows it.
///
/// Times are milliseconds on the node's monotonic clock; the heartbeat
/// statistics keep a circular window of round-trip samples together with
/// their running sum and sum of squares.
#[derive(Debug, Clone)]
pub struct Peer {
    pub peer_id: PeerId,
    pub shard_id: ShardId,
    pub epoch: u64,
    pub generation: u64,
    pub addr: String,
    pub hostname: String,
    pub state: State,
    pub last_heartbeat: u64,
    pub hb_window: Vec<u32>,
    pub hb_window_pos: usize,
    pub hb_sum: u64,
    pub hb_sq_sum: u128,
    pub hb_is_full: bool,
    pub last_log_index: LogIndex,
    pub last_log_term: Term,
    pub commit_index: LogIndex,
    /// Part of a peer's description but not kept by this node: a node's own
    /// votes live in its per-shard `Election` (`voted_for`, `votes`), so the
    /// registry leaves this `false`.
    pub vote_granted: bool,
}

/// How a gossiped description was merged into the registry.
#[derive(Debug, Clone, Copy, PartialEq, Eq, Structural)]
pub enum UpsertOutcome {
    /// The peer was unknown and has been added as a seed.
    Inserted,
    /// Same epoch: address, shard and log position were refreshed.
    Updated,
    /// Higher epoch: the process restarted; statistics were reset and the
    /// peer is a seed again.
    Restarted,
    /// Lower epoch: the description is stale and was ignored.
    Stale,
    /// The description is of this node itself, which the registry does not
    /// hold; it was ignored.
    Own,
}

/// A window of `HEARTBEAT_WINDOW` zero samples.
fn zero_window() -> (r: Vec<u32>)
    ensures
        r@ == Seq::new(HEARTBEAT_WINDOW as nat, |i: int| 0u32),
{
    let mut r: Vec<u32> = Vec::new();
    let mut i: usize = 0;
    while i < HEARTBEAT_WINDOW
        invariant
            i <= HEARTBEAT_WINDOW,
            r@ == Seq::new(i as nat, |j: int| 0u32),
        decreases HEARTBEAT_WINDOW - i,
    {
        r.push(0);
        i = i + 1;
        assert(r@ =~= Seq::new(i as nat, |j: int| 0u32));
    }
    r
}

impl Peer {
    /// The heartbeat statistics are consistent with the sample window, and
    /// the peer never claims to have committed past its log.
    pub open spec fn inv(&self) -> bool {
        &&& self.hb_window@.len() == HEARTBEAT_WINDOW
        &&& self.hb_window_pos < HEARTBEAT_WINDOW
        &&& self.hb_sum == seq_sum(self.hb_window@)
        &&& self.hb_sq_sum == seq_sq_sum(self.hb_window@)
        &&& self.commit_index <= self.last_log_index
    }

    /// The statistics of a peer that has not been heard from yet.
    pub open spec fn stats_are_reset(&self) -> bool {
        &&& self.hb_window@ == Seq::new(HEARTBEAT_WINDOW as nat, |i: int| 0u32)
        &&& self.hb_window_pos == 0
        &&& self.hb_sum == 0
        &&& self.hb_sq_sum == 0
        &&& !self.hb_is_full
    }

    /// `self` is a freshly created peer for `info`, in `state`, last heard
    /// from at `now`.
    pub open spec fn describes(&self, info: PeerInfo, state: State, now: u64) -> bool {
        &&& self.inv()
        &&& self.stats_are_reset()
        &&& self.peer_id == info.peer_id
        &&& self.shard_id == info.shard_id
        &&& self.epoch == info.epoch
        &&& self.generation == info.generation
        &&& self.addr@ == info.addr@
        &&& self.hostname@ == info.hostname@
        &&& self.state == state
        &&& self.last_heartbeat == now
        &&& self.last_log_index == info.last_log_index
        &&& self.last_log_term == info.last_log_term
        &&& self.commit_index == info.last_log_index
        &&& !self.vote_granted
    }

    /// A peer known only from the seed configuration.
    pub fn new_seed(peer_id: PeerId, addr: String, now: u64) -> (r: Peer)
        ensures
            r.inv(),
            r.stats_are_reset(),
            r.peer_id == peer_id,
            r.shard_id == 0,
            r.epoch == 0,
            r.generation == 0,
            r.addr@ == addr@,
            r.hostname@ == Seq::<char>::empty(),
            r.state == State::Seed,
            r.last_heartbeat == now,
            r.last_log_index == 0,
            r.last_log_term == 0,
            r.commit_index == 0,
            !r.vote_granted,
    {
        let hb_window = zero_window();
        proof {
            lemma_zeros_sum(HEARTBEAT_WINDOW as nat);
        }
        Peer {
            peer_id,
            shard_id: 0,
            epoch: 0,
            generation: 0,
            addr,
            hostname: String::new(),
            state: State::Seed,
            last_heartbeat: now,
            hb_window,
            hb_window_pos: 0,
            hb_sum: 0,
            hb_sq_sum: 0,
            hb_is_full: false,
            last_log_index: 0,
            last_log_term: 0,
            commit_index: 0,
            vote_granted: false,
        }
    }

    /// A peer introduced by gossip, in the given lifecycle state.
    pub fn new(peer: PeerInfo, state: State, now: u64) -> (r: Peer)
        ensures
            r.inv(),
            r.stats_are_reset(),
            r.peer_id == peer.peer_id,
            r.shard_id == peer.shard_id,
            r.epoch == peer.epoch,
            r.generation == peer.generation,
            r.addr@ == peer.addr@,
            r.hostname@ == peer.hostname@,
            r.state == state,
            r.last_heartbeat == now,
            r.last_log_index == peer.last_log_index,
            r.last_log_term == peer.last_log_term,
            r.commit_index == peer.last_log_index,
            !r.vote_granted,
            r.describes(peer, state, now),
    {
        let hb_window = zero_window();
        proof {
            lemma_zeros_sum(HEARTBEAT_WINDOW as nat);
        }
        Peer {
            peer_id: peer.peer_id,
            shard_id: peer.shard_id,
            epoch: peer.epoch,
            generation: peer.generation,
            addr: peer.addr,
            hostname: peer.hostname,
            state,
            last_heartbeat: now,
            hb_window,
            hb_window_pos: 0,
            hb_sum: 0,
            hb_sq_sum: 0,
            hb_is_full: false,
            last_log_index: peer.last_log_index,
            last_log_term: peer.last_log_term,
            commit_index: peer.last_log_index,
            vote_granted: false,
        }
    }

    /// A gossiped log position replaces the recorded one only when it is not
    /// behind it: neither its last term nor its last index is smaller.
    pub open spec fn takes_position(&self, info: PeerInfo) -> bool {
        info.last_log_term >= self.last_log_term && info.last_log_index >= self.last_log_index
    }

    pub open spec fn merge_outcome(&self, info: PeerInfo) -> UpsertOutcome {
        if info.epoch < self.epoch {
            UpsertOutcome::Stale
        } else if info.epoch > self.epoch {
            UpsertOutcome::Restarted
        } else {
            UpsertOutcome::Updated
        }
    }

    /// `after` is this record once `info`, received at `now`, is merged in:
    /// a lower epoch changes nothing; otherwise identity and address come
    /// from `info`, the log position only moves forward and the commit index
    /// is kept; a higher epoch (a restarted process) also makes the peer a
    /// seed again with fresh statistics.
    pub open spec fn merged(&self, info: PeerInfo, now: u64, after: Peer) -> bool {
        if info.epoch < self.epoch {
            after == *self
        } else {
            &&& after.inv()
            &&& after.peer_id == self.peer_id
            &&& after.epoch == info.epoch
            &&& after.shard_id == info.shard_id
            &&& after.generation == info.generation
            &&& after.addr@ == info.addr@
            &&& after.hostname@ == info.hostname@
            &&& after.last_log_index == if self.takes_position(info) {
                info.last_log_index
            } else {
                self.last_log_index
            }
            &&& after.last_log_term == if self.takes_position(info) {
                info.last_log_term
            } else {
                self.last_log_term
            }
            &&& after.commit_index == self.commit_index
            &&& if info.epoch > self.epoch {
                &&& after.state == State::Seed
                &&& after.stats_are_reset()
                &&& after.last_heartbeat == now
                &&& !after.vote_granted
            } else {
                &&& after.state == self.state
                &&& after.last_heartbeat == self.last_heartbeat
                &&& after.hb_window@ == self.hb_window@
                &&& after.hb_window_pos == self.hb_window_pos
                &&& after.hb_sum == self.hb_sum
                &&& after.hb_is_full == self.hb_is_full
                &&& after.vote_granted == self.vote_granted
            }
        }
    }

    /// Merges a gossiped description of this same peer (see `merged`).
    /// Gossip may arrive reordered, so an older log position is treated as
    /// stale and neither the log position nor the commit index goes down.
    pub fn merge_info(&mut self, info: PeerInfo, now: u64) -> (r: UpsertOutcome)
        requires
            old(self).inv(),
            info.peer_id == old(self).peer_id,
        ensures
            r == old(self).merge_outcome(info),
            old(self).merged(info, now, *final(self)),
            final(self).inv(),
            final(self).last_log_index >= old(self).last_log_index,
            final(self).last_log_term >= old(self).last_log_term,
            final(self).commit_index == old(self).commit_index,
    {
        if info.epoch < self.epoch {
            return UpsertOutcome::Stale;
        }
        let takes = info.last_log_term >= self.last_log_term && info.last_log_index
            >= self.last_log_index;
        let last_log_index = if takes {
            info.last_log_index
        } else {
            self.last_log_index
        };
        let last_log_term = if takes {
            info.last_log_term
        } else {
            self.last_log_term
        };
        let commit_index = self.commit_index;
        if info.epoch > self.epoch {
            *self = Peer::new(info, State::Seed, now);
            self.last_log_index = last_log_index;
            self.last_log_term = last_log_term;
            self.commit_index = commit_index;
            UpsertOutcome::Restarted
        } else {
            self.shard_id = info.shard_id;
            self.generation = info.generation;
            self.addr = info.addr;
            self.hostname = info.hostname;
            self.last_log_index = last_log_index;
            self.last_log_term = last_log_term;
            UpsertOutcome::Updated
        }
    }

    pub fn is_seed(&self) -> (r: bool)
        ensures
            r == (self.state == State::Seed),
    {
        self.state == State::Seed
    }

    pub fn is_alive(&self) -> (r: bool)
        ensures
            r == (self.state == State::Alive),
    {
        self.state == State::Alive
    }

    pub fn is_suspected(&self) -> (r: bool)
        ensures
            r == (self.state == State::Suspected),
    {
        self.state == State::Suspected
    }

    pub fn is_healthy(&self) -> (r: bool)
        ensures
            r == self.state.spec_is_healthy(),
    {
        matches!(self.state, State::Alive | State::Suspected)
    }

    pub fn is_offline(&self) -> (r: bool)
        ensures
            r == self.state.spec_is_offline(),
    {
        matches!(self.state, State::Offline | State::Left)
    }

    pub fn is_in_shard(&self, shard_id: ShardId) -> (r: bool)
        ensures
            r == (self.shard_id == shard_id),
    {
        self.shard_id == shard_id
    }

    /// Forgets every round-trip sample.
    pub fn reset_heartbeat_stats(&mut self)
        requires
            old(self).inv(),
        ensures
            final(self).inv(),
            final(self).stats_are_reset(),
            final(self).peer_id == old(self).peer_id,
            final(self).shard_id == old(self).shard_id,
            final(self).epoch == old(self).epoch,
            final(self).state == old(self).state,
            final(self).last_heartbeat == old(self).last_heartbeat,
            final(self).last_log_index == old(self).last_log_index,
            final(self).last_log_term == old(self).last_log_term,
            final(self).commit_index == old(self).commit_index,
            final(self).vote_granted == old(self).vote_granted,
            final(self).addr@ == old(self).addr@,
            final(self).generation == old(self).generation,
    {
        self.hb_window = zero_window();
        proof {
            lemma_zeros_sum(HEARTBEAT_WINDOW as nat);
        }
        self.hb_window_pos = 0;
        self.hb_sum = 0;
        self.hb_sq_sum = 0;
        self.hb_is_full = false;
    }

    /// Pushes one round-trip sample into the circular window, evicting the
    /// oldest one and keeping the running sums exact.
    pub fn record_round_trip(&mut self, rtt: u32)
        requires
            old(self).inv(),
        ensures
            final(self).inv(),
            final(self).hb_window@ == old(self).hb_window@.update(old(self).hb_window_pos as int, rtt),
            final(self).hb_window_pos as int == (old(self).hb_window_pos + 1) % (HEARTBEAT_WINDOW as int),
            final(self).hb_is_full == (old(self).hb_is_full || old(self).hb_window_pos + 1 == HEARTBEAT_WINDOW),
            final(self).peer_id == old(self).peer_id,
            final(self).shard_id == old(self).shard_id,
            final(self).epoch == old(self).epoch,
            final(self).state == old(self).state,
            final(self).last_heartbeat == old(self).last_heartbeat,
            final(self).last_log_index == old(self).last_log_index,
            final(self).last_log_term == old(self).last_log_term,
            final(self).commit_index == old(self).commit_index,
            final(self).vote_granted == old(self).vote_granted,
            final(self).addr@ == old(self).addr@,
            final(self).generation == old(self).generation,
    {
        let pos = self.hb_window_pos;
        let evicted = self.hb_window[pos];
        proof {
            lemma_sums_update(self.hb_window@, pos as int, rtt);
            lemma_sums_bounded(self.hb_window@);
            lemma_sums_bounded(self.hb_window@.update(pos as int, rtt));
            assert(self.hb_window@[pos as int] == evicted);
            assert(evicted * evicted <= self.hb_sq_sum) by {
                assert(seq_sq_sum(self.hb_window@.update(pos as int, 0)) >= 0) by {
                    lemma_sums_bounded(self.hb_window@.update(pos as int, 0));
                }
                lemma_sums_update(self.hb_window@, pos as int, 0);
            }
            assert(evicted <= self.hb_sum) by {
                lemma_sums_bounded(self.hb_window@.update(pos as int, 0));
                lemma_sums_update(self.hb_window@, pos as int, 0);
            }
        }
        self.hb_sum = self.hb_sum - evicted as u64 + rtt as u64;
        self.hb_sq_sum = self.hb_sq_sum - (evicted as u128) * (evicted as u128) + (rtt as u128) * (
        rtt as u128);
        self.hb_window.set(pos, rtt);
        if pos + 1 == HEARTBEAT_WINDOW {
            self.hb_window_pos = 0;
            self.hb_is_full = true;
        } else {
            self.hb_window_pos = pos + 1;
        }
    }

    /// Deadline for the next heartbeat reply: adaptive once the window has
    /// filled, the configured initial timeout before that; never below the
    /// configured minimum.
    pub open spec fn spec_deadline(&self, cfg: DetectorConfig) -> int {
        if self.hb_is_full {
            spec_adaptive_deadline(self.hb_window@, cfg)
        } else if cfg.initial_timeout < cfg.min_timeout {
            cfg.min_timeout as int
        } else {
            cfg.initial_timeout as int
        }
    }

    /// Handles a heartbeat reply measured at `rtt` milliseconds and received
    /// at `now`; returns whether the lifecycle state changed.
    pub fn on_heartbeat_reply(&mut self, rtt: u32, now: u64) -> (changed: bool)
        requires
            old(self).inv(),
        ensures
            final(self).inv(),
            final(self).state == old(self).state.after_reply(),
            changed == (final(self).state != old(self).state),
            final(self).last_heartbeat == now,
            old(self).state.spec_is_offline() ==> final(self).stats_are_reset(),
            !old(self).state.spec_is_offline() ==> final(self).hb_window@ == old(self).hb_window@.update(
                old(self).hb_window_pos as int,
                rtt,
            ),
            final(self).peer_id == old(self).peer_id,
            final(self).shard_id == old(self).shard_id,
            final(self).epoch == old(self).epoch,
            final(self).generation == old(self).generation,
            final(self).addr@ == old(self).addr@,
            final(self).last_log_index == old(self).last_log_index,
            final(self).last_log_term == old(self).last_log_term,
            final(self).commit_index == old(self).commit_index,
            final(self).vote_granted == old(self).vote_granted,
    {
        let previous = self.state;
        if self.is_offline() {
            self.reset_heartbeat_stats();
            self.state = State::Seed;
        } else {
            self.record_round_trip(rtt);
            self.state = State::Alive;
        }
        self.last_heartbeat = now;
        self.state != previous
    }

    /// Checks the peer against its deadline at time `now`; returns whether
    /// the lifecycle state changed.
    pub fn check_deadline(&mut self, now: u64, cfg: DetectorConfig) -> (changed: bool)
        requires
            old(self).inv(),
        ensures
            final(self).inv(),
            ({
                let elapsed = if now >= old(self).last_heartbeat {
                    now - old(self).last_heartbeat
                } else {
                    0
                };
                final(self).state == old(self).state.after_check(
                    elapsed,
                    old(self).spec_deadline(cfg),
                )
            }),
            changed == (final(self).state != old(self).state),
            final(self).peer_id == old(self).peer_id,
            final(self).shard_id == old(self).shard_id,
            final(self).epoch == old(self).epoch,
            final(self).last_heartbeat == old(self).last_heartbeat,
            final(self).hb_window@ == old(self).hb_window@,
            final(self).hb_is_full == old(self).hb_is_full,
            final(self).last_log_index == old(self).last_log_index,
            final(self).commit_index == old(self).commit_index,
    {
        let d = self.deadline(cfg) as u128;
        let elapsed: u128 = if now >= self.last_heartbeat {
            (now - self.last_heartbeat) as u128
        } else {
            0
        };
        let previous = self.state;
        if self.state == State::Alive && elapsed > d {
            self.state = State::Suspected;
        } else if self.state == State::Suspected && elapsed > 2 * d {
            self.state = State::Offline;
        }
        self.state != previous
    }

    /// The peer announced a graceful shutdown.
    pub fn on_leave(&mut self)
        requires
            old(self).inv(),
        ensures
            final(self).inv(),
            final(self).state == State::Left,
            final(self).peer_id == old(self).peer_id,
            final(self).shard_id == old(self).shard_id,
            final(self).epoch == old(self).epoch,
            final(self).last_log_index == old(self).last_log_index,
            final(self).commit_index == old(self).commit_index,
    {
        self.state = State::Left;
    }

    /// The connection to the peer closed: an alive peer becomes suspected
    /// rather than waiting for its deadline; other states are kept.
    pub fn on_connection_closed(&mut self)
        requires
            old(self).inv(),
        ensures
            final(self).inv(),
            final(self).state == (if old(self).state == State::Alive {
                State::Suspected
            } else {
                old(self).state
            }),
            final(self).peer_id == old(self).peer_id,
            final(self).shard_id == old(self).shard_id,
            final(self).epoch == old(self).epoch,
            final(self).last_log_index == old(self).last_log_index,
            final(self).commit_index == old(self).commit_index,
    {
        if self.state == State::Alive {
            self.state = State::Suspected;
        }
    }

    pub fn deadline(&self, cfg: DetectorConfig) -> (r: u64)
        requires
            self.inv(),
        ensures
            r == self.spec_deadline(cfg),
    {
        if self.hb_is_full {
            adaptive_deadline(&self.hb_window, self.hb_sum, self.hb_sq_sum, cfg)
        } else if cfg.initial_timeout < cfg.min_timeout {
            cfg.min_timeout
        } else {
            cfg.initial_timeout
        }
    }
}

} // verus!
