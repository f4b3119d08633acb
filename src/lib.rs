//! Cluster coordination for a JMAP server: peer registry, adaptive failure
//! detection, per-shard leader election and log replication, together with
//! the plain request and store types that the API layer shares with it.
use vstd::prelude::*;

pub mod api;
pub mod cluster;
pub mod election;
pub mod heartbeat;
pub mod jmap;
pub mod log;
pub mod peer;
pub mod store;
pub mod tokenizer;

verus! {

/// Stable identifier of a cluster member; never reused.
pub type PeerId = u64;

/// Shard (partition of accounts) that a peer serves; 0 is unassigned.
pub type ShardId = u32;

/// Election epoch, scoped per shard.
pub type Term = u64;

/// Position of an entry in a shard's replicated log, starting at 1.
pub type LogIndex = u64;

} // verus!
