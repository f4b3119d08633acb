use jmap_cluster::cluster::{Cluster, NoLeaderError, PeerSnapshot};
use jmap_cluster::election::Role;
use jmap_cluster::heartbeat::DetectorConfig;
use jmap_cluster::peer::{PeerInfo, State, UpsertOutcome};

fn config() -> DetectorConfig {
    DetectorConfig { sensitivity: 3, min_timeout: 100, initial_timeout: 1000 }
}

fn info(peer_id: u64, shard_id: u32, epoch: u64, addr: &str) -> PeerInfo {
    PeerInfo {
        peer_id,
        shard_id,
        epoch,
        generation: epoch,
        addr: addr.to_string(),
        hostname: format!("node{}", peer_id),
        last_log_index: 6,
        last_log_term: 2,
    }
}

#[test]
fn upsert_merges_by_epoch() {
    let mut c = Cluster::new(1, 1, config());
    assert_eq!(c.upsert_peer(info(2, 1, 5, "a:1"), 10), UpsertOutcome::Inserted);
    assert!(c.is_known_peer(2));
    assert_eq!(c.get_peer(2).unwrap().state, State::Seed);
    // Warm up the heartbeat statistics.
    {
        let p = c.get_peer_mut(2).unwrap();
        p.on_heartbeat_reply(30, 20);
        p.on_heartbeat_reply(35, 30);
    }
    assert!(c.is_peer_healthy(2));
    // Lower epoch: ignored.
    assert_eq!(c.upsert_peer(info(2, 3, 4, "old:1"), 40), UpsertOutcome::Stale);
    assert_eq!(c.get_peer(2).unwrap().addr, "a:1");
    assert_eq!(c.get_peer(2).unwrap().hb_sum, 65);
    // Same epoch: fields refreshed, statistics and state kept.
    assert_eq!(c.upsert_peer(info(2, 1, 5, "b:1"), 50), UpsertOutcome::Updated);
    let p = c.get_peer(2).unwrap();
    assert_eq!(p.addr, "b:1");
    assert_eq!(p.hb_sum, 65);
    assert_eq!(p.state, State::Alive);
    // Higher epoch: a restarted process, statistics reset.
    assert_eq!(c.upsert_peer(info(2, 1, 6, "c:1"), 60), UpsertOutcome::Restarted);
    let p = c.get_peer(2).unwrap();
    assert_eq!(p.addr, "c:1");
    assert_eq!(p.epoch, 6);
    assert_eq!(p.hb_sum, 0);
    assert_eq!(p.state, State::Seed);
    assert_eq!(c.peers.len(), 1);
}

#[test]
fn remove_and_list_by_shard() {
    let mut c = Cluster::new(1, 1, config());
    c.upsert_peer(info(2, 1, 1, "a:1"), 0);
    c.upsert_peer(info(3, 2, 1, "b:1"), 0);
    c.upsert_peer(info(4, 1, 1, "c:1"), 0);
    assert_eq!(c.list_by_shard(1), vec![2, 4]);
    assert_eq!(c.list_by_shard(2), vec![3]);
    assert!(c.list_by_shard(9).is_empty());
    assert!(c.remove_peer(2));
    assert!(!c.remove_peer(2));
    assert!(!c.is_known_peer(2));
    assert!(c.get_peer(2).is_none());
    assert!(c.get_peer_mut(2).is_none());
    assert_eq!(c.list_by_shard(1), vec![4]);
}

#[test]
fn quorum_counts_healthy_peers_and_self() {
    let mut c = Cluster::new(1, 1, config());
    c.upsert_peer(info(2, 1, 1, "a:1"), 0);
    c.upsert_peer(info(3, 1, 1, "b:1"), 0);
    c.upsert_peer(info(4, 2, 1, "c:1"), 0);
    assert_eq!(c.quorum_size(1), 1);
    c.get_peer_mut(2).unwrap().on_heartbeat_reply(10, 5);
    c.get_peer_mut(3).unwrap().on_heartbeat_reply(10, 5);
    c.get_peer_mut(4).unwrap().on_heartbeat_reply(10, 5);
    assert_eq!(c.quorum_size(1), 3);
    // A suspected peer still counts; an offline one does not.
    c.get_peer_mut(3).unwrap().on_connection_closed();
    assert_eq!(c.quorum_size(1), 3);
    c.get_peer_mut(3).unwrap().check_deadline(5000, config());
    assert_eq!(c.get_peer(3).unwrap().state, State::Offline);
    assert_eq!(c.quorum_size(1), 2);
    assert!(!c.is_peer_healthy(3));
    assert!(!c.is_peer_healthy(9));
}

#[test]
fn submit_requires_leadership() {
    let mut c = Cluster::new(1, 7, config());
    assert_eq!(c.current_leader(7), None);
    assert_eq!(c.submit(7, vec![1]), Err(NoLeaderError { shard_id: 7 }));
    assert_eq!(c.submit(8, vec![1]), Err(NoLeaderError { shard_id: 8 }));
    let shard = &mut c.shards[0];
    shard.election.on_election_timeout(0, 0).unwrap();
    assert!(shard.election.handle_vote_response(2, 1, true, 3));
    assert_eq!(shard.election.role, Role::Leader);
    assert_eq!(c.current_leader(7), Some(1));
    assert_eq!(c.submit(7, vec![1, 2]), Ok(1));
    assert_eq!(c.submit(7, vec![3]), Ok(2));
    assert_eq!(c.shards[0].log.term_at(2), Some(1));
    assert_eq!(c.shards[0].log.commit_index, 0);
}

#[test]
fn status_lists_every_peer() {
    let mut c = Cluster::new(1, 1, config());
    c.upsert_peer(info(2, 1, 3, "a:1"), 0);
    c.upsert_peer(info(5, 4, 1, "b:1"), 0);
    let status = c.cluster_status();
    assert_eq!(
        status,
        vec![
            PeerSnapshot {
                peer_id: 2,
                shard_id: 1,
                epoch: 3,
                state: State::Seed,
                last_log_index: 6,
                commit_index: 6,
            },
            PeerSnapshot {
                peer_id: 5,
                shard_id: 4,
                epoch: 1,
                state: State::Seed,
                last_log_index: 6,
                commit_index: 6,
            },
        ]
    );
}

fn info_at(peer_id: u64, epoch: u64, last_log_index: u64, last_log_term: u64) -> PeerInfo {
    PeerInfo {
        peer_id,
        shard_id: 1,
        epoch,
        generation: epoch,
        addr: "a:1".to_string(),
        hostname: format!("node{}", peer_id),
        last_log_index,
        last_log_term,
    }
}

#[test]
fn gossip_never_moves_a_log_position_back() {
    let mut c = Cluster::new(1, 1, config());
    c.upsert_peer(info_at(2, 5, 6, 2), 0);
    assert_eq!(c.get_peer(2).unwrap().commit_index, 6);
    // A reordered, older description of the same epoch is stale for the log.
    assert_eq!(c.upsert_peer(info_at(2, 5, 3, 1), 10), UpsertOutcome::Updated);
    let p = c.get_peer(2).unwrap();
    assert_eq!((p.last_log_index, p.last_log_term, p.commit_index), (6, 2, 6));
    // A newer position is taken; the commit index is kept.
    c.upsert_peer(info_at(2, 5, 9, 3), 20);
    let p = c.get_peer(2).unwrap();
    assert_eq!((p.last_log_index, p.last_log_term, p.commit_index), (9, 3, 6));
    // A higher last index with an older last term is not newer.
    c.upsert_peer(info_at(2, 5, 12, 2), 30);
    assert_eq!(c.get_peer(2).unwrap().last_log_index, 9);
    // A restart keeps the position and commit index too.
    assert_eq!(c.upsert_peer(info_at(2, 6, 0, 0), 40), UpsertOutcome::Restarted);
    let p = c.get_peer(2).unwrap();
    assert_eq!((p.epoch, p.last_log_index, p.last_log_term, p.commit_index), (6, 9, 3, 6));
    assert_eq!(p.state, State::Seed);
}

#[test]
fn own_description_is_not_registered() {
    let mut c = Cluster::new(1, 1, config());
    assert_eq!(c.upsert_peer(info_at(1, 3, 0, 0), 0), UpsertOutcome::Own);
    assert!(!c.is_known_peer(1));
    assert!(c.peers.is_empty());
    c.upsert_peer(info_at(2, 3, 0, 0), 0);
    c.on_heartbeat_reply(2, 10, 5);
    let (_, targets) = c.start_election(1).unwrap();
    assert_eq!(targets, vec![2]);
}
