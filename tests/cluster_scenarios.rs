use jmap_cluster::cluster::Cluster;
use jmap_cluster::election::{Role, VoteRequest};
use jmap_cluster::heartbeat::DetectorConfig;
use jmap_cluster::log::FollowerProgress;
use jmap_cluster::peer::{Peer, PeerInfo, State};

const SHARD: u32 = 1;

fn node(id: u64, others: &[u64]) -> Cluster {
    let config = DetectorConfig { sensitivity: 3, min_timeout: 100, initial_timeout: 1000 };
    let mut c = Cluster::new(id, SHARD, config);
    for &o in others {
        c.upsert_peer(
            PeerInfo {
                peer_id: o,
                shard_id: SHARD,
                epoch: 1,
                generation: 1,
                addr: format!("10.0.0.{}:7911", o),
                hostname: format!("node{}", o),
                last_log_index: 0,
                last_log_term: 0,
            },
            0,
        );
        assert!(c.on_heartbeat_reply(o, 20, 10));
    }
    c
}

fn fill_log(c: &mut Cluster, n: u64) {
    for i in 0..n {
        c.shards[0].log.append_new(0, vec![i as u8]).unwrap();
    }
}

#[test]
fn election_of_three_peers_with_a_seed() {
    let mut a = node(1, &[2, 3]);
    let mut b = node(2, &[1, 3]);
    let mut c = node(3, &[1, 2]);
    // A learned of B through the seed configuration only.
    a.peers[0] = Peer::new_seed(2, "10.0.0.2:7911".to_string(), 0);
    a.upsert_peer(
        PeerInfo {
            peer_id: 2,
            shard_id: SHARD,
            epoch: 1,
            generation: 1,
            addr: "10.0.0.2:7911".to_string(),
            hostname: "node2".to_string(),
            last_log_index: 5,
            last_log_term: 0,
        },
        5,
    );
    a.on_heartbeat_reply(2, 20, 10);
    a.on_heartbeat_reply(2, 20, 11);
    assert_eq!(a.get_peer(2).unwrap().state, State::Alive);
    fill_log(&mut a, 5);
    fill_log(&mut b, 5);
    fill_log(&mut c, 4);

    let (req, targets) = a.start_election(SHARD).unwrap();
    assert_eq!(req, VoteRequest { candidate: 1, term: 1, last_log_index: 5, last_log_term: 0 });
    assert_eq!(targets, vec![2, 3]);
    assert_eq!(a.shards[0].election.role, Role::Candidate);

    let (tb, gb) = b.handle_vote_request(SHARD, req).unwrap();
    let (tc, gc) = c.handle_vote_request(SHARD, req).unwrap();
    assert_eq!((tb, gb), (1, true));
    assert_eq!((tc, gc), (1, true));

    // Self plus B is two of three.
    assert_eq!(a.quorum_size(SHARD), 3);
    assert!(a.handle_vote_response(SHARD, 2, tb, gb));
    assert_eq!(a.current_leader(SHARD), Some(1));
    assert_eq!(a.shards[0].election.term, 1);
    assert_eq!(
        a.shards[0].followers,
        vec![
            FollowerProgress { peer_id: 2, next_index: 6, match_index: 0 },
            FollowerProgress { peer_id: 3, next_index: 6, match_index: 0 },
        ]
    );
    assert!(!a.handle_vote_response(SHARD, 3, tc, gc));
    // B and C have voted in term 1 and refuse anyone else.
    let rival = VoteRequest { candidate: 3, term: 1, last_log_index: 9, last_log_term: 0 };
    assert_eq!(b.handle_vote_request(SHARD, rival), Some((1, false)));
}

#[test]
fn leader_brings_lagging_follower_to_its_index() {
    let mut a = node(1, &[2, 3]);
    let mut b = node(2, &[1, 3]);
    fill_log(&mut a, 7);
    fill_log(&mut b, 7);
    let (req, _) = a.start_election(SHARD).unwrap();
    let (t, granted) = b.handle_vote_request(SHARD, req).unwrap();
    assert!(a.handle_vote_response(SHARD, 2, t, granted));
    for i in 8..=10u8 {
        assert_eq!(a.submit(SHARD, vec![i]), Ok(i as u64));
    }
    assert_eq!(a.shards[0].log.last_index(), 10);
    assert_eq!(b.shards[0].log.last_index(), 7);

    let mut prev_indexes = Vec::new();
    loop {
        let (term, prev, prev_term, entries, commit) = a.append_request(SHARD, 2).unwrap();
        prev_indexes.push(prev);
        let (t, outcome) =
            b.handle_append_entries(SHARD, 1, term, prev, prev_term, entries, commit).unwrap();
        a.handle_append_ack(SHARD, 2, t, outcome).unwrap();
        if outcome.success {
            break;
        }
    }
    assert_eq!(prev_indexes, vec![7]);
    assert_eq!(b.shards[0].log.last_index(), 10);
    assert_eq!(b.current_leader(SHARD), Some(1));
    // Entries 8..10 are now on two of three nodes: committed on the leader.
    assert_eq!(a.shards[0].log.commit_index, 10);
    // The next append tells B about the commit.
    let (term, prev, prev_term, entries, commit) = a.append_request(SHARD, 2).unwrap();
    assert_eq!((prev, entries.len(), commit), (10, 0, 10));
    let (_, outcome) =
        b.handle_append_entries(SHARD, 1, term, prev, prev_term, entries, commit).unwrap();
    assert!(outcome.success);
    assert_eq!(b.shards[0].log.commit_index, 10);
    assert_eq!(b.shards[0].log.next_to_apply(), Some(1));
}

#[test]
fn leader_retries_with_decreasing_prev_index() {
    let mut a = node(1, &[2, 3]);
    let mut b = node(2, &[1, 3]);
    fill_log(&mut b, 7);
    let (req, _) = a.start_election(SHARD).unwrap();
    let (t, granted) = b.handle_vote_request(SHARD, req).unwrap();
    assert!(!granted);
    assert_eq!(t, 1);
    // A log that is behind does not win B's vote; C alone elects A here.
    let mut c = node(3, &[1, 2]);
    let (t, granted) = c.handle_vote_request(SHARD, req).unwrap();
    assert!(a.handle_vote_response(SHARD, 3, t, granted));
    for i in 1..=10u8 {
        a.submit(SHARD, vec![i]).unwrap();
    }
    // B holds seven entries of term 0, which conflict with A's term-1 log.
    a.shards[0].followers[0].next_index = 10;
    let mut prev_indexes = Vec::new();
    loop {
        let (term, prev, prev_term, entries, commit) = a.append_request(SHARD, 2).unwrap();
        prev_indexes.push(prev);
        let (t, outcome) =
            b.handle_append_entries(SHARD, 1, term, prev, prev_term, entries, commit).unwrap();
        a.handle_append_ack(SHARD, 2, t, outcome).unwrap();
        if outcome.success {
            break;
        }
    }
    assert_eq!(prev_indexes, vec![9, 7, 6, 5, 4, 3, 2, 1, 0]);
    assert_eq!(b.shards[0].log.last_index(), 10);
    assert_eq!(b.shards[0].log.term_at(1), Some(1));
}

#[test]
fn sweep_reports_changed_peers() {
    let mut a = node(1, &[2, 3]);
    a.on_heartbeat_reply(3, 20, 900);
    assert_eq!(a.check_peers(1011), vec![2]);
    assert_eq!(a.get_peer(2).unwrap().state, State::Suspected);
    assert_eq!(a.check_peers(1500), Vec::<u64>::new());
    assert_eq!(a.check_peers(2500), vec![2, 3]);
    assert_eq!(a.get_peer(2).unwrap().state, State::Offline);
    assert_eq!(a.get_peer(3).unwrap().state, State::Suspected);
    assert_eq!(a.quorum_size(SHARD), 2);
}
