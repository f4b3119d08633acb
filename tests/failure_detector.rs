use jmap_cluster::heartbeat::{adaptive_deadline, integer_sqrt, DetectorConfig, HEARTBEAT_WINDOW};
use jmap_cluster::peer::{Peer, PeerInfo, State};

fn config() -> DetectorConfig {
    DetectorConfig {
        sensitivity: 3,
        min_timeout: 100,
        initial_timeout: 1000,
    }
}

fn info(peer_id: u64, shard_id: u32, epoch: u64) -> PeerInfo {
    PeerInfo {
        peer_id,
        shard_id,
        epoch,
        generation: 0,
        addr: format!("10.0.0.{}:7911", peer_id),
        hostname: format!("node{}", peer_id),
        last_log_index: 4,
        last_log_term: 1,
    }
}

#[test]
fn integer_sqrt_exact_values() {
    assert_eq!(integer_sqrt(0), 0);
    assert_eq!(integer_sqrt(1), 1);
    assert_eq!(integer_sqrt(15), 3);
    assert_eq!(integer_sqrt(16), 4);
    assert_eq!(integer_sqrt(17), 4);
    assert_eq!(integer_sqrt(u64::MAX as u128), 4_294_967_295);
}

#[test]
fn deadline_of_constant_window_is_the_mean() {
    let w = vec![50u32; HEARTBEAT_WINDOW];
    let sum: u64 = w.iter().map(|&x| x as u64).sum();
    let sq: u128 = w.iter().map(|&x| (x as u128) * (x as u128)).sum();
    let cfg = DetectorConfig { sensitivity: 3, min_timeout: 10, initial_timeout: 1000 };
    assert_eq!(adaptive_deadline(&w, sum, sq, cfg), 50);
    // Floored at the minimum.
    let cfg = DetectorConfig { sensitivity: 3, min_timeout: 120, initial_timeout: 1000 };
    assert_eq!(adaptive_deadline(&w, sum, sq, cfg), 120);
}

#[test]
fn deadline_adds_k_standard_deviations() {
    // Half the samples at 40, half at 60: mean 50, variance 100, stddev 10.
    let mut w = vec![40u32; HEARTBEAT_WINDOW / 2];
    w.extend(vec![60u32; HEARTBEAT_WINDOW / 2]);
    let sum: u64 = w.iter().map(|&x| x as u64).sum();
    let sq: u128 = w.iter().map(|&x| (x as u128) * (x as u128)).sum();
    let cfg = DetectorConfig { sensitivity: 3, min_timeout: 10, initial_timeout: 1000 };
    assert_eq!(adaptive_deadline(&w, sum, sq, cfg), 80);
}

#[test]
fn window_keeps_running_sums() {
    let mut p = Peer::new_seed(1, "10.0.0.1:7911".to_string(), 0);
    for i in 0..(HEARTBEAT_WINDOW as u32 + 3) {
        p.record_round_trip(10 + i);
    }
    assert!(p.hb_is_full);
    assert_eq!(p.hb_window_pos, 3);
    let sum: u64 = p.hb_window.iter().map(|&x| x as u64).sum();
    let sq: u128 = p.hb_window.iter().map(|&x| (x as u128) * (x as u128)).sum();
    assert_eq!(p.hb_sum, sum);
    assert_eq!(p.hb_sq_sum, sq);
    // The three oldest samples were evicted.
    assert_eq!(p.hb_window[0], 10 + HEARTBEAT_WINDOW as u32);
}

#[test]
fn adaptive_timeout_converges() {
    let cfg = DetectorConfig { sensitivity: 4, min_timeout: 10, initial_timeout: 1000 };
    let mut p = Peer::new_seed(2, "10.0.0.2:7911".to_string(), 0);
    let stream = [50u32, 52, 48, 51, 49];
    let mut now = 0u64;
    let mut deadlines = Vec::new();
    for round in 0..40 {
        for &rtt in stream.iter() {
            now += 100;
            p.on_heartbeat_reply(rtt, now);
            if p.hb_is_full {
                deadlines.push(p.deadline(cfg));
            }
        }
        if round == 0 {
            // Until the window fills, the initial timeout applies.
            assert_eq!(p.deadline(cfg), 1000);
        }
    }
    assert!(deadlines.len() > 100);
    let last = *deadlines.last().unwrap() as f64;
    for d in deadlines {
        let d = d as f64;
        assert!((d - last).abs() <= 0.05 * last, "deadline {} vs {}", d, last);
    }
    assert!(last >= 50.0 && last <= 60.0);
}

#[test]
fn missed_deadlines_suspect_then_offline() {
    let cfg = config();
    let mut p = Peer::new(info(3, 1, 1), State::Seed, 0);
    assert!(p.is_seed());
    assert!(p.on_heartbeat_reply(40, 0));
    assert!(p.is_alive());
    assert!(p.is_healthy());
    // Within the deadline nothing changes.
    assert!(!p.check_deadline(1000, cfg));
    assert!(p.is_alive());
    // One missed deadline: suspected, still healthy.
    assert!(p.check_deadline(1001, cfg));
    assert!(p.is_suspected());
    assert!(p.is_healthy());
    assert!(!p.is_offline());
    assert!(!p.check_deadline(2000, cfg));
    assert_eq!(p.state, State::Suspected);
    // Second consecutive miss: offline.
    assert!(p.check_deadline(2001, cfg));
    assert_eq!(p.state, State::Offline);
    assert!(p.is_offline());
    assert!(!p.is_healthy());
}

#[test]
fn suspected_peer_recovers_on_reply() {
    let cfg = config();
    let mut p = Peer::new(info(4, 1, 1), State::Alive, 0);
    assert!(p.check_deadline(1500, cfg));
    assert!(p.is_suspected());
    assert!(p.on_heartbeat_reply(30, 1600));
    assert!(p.is_alive());
    assert_eq!(p.last_heartbeat, 1600);
}

#[test]
fn offline_peer_is_readmitted_as_seed() {
    let mut p = Peer::new(info(5, 1, 1), State::Offline, 0);
    p.record_round_trip(70);
    assert!(p.on_heartbeat_reply(20, 50));
    assert!(p.is_seed());
    assert_eq!(p.hb_sum, 0);
    assert!(p.on_heartbeat_reply(20, 60));
    assert!(p.is_alive());
}

#[test]
fn leave_and_connection_close() {
    let mut p = Peer::new(info(6, 2, 1), State::Alive, 0);
    p.on_connection_closed();
    assert!(p.is_suspected());
    p.on_leave();
    assert_eq!(p.state, State::Left);
    assert!(p.is_offline());
    assert!(p.is_in_shard(2));
    assert!(!p.is_in_shard(1));
}

#[test]
fn new_peer_takes_gossiped_fields() {
    let p = Peer::new(info(7, 3, 9), State::Seed, 42);
    assert_eq!(p.peer_id, 7);
    assert_eq!(p.shard_id, 3);
    assert_eq!(p.epoch, 9);
    assert_eq!(p.addr, "10.0.0.7:7911");
    assert_eq!(p.hostname, "node7");
    assert_eq!(p.last_heartbeat, 42);
    assert_eq!(p.commit_index, 4);
    assert_eq!(p.hb_window.len(), HEARTBEAT_WINDOW);
    let s = Peer::new_seed(8, "10.0.0.8:7911".to_string(), 5);
    assert!(s.is_seed());
    assert_eq!(s.shard_id, 0);
    assert_eq!(s.epoch, 0);
}
