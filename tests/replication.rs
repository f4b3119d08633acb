use jmap_cluster::log::{AppendOutcome, FollowerProgress, LogEntry, ReplicatedLog};

fn log_with(terms: &[u64]) -> ReplicatedLog {
    let mut log = ReplicatedLog::new(1);
    for (i, &t) in terms.iter().enumerate() {
        assert_eq!(log.append_new(t, vec![i as u8]), Some(i as u64 + 1));
    }
    log
}

#[test]
fn follower_catches_up_from_seven_to_ten() {
    let leader = log_with(&[1; 10]);
    let mut follower = log_with(&[1; 7]);
    let mut progress = FollowerProgress::new(2, leader.last_index());
    assert_eq!(progress.next_index, 11);
    let mut prev_indexes = Vec::new();
    loop {
        let (prev, prev_term, entries) = leader.entries_from(progress.next_index);
        prev_indexes.push(prev);
        let out = follower.append_entries(prev, prev_term, entries, leader.commit_index);
        progress.on_append_ack(out);
        if out.success {
            break;
        }
    }
    assert_eq!(prev_indexes, vec![10, 7]);
    assert_eq!(progress.match_index, 10);
    assert_eq!(progress.next_index, 11);
    assert_eq!(follower.last_index(), 10);
    for i in 1..=10u64 {
        assert_eq!(follower.term_at(i), leader.term_at(i));
        assert_eq!(follower.payload_at(i), leader.payload_at(i));
    }
}

#[test]
fn rejection_reports_highest_confirmed_index() {
    let mut follower = log_with(&[1, 1, 2]);
    assert_eq!(
        follower.append_entries(5, 2, vec![], 0),
        AppendOutcome { success: false, match_index: 3 }
    );
    assert_eq!(
        follower.append_entries(3, 1, vec![], 0),
        AppendOutcome { success: false, match_index: 2 }
    );
    let mut p = FollowerProgress { peer_id: 2, next_index: 6, match_index: 0 };
    p.on_append_ack(AppendOutcome { success: false, match_index: 3 });
    assert_eq!(p.next_index, 4);
    p.on_append_ack(AppendOutcome { success: false, match_index: 3 });
    assert_eq!(p.next_index, 3);
    let mut first = FollowerProgress { peer_id: 2, next_index: 1, match_index: 0 };
    first.on_append_ack(AppendOutcome { success: false, match_index: 0 });
    assert_eq!(first.next_index, 1);
}

#[test]
fn conflicting_uncommitted_tail_is_replaced() {
    let mut follower = log_with(&[1, 1, 1, 1]);
    let entries = vec![
        LogEntry { term: 2, index: 3, payload: vec![30] },
        LogEntry { term: 2, index: 4, payload: vec![40] },
        LogEntry { term: 2, index: 5, payload: vec![50] },
    ];
    let out = follower.append_entries(2, 1, entries, 3);
    assert_eq!(out, AppendOutcome { success: true, match_index: 5 });
    assert_eq!(follower.last_index(), 5);
    assert_eq!(follower.term_at(3), Some(2));
    assert_eq!(follower.payload_at(5), Some(&vec![50]));
    assert_eq!(follower.entries[4].index, 5);
    assert_eq!(follower.commit_index, 3);
}

#[test]
fn committed_entries_are_never_replaced() {
    let mut follower = log_with(&[1, 1, 1]);
    follower.append_entries(3, 1, vec![], 3);
    assert_eq!(follower.commit_index, 3);
    let bogus = vec![LogEntry { term: 5, index: 2, payload: vec![9] }];
    let out = follower.append_entries(1, 1, bogus, 3);
    assert_eq!(out, AppendOutcome { success: false, match_index: 3 });
    assert_eq!(follower.term_at(2), Some(1));
}

#[test]
fn commit_index_never_decreases() {
    let mut follower = log_with(&[1, 1, 1, 1]);
    follower.append_entries(4, 1, vec![], 4);
    assert_eq!(follower.commit_index, 4);
    // A delayed append with an older commit leaves it in place.
    let out = follower.append_entries(1, 1, vec![], 1);
    assert!(out.success);
    assert_eq!(follower.commit_index, 4);
    // Leader side: nothing below the current commit is chosen.
    let mut leader = log_with(&[1, 1, 1, 1]);
    assert_eq!(leader.advance_commit(1, &vec![0, 0], 3), 0);
    assert_eq!(leader.advance_commit(1, &vec![3, 1], 3), 3);
    assert_eq!(leader.advance_commit(1, &vec![1, 1], 3), 3);
    assert_eq!(leader.commit_index, 3);
}

#[test]
fn commit_only_counts_current_term_entries() {
    let mut leader = log_with(&[1, 1, 2]);
    // Entry 2 is on a majority but of an older term; entry 3 is not yet.
    assert_eq!(leader.advance_commit(2, &vec![2, 2, 0, 0], 5), 0);
    assert_eq!(leader.advance_commit(2, &vec![3, 3, 0, 0], 5), 3);
}

#[test]
fn apply_in_order_and_idempotent() {
    let mut log = log_with(&[1, 1, 1]);
    assert_eq!(log.next_to_apply(), None);
    log.append_entries(3, 1, vec![], 2);
    assert_eq!(log.next_to_apply(), Some(1));
    log.record_apply(1, true);
    assert_eq!(log.last_applied, 1);
    // Re-delivering index 1 is a no-op.
    log.record_apply(1, true);
    log.record_apply(1, false);
    assert_eq!(log.last_applied, 1);
    assert!(!log.halted);
    // Out of order or uncommitted indexes are ignored.
    log.record_apply(3, true);
    assert_eq!(log.last_applied, 1);
    log.record_apply(2, true);
    assert_eq!(log.last_applied, 2);
    assert_eq!(log.next_to_apply(), None);
}

#[test]
fn apply_failure_halts_the_shard() {
    let mut log = log_with(&[1, 1]);
    log.append_entries(2, 1, vec![], 2);
    log.record_apply(1, false);
    assert!(log.halted);
    assert_eq!(log.last_applied, 0);
    assert_eq!(log.next_to_apply(), None);
    log.record_apply(1, true);
    assert_eq!(log.last_applied, 0);
}

#[test]
fn log_tail_and_lookups() {
    let log = log_with(&[1, 2]);
    assert_eq!(log.last_index(), 2);
    assert_eq!(log.last_term(), 2);
    assert_eq!(log.term_at(0), None);
    assert_eq!(log.term_at(3), None);
    assert_eq!(ReplicatedLog::new(4).last_term(), 0);
    let (prev, prev_term, entries) = log.entries_from(1);
    assert_eq!((prev, prev_term, entries.len()), (0, 0, 2));
    assert_eq!(entries[1].index, 2);
}
