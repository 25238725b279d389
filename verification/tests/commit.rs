use std::cell::Cell;
use std::io;

use yabiir::commit::{CommitStep, GroupCommit};

#[test]
fn single_writer_commits_and_sees_exactly_one_fsync() {
    let mut gc = GroupCommit::new();
    let target_gen = gc.record_pending();
    gc.commit(target_gen, || Ok(())).unwrap();
    assert_eq!(gc.fsync_call_count(), 1);
}

#[test]
fn mark_all_durable_satisfies_commit_without_a_fsync() {
    let mut gc = GroupCommit::new();
    let target_gen = gc.record_pending();
    gc.mark_all_durable();
    gc.commit(target_gen, || panic!("should not fsync: already durable"))
        .unwrap();
    assert_eq!(gc.fsync_call_count(), 0);
}

#[test]
fn failed_fsync_propagates_to_leader_and_a_follower_retries() {
    let mut gc = GroupCommit::new();
    let g1 = gc.record_pending();
    let attempt = Cell::new(0u64);

    let result = gc.commit(g1, || {
        attempt.set(attempt.get() + 1);
        Err(io::Error::other("disk full"))
    });
    assert!(result.is_err());

    // A later commit for the same (still not durable) generation
    // retries and can succeed once the underlying problem is gone.
    gc.commit(g1, || Ok(())).unwrap();
    assert_eq!(attempt.get(), 1);
}

#[test]
fn committers_that_come_meanwhile_share_the_leaders_fsync() {
    let mut gc = GroupCommit::new();
    let gens: Vec<u64> = (0..8).map(|_| gc.record_pending()).collect();
    assert_eq!(gens, vec![1, 2, 3, 4, 5, 6, 7, 8]);

    assert_eq!(gc.next_step(gens[0]), CommitStep::Lead { covers: 8 });
    for &g in &gens[1..] {
        assert_eq!(gc.next_step(g), CommitStep::Wait);
    }
    let late = gc.record_pending(); // not covered: it came after the start
    gc.fsync_ended(8, true);
    for &g in &gens {
        assert_eq!(gc.next_step(g), CommitStep::Done);
    }
    assert_eq!(gc.fsync_call_count(), 1);
    assert_eq!(gc.next_step(late), CommitStep::Lead { covers: 9 });
}

#[test]
fn a_waiting_committer_leads_after_a_failure() {
    let mut gc = GroupCommit::new();
    let first = gc.record_pending();
    let second = gc.record_pending();
    assert_eq!(gc.next_step(first), CommitStep::Lead { covers: 2 });
    assert_eq!(gc.next_step(second), CommitStep::Wait);
    gc.fsync_ended(2, false);
    assert_eq!(gc.next_step(second), CommitStep::Lead { covers: 2 });
    gc.fsync_ended(2, true);
    assert_eq!(gc.next_step(first), CommitStep::Done);
    assert_eq!(gc.fsync_call_count(), 2);
}
