//! Group commit.
use vstd::prelude::*;

use crate::commit::{CommitStep, GroupCommit};

verus! {

/// A write that is recorded gets the next generation, and is not durable by that.
pub proof fn law_a_recorded_write_is_not_yet_durable(commits: &mut GroupCommit, generation: u64)
    requires
        call_ensures(GroupCommit::record_pending, (commits,), generation),
    ensures
        generation == old(commits)@.pending + 1,
        final(commits)@.pending == generation,
        final(commits)@.durable == old(commits)@.durable,
        final(commits)@.syncing == old(commits)@.syncing,
        final(commits)@.fsync_calls == old(commits)@.fsync_calls,
{
}

/// Nothing is pending, durable or under way at first.
pub proof fn law_a_group_commit_begins_with_nothing(commits: GroupCommit)
    requires
        call_ensures(GroupCommit::new, (), commits),
    ensures
        commits@.pending == 0,
        commits@.durable == 0,
        !commits@.syncing,
        commits@.fsync_calls == 0,
{
}

/// An `fsync` makes durable what it was to cover if it succeeds, and never more than that, however
/// many writes were recorded while it ran. One that fails makes nothing durable.
pub proof fn law_an_fsync_covers_no_later_write(commits: &mut GroupCommit, covers: u64, ok: bool)
    requires
        call_ensures(GroupCommit::fsync_ended, (commits, covers, ok), ()),
    ensures
        final(commits)@.durable >= old(commits)@.durable,
        final(commits)@.durable <= old(commits)@.durable || final(commits)@.durable <= covers,
        ok ==> final(commits)@.durable >= covers,
        !ok ==> final(commits)@.durable == old(commits)@.durable,
        final(commits)@.pending == old(commits)@.pending,
        !final(commits)@.syncing,
        final(commits)@.fsync_calls == if old(commits)@.fsync_calls == usize::MAX {
            0
        } else {
            old(commits)@.fsync_calls + 1
        },
{
}

/// The same of the state that an `fsync` is said to leave.
pub proof fn law_after_an_fsync_no_later_write_is_durable(
    state: crate::commit::CommitView,
    covers: u64,
    ok: bool,
)
    ensures
        ({
            let after = crate::commit::after_fsync(state, covers, ok);
            &&& after.durable <= state.durable || after.durable <= covers
            &&& after.durable >= state.durable
            &&& ok ==> after.durable >= covers
            &&& !ok ==> after.durable == state.durable
            &&& after.pending == state.pending
            &&& !after.syncing
        }),
{
}

/// A sync of another kind makes durable all that was recorded, and records nothing.
pub proof fn law_another_sync_covers_all(commits: &mut GroupCommit)
    requires
        call_ensures(GroupCommit::mark_all_durable, (commits,), ()),
    ensures
        final(commits)@.durable == old(commits)@.pending,
        final(commits)@.pending == old(commits)@.pending,
        final(commits)@.syncing == old(commits)@.syncing,
        final(commits)@.fsync_calls == old(commits)@.fsync_calls,
{
}

/// A writer is done just when its generation is durable. Else it waits if an `fsync` is under way,
/// and leads if none is, for all that was recorded by then.
pub proof fn law_a_writer_is_done_when_it_is_durable(
    commits: &mut GroupCommit,
    target: u64,
    step: CommitStep,
)
    requires
        call_ensures(GroupCommit::next_step, (commits, target), step),
    ensures
        step is Done <==> target <= old(commits)@.durable,
        step is Wait <==> target > old(commits)@.durable && old(commits)@.syncing,
        step is Lead <==> target > old(commits)@.durable && !old(commits)@.syncing,
        step is Lead ==> step->covers == old(commits)@.pending,
        final(commits)@.syncing == (old(commits)@.syncing || step is Lead),
        final(commits)@.pending == old(commits)@.pending,
        final(commits)@.durable == old(commits)@.durable,
        final(commits)@.fsync_calls == old(commits)@.fsync_calls,
{
}

/// A write that is recorded after a leader has started is not covered by that leader's `fsync`:
/// when that has ended, the writer has to wait or to lead, and is not done.
pub proof fn law_a_late_write_needs_another_fsync(
    started: &mut GroupCommit,
    leader: u64,
    covers: u64,
    recorded: &mut GroupCommit,
    late: u64,
    ended: &mut GroupCommit,
    ok: bool,
    asked: &mut GroupCommit,
    step: CommitStep,
)
    requires
        call_ensures(GroupCommit::next_step, (started, leader), CommitStep::Lead { covers }),
        final(started)@.pending <= old(recorded)@.pending,
        call_ensures(GroupCommit::record_pending, (recorded,), late),
        old(ended)@.durable <= covers,
        call_ensures(GroupCommit::fsync_ended, (ended, covers, ok), ()),
        old(asked)@ == final(ended)@,
        call_ensures(GroupCommit::next_step, (asked, late), step),
    ensures
        !(step is Done),
        step is Lead,
{
}

/// A commit runs no `fsync` for a generation that is durable. For another it runs one, gives what
/// came of it, and on success all that was recorded before is durable.
pub proof fn law_a_commit_runs_one_fsync_or_none<F: FnOnce() -> Result<(), std::io::Error>>(
    commits: &mut GroupCommit,
    target: u64,
    do_fsync: F,
    outcome: Result<(), std::io::Error>,
)
    requires
        call_ensures(GroupCommit::commit::<F>, (commits, target, do_fsync), outcome),
        target <= old(commits)@.pending,
    ensures
        outcome is Ok ==> final(commits)@.durable >= target,
        target <= old(commits)@.durable ==> outcome is Ok && final(commits)@ == old(commits)@,
        target > old(commits)@.durable ==> call_ensures(do_fsync, (), outcome),
        target > old(commits)@.durable ==> final(commits)@.durable == if outcome is Ok {
            old(commits)@.pending
        } else {
            old(commits)@.durable
        },
        final(commits)@.pending == old(commits)@.pending,
        !final(commits)@.syncing || target <= old(commits)@.durable,
        target > old(commits)@.durable ==> final(commits)@.fsync_calls == if old(
            commits,
        )@.fsync_calls == usize::MAX {
            0
        } else {
            old(commits)@.fsync_calls + 1
        },
{
}

/// How many times an `fsync` was run is what is counted.
pub proof fn law_the_count_is_given(commits: GroupCommit, n: usize)
    requires
        call_ensures(GroupCommit::fsync_call_count, (&commits,), n),
    ensures
        n == commits@.fsync_calls,
{
}

} // verus!
