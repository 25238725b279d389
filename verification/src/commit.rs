//! Group commit: several writers share one `fsync` instead of each paying for its own.
//!
//! Every write that is to become durable takes a generation number, in the order in which the
//! writes land in the file, and then waits until an `fsync` covers that number. The first to come
//! while none is under way leads: it runs one, and if that succeeds, everything that was pending
//! when it started is durable. The others wait for it. If it fails, the leader's caller gets the
//! error, nothing becomes durable, and one of those who wait leads next.
use vstd::prelude::*;

verus! {

/// State of a group commit.
#[verifier::ext_equal]
pub struct CommitView {
    /// How many writes were recorded. This is the generation of the last one.
    pub pending: u64,
    /// The highest generation that is known to be durable.
    pub durable: u64,
    /// Whether an `fsync` is under way.
    pub syncing: bool,
    /// How many were run.
    pub fsync_calls: usize,
}

/// What a writer that needs its generation durable has to do.
#[derive(Clone, Copy, Debug, PartialEq, Eq, Structural)]
pub enum CommitStep {
    /// Nothing: it is durable.
    Done,
    /// Run an `fsync`, which will cover the generations up to this one.
    Lead { covers: u64 },
    /// Wait for the one that is under way.
    Wait,
}

/// What to do next about generation `target`, and the state after that was said.
pub open spec fn next_step(state: CommitView, target: u64) -> (CommitStep, CommitView) {
    if state.durable >= target {
        (CommitStep::Done, state)
    } else if state.syncing {
        (CommitStep::Wait, state)
    } else {
        (CommitStep::Lead { covers: state.pending }, CommitView { syncing: true, ..state })
    }
}

/// The state after an `fsync` that was to cover the generations up to `covers` has ended.
pub open spec fn after_fsync(state: CommitView, covers: u64, succeeded: bool) -> CommitView {
    CommitView {
        syncing: false,
        durable: if succeeded && covers > state.durable {
            covers
        } else {
            state.durable
        },
        fsync_calls: if state.fsync_calls == usize::MAX {
            0
        } else {
            (state.fsync_calls + 1) as usize
        },
        ..state
    }
}

/// The state after everything recorded so far became durable in some other way.
pub open spec fn after_other_sync(state: CommitView) -> CommitView {
    CommitView { durable: state.pending, ..state }
}

/// Coordinates the writers of one datastore.
#[derive(Debug)]
pub struct GroupCommit {
    pending: u64,
    durable: u64,
    syncing: bool,
    fsync_calls: usize,
}

impl View for GroupCommit {
    type V = CommitView;

    closed spec fn view(&self) -> CommitView {
        CommitView {
            pending: self.pending,
            durable: self.durable,
            syncing: self.syncing,
            fsync_calls: self.fsync_calls,
        }
    }
}

impl GroupCommit {
    pub fn new() -> (commits: GroupCommit)
        ensures
            commits@ == (CommitView { pending: 0, durable: 0, syncing: false, fsync_calls: 0 }),
    {
        GroupCommit { pending: 0, durable: 0, syncing: false, fsync_calls: 0 }
    }

    /// Records that a write was appended and is to become durable. Gives its generation.
    pub fn record_pending(&mut self) -> (generation: u64)
        requires
            old(self)@.pending < u64::MAX,
        ensures
            generation == old(self)@.pending + 1,
            final(self)@ == (CommitView { pending: generation, ..old(self)@ }),
    {
        self.pending = self.pending + 1;
        self.pending
    }

    /// Records that all writes so far became durable in some other way, such as when the file
    /// was closed.
    pub fn mark_all_durable(&mut self)
        ensures
            final(self)@ == after_other_sync(old(self)@),
    {
        self.durable = self.pending;
    }

    /// Says what to do about generation `target` next.
    pub fn next_step(&mut self, target: u64) -> (step: CommitStep)
        ensures
            (step, final(self)@) == next_step(old(self)@, target),
    {
        if self.durable >= target {
            CommitStep::Done
        } else if self.syncing {
            CommitStep::Wait
        } else {
            self.syncing = true;
            CommitStep::Lead { covers: self.pending }
        }
    }

    /// Records how an `fsync` ended that was to cover the generations up to `covers`.
    pub fn fsync_ended(&mut self, covers: u64, succeeded: bool)
        ensures
            final(self)@ == after_fsync(old(self)@, covers, succeeded),
    {
        self.syncing = false;
        self.fsync_calls = self.fsync_calls.wrapping_add(1);
        if succeeded && covers > self.durable {
            self.durable = covers;
        }
    }

    /// Makes generation `target` durable, with one call of `do_fsync` if it is not yet, and none
    /// if it is. For a caller that is alone: others would wait for it to end.
    pub fn commit<F: FnOnce() -> Result<(), std::io::Error>>(
        &mut self,
        target: u64,
        do_fsync: F,
    ) -> (outcome: Result<(), std::io::Error>)
        requires
            !old(self)@.syncing,
            target <= old(self)@.pending,
            old(self)@.durable < target ==> call_requires(do_fsync, ()),
        ensures
            old(self)@.durable >= target ==> outcome is Ok && final(self)@ == old(self)@,
            old(self)@.durable < target ==> call_ensures(do_fsync, (), outcome) && final(self)@
                == after_fsync(old(self)@, old(self)@.pending, outcome is Ok),
    {
        match self.next_step(target) {
            CommitStep::Lead { covers } => {
                let outcome = do_fsync();
                self.fsync_ended(covers, outcome.is_ok());
                outcome
            },
            _ => Ok(()),
        }
    }

    /// How many times an `fsync` was run.
    pub fn fsync_call_count(&self) -> (n: usize)
        ensures
            n == self@.fsync_calls,
    {
        self.fsync_calls
    }
}

/// Whether the state is one that can come about: nothing is durable that was not recorded.
pub open spec fn is_reachable(state: CommitView) -> bool {
    state.durable <= state.pending
}

/// No operation makes more durable than was recorded.
pub proof fn law_durable_never_passes_pending(state: CommitView, target: u64, covers: u64, ok: bool)
    requires
        is_reachable(state),
        covers <= state.pending,
    ensures
        is_reachable(next_step(state, target).1),
        is_reachable(after_fsync(state, covers, ok)),
        is_reachable(after_other_sync(state)),
        after_fsync(state, covers, ok).durable >= state.durable,
        after_other_sync(state).durable >= state.durable,
{
}

/// One `fsync` is enough for all: when a leader's succeeds, every write that was recorded before
/// it started is durable, however many were recorded meanwhile.
pub proof fn law_one_fsync_covers_all(
    before: CommitView,
    leader: u64,
    meanwhile: CommitView,
    other: u64,
)
    requires
        next_step(before, leader).0 is Lead,
        other <= before.pending,
        meanwhile.pending >= before.pending,
    ensures
        next_step(
            after_fsync(meanwhile, next_step(before, leader).0->covers, true),
            other,
        ).0 is Done,
{
}

/// While a leader's `fsync` is under way, no other writer starts one.
pub proof fn law_only_one_leads(before: CommitView, leader: u64, other: u64)
    requires
        next_step(before, leader).0 is Lead,
    ensures
        !(next_step(next_step(before, leader).1, other).0 is Lead),
{
}

/// After a failed `fsync` nothing more is durable, and a writer that waits leads the next one.
pub proof fn law_failed_fsync_is_retried(
    before: CommitView,
    leader: u64,
    meanwhile: CommitView,
    other: u64,
)
    requires
        next_step(before, leader).0 is Lead,
        meanwhile.durable < other <= meanwhile.pending,
    ensures
        ({
            let after = after_fsync(meanwhile, next_step(before, leader).0->covers, false);
            &&& after.durable == meanwhile.durable
            &&& next_step(after, other).0 == (CommitStep::Lead { covers: meanwhile.pending })
        }),
{
}

} // verus!
