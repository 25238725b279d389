//! Observation of the calls on a datastore.
use core::time::Duration;
use vstd::prelude::*;

verus! {

/// What a caller may implement to observe a datastore. Calls that fail are not recorded. Every
/// method does nothing by default.
pub trait Metrics: Send + Sync {
    /// A `put` took this long.
    fn record_put(&self, _duration: Duration) {
    }

    /// A `get` took this long.
    fn record_get(&self, _duration: Duration) {
    }

    /// A `delete` took this long.
    fn record_delete(&self, _duration: Duration) {
    }

    /// A merge took this long.
    fn record_merge(&self, _duration: Duration) {
    }

    /// A `sync` took this long.
    fn record_sync(&self, _duration: Duration) {
    }

    /// This many keys are about to be repointed in one batch of a merge.
    fn record_pending_queue_depth(&self, _depth: usize) {
    }

    /// A merge took in this many files and copied this many live entries.
    fn record_merge_summary(&self, _input_files: usize, _live_entries: usize) {
    }
}

/// Observes nothing.
#[derive(Clone, Copy, Debug)]
pub struct NoopMetrics {}

impl Metrics for NoopMetrics {

}

} // verus!
