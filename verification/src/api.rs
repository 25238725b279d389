//! Settings of a datastore.
use vstd::prelude::*;

use crate::metrics::Metrics;

verus! {

/// How a datastore is opened.
#[derive(Clone)]
pub struct Options {
    /// Open for reading and writing (`true`), or for reading only (`false`). Only one handle at a
    /// time may have a directory open for writing.
    pub is_read_write: bool,
    /// Make every `put` and `delete` durable before it returns.
    pub should_sync_on_put: bool,
    /// Size in bytes at which the active file is closed and a new one started.
    pub max_file_size: u64,
    /// Observes the calls, if set.
    pub metrics: Option<std::sync::Arc<dyn Metrics>>,
}

impl Default for Options {
    fn default() -> (opts: Options)
        ensures
            opts.is_read_write,
            !opts.should_sync_on_put,
            opts.max_file_size == 64 * 1024 * 1024,
            opts.metrics is None,
    {
        Options {
            is_read_write: true,
            should_sync_on_put: false,
            max_file_size: 64 * 1024 * 1024,
            metrics: None,
        }
    }
}

} // verus!
