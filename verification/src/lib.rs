//! A log-structured hash table: every write is appended to a data file, and an
//! in-memory index maps each live key to the place of its newest value.
use vstd::prelude::*;

pub mod api;
pub mod commit;
pub mod datafile;
pub mod engine;
pub mod error;
pub mod format;
pub mod guarantees;
pub mod history;
pub mod keydir;
pub mod loadtest;
pub mod merge;
pub mod metrics;
pub mod recovery;
pub mod release;
pub mod scan;
pub mod store;

pub use api::Options;
pub use engine::Engine;
pub use error::Error;
pub use metrics::Metrics;

verus! {

/// Calls `std::time::SystemTime::elapsed` on the Unix epoch, and gives the whole seconds since
/// then, or `None` if the clock stands before the epoch. Nothing is claimed of it: it depends on
/// the time.
#[verifier::external_body]
fn seconds_since_epoch() -> (seconds: Option<u64>) {
    std::time::SystemTime::UNIX_EPOCH.elapsed().ok().map(|elapsed| elapsed.as_secs())
}

/// The timestamp for a number of seconds since the Unix epoch: its low 32 bits.
pub fn timestamp_of(seconds: u64) -> (timestamp: u32)
    ensures
        timestamp == seconds % 0x1_0000_0000,
{
    (seconds % 0x1_0000_0000) as u32
}

/// The timestamp for what a clock says: the whole seconds since the Unix epoch, or `None` if it
/// stands before the epoch, which counts as zero.
pub open spec fn timestamp_for(reading: Option<u64>) -> u32 {
    match reading {
        Some(seconds) => (seconds % 0x1_0000_0000) as u32,
        None => 0,
    }
}

/// Whether a clock could have led to this timestamp.
pub open spec fn is_timestamp_by<C: Fn() -> Option<u64>>(clock: C, timestamp: u32) -> bool {
    exists|reading: Option<u64>| #[trigger]
        call_ensures(clock, (), reading) && timestamp == timestamp_for(reading)
}

/// The time by a clock as a timestamp.
pub fn timestamp_by<C: Fn() -> Option<u64>>(clock: C) -> (timestamp: u32)
    requires
        call_requires(clock, ()),
    ensures
        is_timestamp_by(clock, timestamp),
{
    match clock() {
        Some(seconds) => timestamp_of(seconds),
        None => 0,
    }
}

/// Whether the system clock could have led to this timestamp.
pub closed spec fn is_timestamp_now(timestamp: u32) -> bool {
    is_timestamp_by(seconds_since_epoch, timestamp)
}

/// The present time is the low 32 bits of what the system clock says, and zero if that stands
/// before the epoch.
proof fn law_now_is_by_the_system_clock(timestamp: u32)
    requires
        call_ensures(now_unix, (), timestamp),
    ensures
        exists|reading: Option<u64>| #[trigger]
            call_ensures(seconds_since_epoch, (), reading) && match reading {
                Some(seconds) => timestamp == seconds % 0x1_0000_0000,
                None => timestamp == 0,
            },
{
    let reading = choose|reading: Option<u64>| #[trigger]
        call_ensures(seconds_since_epoch, (), reading) && timestamp == timestamp_for(reading);
    assert(call_ensures(seconds_since_epoch, (), reading));
}

/// The present time by the system clock as a timestamp.
pub fn now_unix() -> (timestamp: u32)
    ensures
        is_timestamp_now(timestamp),
{
    timestamp_by(seconds_since_epoch)
}

} // verus!
