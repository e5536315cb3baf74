//! Database-side rules: rows read by the engine, startup recovery and
//! migration decisions, batch retirement, timestamps.

pub mod api_keys;
pub mod startup;
pub mod tasks;
pub mod works;

use std::time::{SystemTime, UNIX_EPOCH};
use vstd::prelude::*;

verus! {

/// Whole seconds since the Unix epoch by the system clock; `None` when the
/// clock is set before the epoch. Trusted for nothing: the clock can read
/// anything.
#[verifier::external_body]
fn clock_unix_secs() -> Option<u64> {
    SystemTime::now().duration_since(UNIX_EPOCH).map(|d| d.as_secs()).ok()
}

/// Timestamp for a clock reading `reading` (whole seconds since the epoch,
/// `None` before the epoch): the seconds taken as an `i64` (wrapping as `as`
/// does), 0 for a reading before the epoch.
pub open spec fn unix_seconds(reading: Option<u64>) -> i64 {
    match reading {
        Some(s) => s as i64,
        None => 0,
    }
}

/// The timestamp for one clock reading, as `unix_seconds` defines it.
pub fn unix_from_reading(reading: Option<u64>) -> (r: i64)
    ensures
        r == unix_seconds(reading),
{
    match reading {
        Some(s) => s as i64,
        None => 0,
    }
}

/// The current Unix time in seconds (all database timestamps use it); 0
/// when the clock reads before the epoch. The reading depends on the time,
/// so nothing is promised of the value: `unix_from_reading` states what is
/// done with the reading.
pub fn now_unix() -> i64 {
    let reading = clock_unix_secs();
    unix_from_reading(reading)
}

} // verus!
