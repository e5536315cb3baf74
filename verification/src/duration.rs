//! `std::time::Duration` values built from whole seconds or milliseconds.

use std::time::Duration;
use vstd::prelude::*;

verus! {

/// The duration of `secs` seconds (`Duration::from_secs`).
pub uninterp spec fn secs_duration(secs: u64) -> Duration;

/// The duration of `ms` milliseconds (`Duration::from_millis`).
pub uninterp spec fn millis_duration(ms: u64) -> Duration;

/// `Duration::from_secs`. Trusted: the result is `secs_duration(secs)`.
#[verifier::external_body]
pub fn duration_from_secs(secs: u64) -> (d: Duration)
    ensures
        d == secs_duration(secs),
{
    Duration::from_secs(secs)
}

/// `Duration::from_millis`. Trusted: the result is `millis_duration(ms)`.
#[verifier::external_body]
pub fn duration_from_millis(ms: u64) -> (d: Duration)
    ensures
        d == millis_duration(ms),
{
    Duration::from_millis(ms)
}

} // verus!
