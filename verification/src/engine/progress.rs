//! Stage-based pseudo progress.
//!
//! Image APIs report no progress: queued 0% -> request started 10% ->
//! generating, linear in elapsed / expected up to 90% -> download 90-98% ->
//! saved 100%. The expected generation time is the mean of the key's 20 most recent
//! successful durations (60 s without history).

use std::time::Duration;
use vstd::prelude::*;
use crate::duration::{duration_from_millis, duration_from_secs, millis_duration, secs_duration};

verus! {

/// Stage of one generation.
#[derive(Debug, Clone, Copy, PartialEq, Eq, Structural)]
pub enum Phase {
    Queued,
    RequestStarted,
    Generating,
    Downloading,
    Saved,
}

/// Wire name of a phase.
pub open spec fn phase_name(p: Phase) -> Seq<char> {
    match p {
        Phase::Queued => "queued"@,
        Phase::RequestStarted => "requestStarted"@,
        Phase::Generating => "generating"@,
        Phase::Downloading => "downloading"@,
        Phase::Saved => "saved"@,
    }
}

impl Phase {
    /// Wire name of the phase.
    pub fn as_str(&self) -> (r: &'static str)
        ensures
            r@ == phase_name(*self),
    {
        match self {
            Phase::Queued => "queued",
            Phase::RequestStarted => "requestStarted",
            Phase::Generating => "generating",
            Phase::Downloading => "downloading",
            Phase::Saved => "saved",
        }
    }
}

/// The (at most) 20 most recent durations; the history is listed newest
/// first, so they are the first 20.
pub open spec fn recent(s: Seq<i64>) -> Seq<i64> {
    if s.len() > 20 {
        s.take(20)
    } else {
        s
    }
}

/// Sum of the positive entries.
pub open spec fn positive_sum(s: Seq<i64>) -> int
    decreases s.len(),
{
    if s.len() == 0 {
        0
    } else {
        positive_sum(s.drop_last()) + if s.last() > 0 {
            s.last() as int
        } else {
            0
        }
    }
}

/// Number of positive entries.
pub open spec fn positive_count(s: Seq<i64>) -> nat
    decreases s.len(),
{
    if s.len() == 0 {
        0
    } else {
        positive_count(s.drop_last()) + if s.last() > 0 {
            1nat
        } else {
            0nat
        }
    }
}

/// Expected generation time in milliseconds: the mean of the positive
/// durations among the 20 most recent, rounded to the nearest millisecond (halves
/// up); `None` when there is no such duration.
pub open spec fn expected_ms(s: Seq<i64>) -> Option<int> {
    let w = recent(s);
    let n = positive_count(w);
    if n == 0 {
        None
    } else {
        Some((2 * positive_sum(w) + n) / (2 * n as int))
    }
}

proof fn lemma_positive_bounds(s: Seq<i64>)
    ensures
        0 <= positive_sum(s) <= positive_count(s) * 0x7fff_ffff_ffff_ffff,
        positive_count(s) <= s.len(),
        positive_count(s) <= positive_sum(s),
    decreases s.len(),
{
    if s.len() > 0 {
        lemma_positive_bounds(s.drop_last());
    }
}

proof fn lemma_mean_fits(sum: int, n: int)
    requires
        n > 0,
        0 <= sum <= n * 0x7fff_ffff_ffff_ffff,
    ensures
        0 <= (2 * sum + n) / (2 * n) <= 0x7fff_ffff_ffff_ffff,
{
    assert(2 * sum + n < 2 * n * 0x8000_0000_0000_0000) by (nonlinear_arith)
        requires
            n > 0,
            0 <= sum <= n * 0x7fff_ffff_ffff_ffff,
    ;
    assert((2 * sum + n) / (2 * n) < 0x8000_0000_0000_0000) by (nonlinear_arith)
        requires
            n > 0,
            0 <= 2 * sum + n < 2 * n * 0x8000_0000_0000_0000,
    ;
    assert(0 <= (2 * sum + n) / (2 * n)) by (nonlinear_arith)
        requires
            n > 0,
            0 <= sum,
    ;
}

/// Expected generation time from the key's successful durations (ms,
/// newest first, as the database lists them): the mean of the positive
/// ones among the 20 most recent, rounded to the nearest millisecond, 60 s
/// when there is none. The sum is taken exactly, so no input overflows it.
pub fn expected_from_history(success_durations_ms: &[i64]) -> (d: Duration)
    ensures
        match expected_ms(success_durations_ms@) {
            None => d == secs_duration(60),
            Some(ms) => d == millis_duration(ms as u64),
        },
{
    let s = success_durations_ms;
    let end: usize = if s.len() > 20 {
        20
    } else {
        s.len()
    };
    let w = &s[0..end];
    assert(w@ =~= recent(s@));
    let mut sum: u128 = 0;
    let mut n: u128 = 0;
    let mut k: usize = 0;
    assert(w@.take(0) =~= Seq::<i64>::empty());
    while k < w.len()
        invariant
            k <= w@.len() <= 20,
            sum == positive_sum(w@.take(k as int)),
            n == positive_count(w@.take(k as int)),
            n <= k,
            sum <= n * 0x7fff_ffff_ffff_ffff,
        decreases w@.len() - k,
    {
        assert(w@.take(k + 1).drop_last() =~= w@.take(k as int));
        let x = w[k];
        if x > 0 {
            sum = sum + (x as u128);
            n = n + 1;
        }
        k += 1;
    }
    assert(w@.take(w@.len() as int) =~= w@);
    if n == 0 {
        return duration_from_secs(60);
    }
    proof {
        lemma_mean_fits(sum as int, n as int);
    }
    let ms = (2 * sum + n) / (2 * n);
    duration_from_millis(ms as u64)
}

} // verus!
