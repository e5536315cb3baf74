//! Error classification and the retry policy.

use std::time::Duration;
use vstd::prelude::*;
use crate::duration::{duration_from_secs, secs_duration};

verus! {

/// Failure kinds reported by an image provider.
#[derive(Debug, Clone, Copy, PartialEq, Eq, Structural)]
pub enum ProviderErrorKind {
    Timeout,
    RateLimited,
    ContentPolicy,
    Auth,
    Network,
    BadResponse,
    Other,
}

/// The six error classes stored with tasks and attempts.
#[derive(Debug, Clone, Copy, PartialEq, Eq, Structural)]
pub enum ErrorType {
    Timeout,
    RateLimited,
    ContentPolicy,
    Auth,
    Interrupted,
    Other,
}

/// Stored name of an error class.
pub open spec fn error_type_name(e: ErrorType) -> Seq<char> {
    match e {
        ErrorType::Timeout => "Timeout"@,
        ErrorType::RateLimited => "RateLimited"@,
        ErrorType::ContentPolicy => "ContentPolicy"@,
        ErrorType::Auth => "Auth"@,
        ErrorType::Interrupted => "Interrupted"@,
        ErrorType::Other => "Other"@,
    }
}

impl ErrorType {
    /// Stored name of the class.
    pub fn as_str(&self) -> (r: &'static str)
        ensures
            r@ == error_type_name(*self),
    {
        match self {
            ErrorType::Timeout => "Timeout",
            ErrorType::RateLimited => "RateLimited",
            ErrorType::ContentPolicy => "ContentPolicy",
            ErrorType::Auth => "Auth",
            ErrorType::Interrupted => "Interrupted",
            ErrorType::Other => "Other",
        }
    }

    /// Only an authentication failure suggests disabling the key.
    pub fn suggests_disable_key(&self) -> (r: bool)
        ensures
            r == (*self == ErrorType::Auth),
    {
        match self {
            ErrorType::Auth => true,
            _ => false,
        }
    }
}

/// Error class of a provider failure kind.
pub open spec fn class_of(kind: ProviderErrorKind) -> ErrorType {
    match kind {
        ProviderErrorKind::Timeout => ErrorType::Timeout,
        ProviderErrorKind::RateLimited => ErrorType::RateLimited,
        ProviderErrorKind::ContentPolicy => ErrorType::ContentPolicy,
        ProviderErrorKind::Auth => ErrorType::Auth,
        _ => ErrorType::Other,
    }
}

/// Provider failure kind -> error class (network, bad response and other
/// failures are all `Other`).
pub fn classify(kind: ProviderErrorKind) -> (r: ErrorType)
    ensures
        r == class_of(kind),
{
    match kind {
        ProviderErrorKind::Timeout => ErrorType::Timeout,
        ProviderErrorKind::RateLimited => ErrorType::RateLimited,
        ProviderErrorKind::ContentPolicy => ErrorType::ContentPolicy,
        ProviderErrorKind::Auth => ErrorType::Auth,
        ProviderErrorKind::Network | ProviderErrorKind::BadResponse | ProviderErrorKind::Other => {
            ErrorType::Other
        },
    }
}

/// What to do after a failed attempt.
#[derive(Debug, Clone, Copy, PartialEq, Eq)]
pub struct RetryDecision {
    /// retry (false = terminal `fail`)
    pub retry: bool,
    /// retry on another key
    pub switch_key: bool,
    /// wait before the retry
    pub cooldown: Duration,
}

/// Cool-down in seconds before retrying an `Other` failure after
/// `retries_used` retries: 5 s doubling per retry, capped at 80 s.
pub open spec fn other_backoff_secs(retries_used: u32) -> u64 {
    if retries_used == 0 {
        5
    } else if retries_used == 1 {
        10
    } else if retries_used == 2 {
        20
    } else if retries_used == 3 {
        40
    } else {
        80
    }
}

/// The retry policy as (retry, switch key, cool-down seconds):
/// timeout: one retry on another key; rate limited: one retry on another key
/// after 18 s; content policy: one retry on the same key; auth and
/// interrupted: never; other: up to the user's retry count, on another key,
/// with `other_backoff_secs`.
pub open spec fn retry_policy(err: ErrorType, retries_used: u32, user_retry_count: u32) -> (bool, bool, u64) {
    match err {
        ErrorType::Timeout => if retries_used < 1 {
            (true, true, 0)
        } else {
            (false, false, 0)
        },
        ErrorType::RateLimited => if retries_used < 1 {
            (true, true, 18)
        } else {
            (false, false, 0)
        },
        ErrorType::ContentPolicy => if retries_used < 1 {
            (true, false, 0)
        } else {
            (false, false, 0)
        },
        ErrorType::Auth => (false, false, 0),
        ErrorType::Interrupted => (false, false, 0),
        ErrorType::Other => if retries_used < user_retry_count {
            (true, true, other_backoff_secs(retries_used))
        } else {
            (false, false, 0)
        },
    }
}

/// Whether `d` is the decision `(retry, switch, secs)`.
pub open spec fn decision_is(d: RetryDecision, p: (bool, bool, u64)) -> bool {
    d.retry == p.0 && d.switch_key == p.1 && d.cooldown == secs_duration(p.2)
}

impl RetryDecision {
    fn terminal() -> (r: Self)
        ensures
            decision_is(r, (false, false, 0)),
    {
        Self { retry: false, switch_key: false, cooldown: duration_from_secs(0) }
    }

    fn retry(switch_key: bool, secs: u64) -> (r: Self)
        ensures
            decision_is(r, (true, switch_key, secs)),
    {
        Self { retry: true, switch_key, cooldown: duration_from_secs(secs) }
    }
}

/// Decide what follows a failure of class `err`, given the retries already
/// used by the task and the user's retry setting.
pub fn decide(err: ErrorType, retries_used: u32, user_retry_count: u32) -> (r: RetryDecision)
    ensures
        decision_is(r, retry_policy(err, retries_used, user_retry_count)),
{
    match err {
        ErrorType::Timeout => {
            if retries_used < 1 {
                RetryDecision::retry(true, 0)
            } else {
                RetryDecision::terminal()
            }
        },
        ErrorType::RateLimited => {
            if retries_used < 1 {
                RetryDecision::retry(true, 18)
            } else {
                RetryDecision::terminal()
            }
        },
        ErrorType::ContentPolicy => {
            if retries_used < 1 {
                RetryDecision::retry(false, 0)
            } else {
                RetryDecision::terminal()
            }
        },
        ErrorType::Auth => RetryDecision::terminal(),
        ErrorType::Interrupted => RetryDecision::terminal(),
        ErrorType::Other => {
            if retries_used < user_retry_count {
                let shift = if retries_used < 4 {
                    retries_used
                } else {
                    4
                };
                let secs: u64 = if shift == 0 {
                    5
                } else if shift == 1 {
                    10
                } else if shift == 2 {
                    20
                } else if shift == 3 {
                    40
                } else {
                    80
                };
                RetryDecision::retry(true, secs)
            } else {
                RetryDecision::terminal()
            }
        },
    }
}

/// A task is retried automatically at most once for timeouts, rate limits
/// and content-policy refusals, never for auth failures or interruptions,
/// and at most the user's retry count for other failures.
pub proof fn law_retries_are_bounded(err: ErrorType, used: u32, user: u32)
    ensures
        retry_policy(err, used, user).0 ==> match err {
            ErrorType::Timeout | ErrorType::RateLimited | ErrorType::ContentPolicy => used == 0,
            ErrorType::Auth | ErrorType::Interrupted => false,
            ErrorType::Other => used < user,
        },
{
}

/// The cool-down before an `Other` retry never decreases with the retries
/// used and never exceeds 80 s.
pub proof fn law_other_backoff_monotone(a: u32, b: u32)
    requires
        a <= b,
    ensures
        other_backoff_secs(a) <= other_backoff_secs(b) <= 80,
{
}

/// How provider failures are classified: timeouts, rate limits, content
/// refusals and authentication failures each keep a class of their own;
/// network failures, bad responses and any other failure all count as
/// `Other`; no provider failure counts as an interruption (that class is
/// only given to tasks cut short by a restart).
pub proof fn law_classification_table(kind: ProviderErrorKind)
    ensures
        kind == ProviderErrorKind::Timeout ==> class_of(kind) == ErrorType::Timeout,
        kind == ProviderErrorKind::RateLimited ==> class_of(kind) == ErrorType::RateLimited,
        kind == ProviderErrorKind::ContentPolicy ==> class_of(kind) == ErrorType::ContentPolicy,
        kind == ProviderErrorKind::Auth ==> class_of(kind) == ErrorType::Auth,
        kind == ProviderErrorKind::Network ==> class_of(kind) == ErrorType::Other,
        kind == ProviderErrorKind::BadResponse ==> class_of(kind) == ErrorType::Other,
        kind == ProviderErrorKind::Other ==> class_of(kind) == ErrorType::Other,
        class_of(kind) != ErrorType::Interrupted,
{
}

/// A network failure, a bad response or any other failure is retried on
/// another key as long as fewer retries than the user's retry count were
/// used (so a second, third ... retry still happens), and given up once
/// that count is reached.
pub proof fn law_other_failures_follow_user_retry_count(kind: ProviderErrorKind, used: u32, user: u32)
    requires
        kind == ProviderErrorKind::Network || kind == ProviderErrorKind::BadResponse || kind
            == ProviderErrorKind::Other,
    ensures
        used < user ==> retry_policy(class_of(kind), used, user).0 && retry_policy(
            class_of(kind),
            used,
            user,
        ).1,
        used >= user ==> !retry_policy(class_of(kind), used, user).0,
{
}

} // verus!
