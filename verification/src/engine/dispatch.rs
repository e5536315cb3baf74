//! The scheduler's decisions: per-key cool-down after failures, the key
//! circuit breaker for repeated authentication failures, the requests-per-
//! minute window, the queue-wide breaker that pauses the queue after a run
//! of failed tasks, and what a task's attempt outcome turns into.
//!
//! Time is counted in nanoseconds on a monotonic clock chosen by the caller.

use std::collections::VecDeque;
use vstd::prelude::*;

use crate::engine::classify::{
    class_of, classify, decide, decision_is, retry_policy, ErrorType, ProviderErrorKind,
    RetryDecision,
};
use crate::engine::events::{KeyState, SummaryCounts};
use crate::engine::status::{
    can_transition, legal_transition, parse_status, status_name, TaskStatus,
};
use crate::format::{dec, decimal, signed_dec, signed_decimal};
use crate::text::{chars_of, string_of};

verus! {

/// Consecutive authentication / billing failures after which a key is
/// disabled.
pub const CIRCUIT_BREAK_THRESHOLD: u32 = 3;

/// Length of the requests-per-minute window, in nanoseconds.
pub const RPM_WINDOW_NS: u64 = 60_000_000_000;

/// Default base of the per-key cool-down, in milliseconds.
pub const DEFAULT_COOLDOWN_BASE_MS: u64 = 30_000;

/// Default number of consecutive failed tasks that pauses the queue.
pub const DEFAULT_GLOBAL_FAIL_THRESHOLD: u32 = 10;

/// `a * b`, saturating at `u64::MAX`.
pub open spec fn sat_mul(a: u64, b: u64) -> u64 {
    if a * b > u64::MAX {
        u64::MAX
    } else {
        (a * b) as u64
    }
}

/// `a + b`, saturating at `u64::MAX`.
pub open spec fn sat_add(a: u64, b: u64) -> u64 {
    if a + b > u64::MAX {
        u64::MAX
    } else {
        (a + b) as u64
    }
}

/// `2^k` for `k <= 6`.
pub open spec fn doubling(k: u32) -> u64 {
    if k == 0 {
        1
    } else if k == 1 {
        2
    } else if k == 2 {
        4
    } else if k == 3 {
        8
    } else if k == 4 {
        16
    } else if k == 5 {
        32
    } else {
        64
    }
}

/// The smaller of two numbers.
pub open spec fn min_u64(a: u64, b: u64) -> u64 {
    if a <= b {
        a
    } else {
        b
    }
}

/// Cool-down in milliseconds of a key after `consec` consecutive failures:
/// none for the first failure (or a zero base); then `base` doubling per
/// further failure, never more than twenty times `base`.
pub open spec fn cooldown_ms(base: u64, consec: u32) -> u64 {
    if consec < 2 || base == 0 {
        0
    } else {
        let steps: u32 = if consec - 2 < 6 {
            (consec - 2) as u32
        } else {
            6
        };
        min_u64(sat_mul(base, doubling(steps)), sat_mul(base, 20))
    }
}

fn mul_saturating(a: u64, b: u64) -> (r: u64)
    ensures
        r == sat_mul(a, b),
{
    match a.checked_mul(b) {
        Some(v) => v,
        None => u64::MAX,
    }
}

fn doubling_factor(k: u32) -> (r: u64)
    requires
        k <= 6,
    ensures
        r == doubling(k),
{
    if k == 0 {
        1
    } else if k == 1 {
        2
    } else if k == 2 {
        4
    } else if k == 3 {
        8
    } else if k == 4 {
        16
    } else if k == 5 {
        32
    } else {
        64
    }
}

/// The cool-down of a key after `consec` consecutive failures, in
/// milliseconds (see `cooldown_ms`).
pub fn key_cooldown_ms(base_ms: u64, consec: u32) -> (r: u64)
    ensures
        r == cooldown_ms(base_ms, consec),
{
    if consec < 2 || base_ms == 0 {
        return 0;
    }
    let steps: u32 = if consec - 2 < 6 {
        consec - 2
    } else {
        6
    };
    let grown = mul_saturating(base_ms, doubling_factor(steps));
    let cap = mul_saturating(base_ms, 20);
    if grown <= cap {
        grown
    } else {
        cap
    }
}

/// The key cool-down never exceeds twenty times its base, and grows (or
/// stays) as failures accumulate.
pub proof fn law_cooldown_capped_and_monotone(base: u64, a: u32, b: u32)
    requires
        a <= b,
    ensures
        cooldown_ms(base, a) <= sat_mul(base, 20),
        cooldown_ms(base, a) <= cooldown_ms(base, b),
{
    if base > 0 && a >= 2 {
        let sa: u32 = if a - 2 < 6 {
            (a - 2) as u32
        } else {
            6
        };
        let sb: u32 = if b - 2 < 6 {
            (b - 2) as u32
        } else {
            6
        };
        assert(doubling(sa) <= doubling(sb));
        assert(base * doubling(sa) <= base * doubling(sb)) by (nonlinear_arith)
            requires
                doubling(sa) <= doubling(sb),
        ;
    }
}

/// Scheduling state of one key, as plain values.
pub struct KeyRuntime {
    pub key_id: i64,
    /// dispatching to this key is allowed
    pub enabled: bool,
    /// requests allowed per minute (`None`: no limit)
    pub rpm_limit: Option<u32>,
    /// no dispatch before this time
    pub cooldown_until: u64,
    pub consecutive_failures: u32,
    /// consecutive authentication / billing failures (reset by a success)
    pub auth_failures: u32,
    /// dispatch times within the last minute, oldest first
    pub request_times: VecDeque<u64>,
}

/// The model of a `KeyRuntime`.
pub struct KeyRuntimeView {
    pub key_id: i64,
    pub enabled: bool,
    pub rpm_limit: Option<u32>,
    pub cooldown_until: u64,
    pub consecutive_failures: u32,
    pub auth_failures: u32,
    pub request_times: Seq<u64>,
}

impl View for KeyRuntime {
    type V = KeyRuntimeView;

    open spec fn view(&self) -> KeyRuntimeView {
        KeyRuntimeView {
            key_id: self.key_id,
            enabled: self.enabled,
            rpm_limit: self.rpm_limit,
            cooldown_until: self.cooldown_until,
            consecutive_failures: self.consecutive_failures,
            auth_failures: self.auth_failures,
            request_times: self.request_times@,
        }
    }
}

/// Whether the dispatch at time `t` has left the one-minute window at time
/// `now` (an instant later than `now` counts as no time elapsed).
pub open spec fn outside_window(now: u64, t: u64) -> bool {
    now > t && now - t > RPM_WINDOW_NS
}

/// `q` without its leading entries that have left the window.
pub open spec fn drop_expired(q: Seq<u64>, now: u64) -> Seq<u64>
    decreases q.len(),
{
    if q.len() > 0 && outside_window(now, q[0]) {
        drop_expired(q.drop_first(), now)
    } else {
        q
    }
}

/// A fresh key state: enabled as configured, no failures, no cool-down
/// (available from `now`), an empty window.
pub open spec fn fresh_key(key_id: i64, enabled: bool, rpm_limit: Option<u32>, now: u64) -> KeyRuntimeView {
    KeyRuntimeView {
        key_id,
        enabled,
        rpm_limit,
        cooldown_until: now,
        consecutive_failures: 0,
        auth_failures: 0,
        request_times: Seq::empty(),
    }
}

/// The key after its requests-per-minute window is consulted at `now`, and
/// whether it may take a request: without a limit, nothing changes and it
/// may; with one, the expired entries go and it may while fewer than the
/// limit remain.
pub open spec fn after_rpm_check(k: KeyRuntimeView, now: u64) -> (KeyRuntimeView, bool) {
    match k.rpm_limit {
        None => (k, true),
        Some(limit) => {
            let q = drop_expired(k.request_times, now);
            (KeyRuntimeView { request_times: q, ..k }, q.len() < limit)
        },
    }
}

/// The key after a dispatch at `now` is recorded: the time is appended and
/// the expired entries go.
pub open spec fn after_request(k: KeyRuntimeView, now: u64) -> KeyRuntimeView {
    KeyRuntimeView { request_times: drop_expired(k.request_times.push(now), now), ..k }
}

/// The key after the result of an attempt at `now`: a success clears both
/// failure counts and the cool-down; a failure counts one more consecutive
/// failure and cools the key down by `cooldown_ms` (the counter wraps as a
/// `u32` does; the end time saturates).
pub open spec fn after_result(k: KeyRuntimeView, success: bool, now: u64, base_ms: u64) -> KeyRuntimeView {
    if success {
        KeyRuntimeView { consecutive_failures: 0, auth_failures: 0, cooldown_until: now, ..k }
    } else {
        let consec = if k.consecutive_failures == u32::MAX {
            0
        } else {
            (k.consecutive_failures + 1) as u32
        };
        KeyRuntimeView {
            consecutive_failures: consec,
            cooldown_until: sat_add(now, sat_mul(cooldown_ms(base_ms, consec), 1_000_000)),
            ..k
        }
    }
}

/// The health reported after the result of an attempt: `Limited` when the
/// key is now cooling down, `Healthy` otherwise.
pub open spec fn health_after_result(k: KeyRuntimeView, success: bool, base_ms: u64) -> KeyState {
    if !success && cooldown_ms(base_ms, after_result(k, success, 0, base_ms).consecutive_failures)
        > 0 {
        KeyState::Limited
    } else {
        KeyState::Healthy
    }
}

/// The key after one more authentication / billing failure, and whether
/// its breaker trips: at `CIRCUIT_BREAK_THRESHOLD` consecutive such
/// failures the key is disabled and the count starts over.
pub open spec fn after_auth_failure(k: KeyRuntimeView) -> (KeyRuntimeView, bool) {
    let n = if k.auth_failures == u32::MAX {
        0
    } else {
        (k.auth_failures + 1) as u32
    };
    if n >= CIRCUIT_BREAK_THRESHOLD {
        (KeyRuntimeView { auth_failures: 0, enabled: false, ..k }, true)
    } else {
        (KeyRuntimeView { auth_failures: n, ..k }, false)
    }
}

/// Whether a key may be dispatched to at `now`: enabled, not cooling down,
/// and (looked at last, since that drops expired entries) under its
/// requests-per-minute limit.
pub open spec fn after_eligibility(k: KeyRuntimeView, now: u64) -> (KeyRuntimeView, bool) {
    if k.enabled && k.cooldown_until <= now {
        after_rpm_check(k, now)
    } else {
        (k, false)
    }
}

impl KeyRuntime {
    /// The state of a key just configured: no failures, no cool-down (the
    /// key is available from `now`), an empty window.
    pub fn new(key_id: i64, enabled: bool, rpm_limit: Option<u32>, now: u64) -> (r: Self)
        ensures
            r@ == fresh_key(key_id, enabled, rpm_limit, now),
    {
        KeyRuntime {
            key_id,
            enabled,
            rpm_limit,
            cooldown_until: now,
            consecutive_failures: 0,
            auth_failures: 0,
            request_times: VecDeque::new(),
        }
    }

    fn drop_expired_entries(&mut self, now: u64)
        ensures
            final(self)@ == (KeyRuntimeView {
                request_times: drop_expired(old(self)@.request_times, now),
                ..old(self)@
            }),
    {
        loop
            invariant
                drop_expired(self@.request_times, now) == drop_expired(
                    old(self)@.request_times,
                    now,
                ),
                self@ == (KeyRuntimeView { request_times: self@.request_times, ..old(self)@ }),
            ensures
                self@.request_times == drop_expired(old(self)@.request_times, now),
                self@ == (KeyRuntimeView { request_times: self@.request_times, ..old(self)@ }),
            decreases self@.request_times.len(),
        {
            if self.request_times.len() == 0 {
                break;
            }
            let front = self.request_times[0];
            if now > front && now - front > RPM_WINDOW_NS {
                let ghost before = self@.request_times;
                self.request_times.pop_front();
                assert(self@.request_times =~= before.drop_first());
            } else {
                break;
            }
        }
    }

    /// The requests-per-minute check (see `after_rpm_check`).
    pub fn rpm_ok(&mut self, now: u64) -> (r: bool)
        ensures
            (final(self)@, r) == after_rpm_check(old(self)@, now),
    {
        let limit = match self.rpm_limit {
            None => return true,
            Some(l) => l,
        };
        self.drop_expired_entries(now);
        self.request_times.len() < limit as usize
    }

    /// Records a dispatch at `now` (see `after_request`).
    pub fn record_request(&mut self, now: u64)
        ensures
            final(self)@ == after_request(old(self)@, now),
    {
        self.request_times.push_back(now);
        self.drop_expired_entries(now);
    }

    /// Whether the key may take a task now (see `after_eligibility`).
    pub fn is_eligible(&mut self, now: u64) -> (r: bool)
        ensures
            (final(self)@, r) == after_eligibility(old(self)@, now),
    {
        if self.enabled && self.cooldown_until <= now {
            self.rpm_ok(now)
        } else {
            false
        }
    }

    /// Takes the result of an attempt into account (see `after_result`)
    /// and gives the key's health to report.
    pub fn on_result(&mut self, success: bool, now: u64, base_ms: u64) -> (r: KeyState)
        ensures
            final(self)@ == after_result(old(self)@, success, now, base_ms),
            r == health_after_result(old(self)@, success, base_ms),
    {
        if success {
            self.consecutive_failures = 0;
            self.auth_failures = 0;
            self.cooldown_until = now;
            KeyState::Healthy
        } else {
            self.consecutive_failures = self.consecutive_failures.wrapping_add(1);
            let cd = key_cooldown_ms(base_ms, self.consecutive_failures);
            let cd_ns = mul_saturating(cd, 1_000_000);
            self.cooldown_until = now.saturating_add(cd_ns);
            if cd > 0 {
                KeyState::Limited
            } else {
                KeyState::Healthy
            }
        }
    }

    /// Counts an authentication / billing failure; true when the key's
    /// breaker trips (see `after_auth_failure`).
    pub fn bump_auth_failure(&mut self) -> (r: bool)
        ensures
            (final(self)@, r) == after_auth_failure(old(self)@),
    {
        self.auth_failures = self.auth_failures.wrapping_add(1);
        if self.auth_failures >= CIRCUIT_BREAK_THRESHOLD {
            self.enabled = false;
            self.auth_failures = 0;
            true
        } else {
            false
        }
    }
}

/// A key whose authentication failures start from zero trips its breaker
/// on the third consecutive one, not before, and is then disabled.
pub proof fn law_third_auth_failure_trips(k: KeyRuntimeView)
    requires
        k.auth_failures == 0,
    ensures
        !after_auth_failure(k).1,
        !after_auth_failure(after_auth_failure(k).0).1,
        after_auth_failure(after_auth_failure(after_auth_failure(k).0).0).1,
        !after_auth_failure(after_auth_failure(after_auth_failure(k).0).0).0.enabled,
{
}

/// A key whose breaker tripped is never dispatched to again, and a key
/// still cooling down is not dispatched to before its cool-down ends.
pub proof fn law_tripped_or_cooling_keys_get_no_task(k: KeyRuntimeView, now: u64)
    ensures
        after_auth_failure(k).1 ==> !after_eligibility(after_auth_failure(k).0, now).1,
        now < k.cooldown_until ==> !after_eligibility(k, now).1,
{
}

/// Number of dispatch times in `q` still inside the one-minute window at
/// `now`.
pub open spec fn requests_in_window(q: Seq<u64>, now: u64) -> nat
    decreases q.len(),
{
    if q.len() == 0 {
        0
    } else {
        requests_in_window(q.drop_first(), now) + if outside_window(now, q[0]) {
            0nat
        } else {
            1nat
        }
    }
}

proof fn lemma_requests_in_window_bound(q: Seq<u64>, now: u64)
    ensures
        requests_in_window(q, now) <= drop_expired(q, now).len(),
        requests_in_window(q, now) <= q.len(),
    decreases q.len(),
{
    if q.len() > 0 {
        lemma_requests_in_window_bound(q.drop_first(), now);
    }
}

/// A key takes a task only when it is enabled, its cool-down is over and,
/// under a requests-per-minute limit, fewer than `limit` of its dispatches
/// lie inside the last minute; and such a key does take one once the
/// entries older than the window are dropped and fewer than `limit` remain.
pub proof fn law_eligible_keys_respect_their_limits(k: KeyRuntimeView, now: u64)
    ensures
        after_eligibility(k, now).1 ==> k.enabled && k.cooldown_until <= now,
        after_eligibility(k, now).1 ==> (k.rpm_limit matches Some(limit) ==> requests_in_window(
            k.request_times,
            now,
        ) < limit),
        after_eligibility(k, now).1 ==> (k.rpm_limit matches Some(limit) ==> drop_expired(
            k.request_times,
            now,
        ).len() < limit),
        k.enabled && k.cooldown_until <= now && (k.rpm_limit matches Some(limit) ==> drop_expired(
            k.request_times,
            now,
        ).len() < limit) ==> after_eligibility(k, now).1,
{
    lemma_requests_in_window_bound(k.request_times, now);
}

/// A success clears the count of authentication failures, so only an
/// unbroken run of them trips the breaker.
pub proof fn law_success_resets_failures(k: KeyRuntimeView, now: u64, base_ms: u64)
    ensures
        after_result(k, true, now, base_ms).auth_failures == 0,
        after_result(k, true, now, base_ms).consecutive_failures == 0,
        after_result(k, true, now, base_ms).cooldown_until == now,
{
}

/// A key that passed its requests-per-minute check and then records the
/// dispatch at the same time holds at most `limit` requests in its window.
pub proof fn law_window_never_exceeds_limit(k: KeyRuntimeView, now: u64)
    requires
        k.rpm_limit matches Some(limit),
        after_rpm_check(k, now).1,
    ensures
        after_request(after_rpm_check(k, now).0, now).request_times.len() <= k.rpm_limit->0,
{
    let limit = k.rpm_limit->0;
    let q = drop_expired(k.request_times, now);
    lemma_drop_expired_len(k.request_times, now);
    lemma_drop_expired_len(q.push(now), now);
}

proof fn lemma_drop_expired_len(q: Seq<u64>, now: u64)
    ensures
        drop_expired(q, now).len() <= q.len(),
    decreases q.len(),
{
    if q.len() > 0 && outside_window(now, q[0]) {
        lemma_drop_expired_len(q.drop_first(), now);
    }
}

/// The queue-wide breaker: consecutive failed tasks across all keys pause
/// the queue once they reach the threshold (0 turns the breaker off).
pub struct QueueBreaker {
    /// consecutive failed tasks (reset by any success)
    pub streak: u32,
    pub threshold: u32,
    pub paused: bool,
    /// why the queue paused itself; `None` when it did not
    pub reason: Option<String>,
}

/// The model of a `QueueBreaker`.
pub struct QueueBreakerView {
    pub streak: u32,
    pub threshold: u32,
    pub paused: bool,
    pub reason: Option<Seq<char>>,
}

impl View for QueueBreaker {
    type V = QueueBreakerView;

    open spec fn view(&self) -> QueueBreakerView {
        QueueBreakerView {
            streak: self.streak,
            threshold: self.threshold,
            paused: self.paused,
            reason: match self.reason {
                Some(s) => Some(s@),
                None => None,
            },
        }
    }
}

/// The reason recorded when `threshold` consecutive failures pause the
/// queue.
pub open spec fn pause_reason(threshold: u32) -> Seq<char> {
    "连续 "@ + dec(threshold as nat) + " 个任务失败，已自动暂停队列"@
}

/// The breaker after the outcome of a task that reached a final state, and
/// whether the breaker should trip: a success clears the streak; a failure
/// extends it (wrapping as a `u32`), and trips once it reaches a non-zero
/// threshold.
pub open spec fn after_outcome(b: QueueBreakerView, success: bool) -> (QueueBreakerView, bool) {
    if success {
        (QueueBreakerView { streak: 0, ..b }, false)
    } else {
        let s = if b.streak == u32::MAX {
            0
        } else {
            (b.streak + 1) as u32
        };
        (QueueBreakerView { streak: s, ..b }, b.threshold > 0 && s >= b.threshold)
    }
}

/// The breaker after it trips: the first trip records the reason and pauses
/// the queue (and should be announced); tripping again while the reason is
/// recorded changes nothing.
pub open spec fn after_trip(b: QueueBreakerView) -> (QueueBreakerView, bool) {
    if b.reason is Some {
        (b, false)
    } else {
        (QueueBreakerView { reason: Some(pause_reason(b.threshold)), paused: true, ..b }, true)
    }
}

/// The breaker after the outcome of a finished task, tripping when due;
/// the flag tells whether the queue was paused just now.
pub open spec fn after_task(b: QueueBreakerView, success: bool) -> (QueueBreakerView, bool) {
    let (b1, trip) = after_outcome(b, success);
    if trip {
        after_trip(b1)
    } else {
        (b1, false)
    }
}

/// The breaker after the user resumes the queue: no reason, no streak, not
/// paused.
pub open spec fn after_resume(b: QueueBreakerView) -> QueueBreakerView {
    QueueBreakerView { reason: None, streak: 0, paused: false, ..b }
}

/// `n` failed tasks in a row.
pub open spec fn failures(b: QueueBreakerView, n: nat) -> QueueBreakerView
    decreases n,
{
    if n == 0 {
        b
    } else {
        after_task(failures(b, (n - 1) as nat), false).0
    }
}

fn pause_reason_text(threshold: u32) -> (r: String)
    ensures
        r@ == pause_reason(threshold),
{
    let mut v = chars_of("连续 ");
    let ghost a = v@;
    let mut n = decimal(threshold as u128);
    let ghost b = n@;
    v.append(&mut n);
    let mut tail = chars_of(" 个任务失败，已自动暂停队列");
    let ghost c = tail@;
    v.append(&mut tail);
    assert(v@ =~= a + b + c);
    string_of(v.as_slice())
}

impl QueueBreaker {
    /// A running queue with no failures and the given threshold.
    pub fn new(threshold: u32, paused: bool) -> (r: Self)
        ensures
            r@ == (QueueBreakerView { streak: 0, threshold, paused, reason: None }),
    {
        QueueBreaker { streak: 0, threshold, paused, reason: None }
    }

    /// Records the outcome of a task that reached a final state (see
    /// `after_outcome`).
    pub fn note_outcome(&mut self, success: bool) -> (r: bool)
        ensures
            (final(self)@, r) == after_outcome(old(self)@, success),
    {
        if success {
            self.streak = 0;
            return false;
        }
        self.streak = self.streak.wrapping_add(1);
        self.threshold > 0 && self.streak >= self.threshold
    }

    /// Trips the breaker (see `after_trip`); true when the queue was paused
    /// just now and the pause should be announced.
    pub fn trip(&mut self) -> (r: bool)
        ensures
            (final(self)@, r) == after_trip(old(self)@),
    {
        if self.reason.is_some() {
            return false;
        }
        self.reason = Some(pause_reason_text(self.threshold));
        self.paused = true;
        true
    }

    /// Records a finished task and trips the breaker when due (see
    /// `after_task`).
    pub fn record_task(&mut self, success: bool) -> (r: bool)
        ensures
            (final(self)@, r) == after_task(old(self)@, success),
    {
        if self.note_outcome(success) {
            self.trip()
        } else {
            false
        }
    }

    /// Pauses the queue by hand.
    pub fn pause(&mut self)
        ensures
            final(self)@ == (QueueBreakerView { paused: true, ..old(self)@ }),
    {
        self.paused = true;
    }

    /// Resumes the queue by hand, which also consumes an automatic pause
    /// (see `after_resume`).
    pub fn resume(&mut self)
        ensures
            final(self)@ == after_resume(old(self)@),
    {
        self.reason = None;
        self.streak = 0;
        self.paused = false;
    }

    /// Changes the threshold (0 turns the breaker off).
    pub fn set_threshold(&mut self, n: u32)
        ensures
            final(self)@ == (QueueBreakerView { threshold: n, ..old(self)@ }),
    {
        self.threshold = n;
    }
}

proof fn lemma_failures_streak(b: QueueBreakerView, n: nat)
    requires
        b.reason is None,
        !b.paused,
        b.threshold > 0,
        b.streak + n < b.threshold,
    ensures
        failures(b, n).streak == b.streak + n,
        failures(b, n).reason is None,
        !failures(b, n).paused,
        failures(b, n).threshold == b.threshold,
    decreases n,
{
    if n > 0 {
        lemma_failures_streak(b, (n - 1) as nat);
    }
}

/// With a threshold of `t > 0`, a queue resumed by hand runs through
/// `t - 1` failed tasks in a row, and the `t`-th pauses it with the reason
/// recorded (before the rest of the queue is spent).
pub proof fn law_breaker_pauses_at_threshold(b: QueueBreakerView)
    requires
        b.threshold > 0,
    ensures
        !failures(after_resume(b), (b.threshold - 1) as nat).paused,
        failures(after_resume(b), b.threshold as nat).paused,
        failures(after_resume(b), b.threshold as nat).reason == Some(pause_reason(b.threshold)),
{
    let r = after_resume(b);
    let n = (b.threshold - 1) as nat;
    lemma_failures_streak(r, n);
    assert(failures(r, b.threshold as nat) == after_task(failures(r, n), false).0);
}

/// A success clears the streak, so failures separated by a success never
/// add up; and a breaker already tripped is not announced twice.
pub proof fn law_success_clears_streak_and_trips_once(b: QueueBreakerView)
    ensures
        after_task(b, true).0.streak == 0,
        !after_task(b, true).1,
        b.reason is Some ==> !after_task(b, false).1,
{
}

/// Resuming consumes the automatic pause.
pub proof fn law_resume_clears_pause(b: QueueBreakerView)
    ensures
        after_resume(b).reason is None,
        !after_resume(b).paused,
        after_resume(b).streak == 0,
{
}

/// What a failed attempt turns into.
pub struct FailurePlan {
    pub error_type: ErrorType,
    pub decision: RetryDecision,
    /// `Retry` or `Fail`
    pub next_status: TaskStatus,
    /// the task's retry count after this failure
    pub retry_count: i64,
}

/// The plan after a failed attempt of a task that has used `retry_count`
/// retries: the error class of the failure kind, the retry policy's
/// decision (on the retry count as a `u32`), and then either `Retry` with
/// one more retry counted, or `Fail` with the count unchanged.
pub open spec fn failure_plan_is(
    p: FailurePlan,
    kind: ProviderErrorKind,
    retry_count: i64,
    user_retry: u32,
) -> bool {
    let et = class_of(kind);
    let policy = retry_policy(et, retry_count as u32, user_retry);
    &&& p.error_type == et
    &&& decision_is(p.decision, policy)
    &&& p.next_status == (if policy.0 {
        TaskStatus::Retry
    } else {
        TaskStatus::Fail
    })
    &&& p.retry_count == (if policy.0 {
        retry_count + 1
    } else {
        retry_count as int
    })
}

proof fn lemma_retry_needs_room(et: ErrorType, used: u32, user: u32)
    requires
        retry_policy(et, used, user).0,
    ensures
        used < u32::MAX,
{
}

/// Plans what follows a failed attempt (see `failure_plan_is`).
pub fn plan_failure(kind: ProviderErrorKind, retry_count: i64, user_retry: u32) -> (r: FailurePlan)
    ensures
        failure_plan_is(r, kind, retry_count, user_retry),
{
    let et = classify(kind);
    let used = retry_count as u32;
    let decision = decide(et, used, user_retry);
    if decision.retry {
        proof {
            lemma_retry_needs_room(et, used, user_retry);
            assert(retry_count != i64::MAX) by (bit_vector)
                requires
                    used == retry_count as u32,
                    used < u32::MAX,
            ;
        }
        FailurePlan {
            error_type: et,
            decision,
            next_status: TaskStatus::Retry,
            retry_count: retry_count + 1,
        }
    } else {
        FailurePlan { error_type: et, decision, next_status: TaskStatus::Fail, retry_count }
    }
}

/// A failed attempt only ever moves a running task along a legal
/// transition.
pub proof fn law_failure_follows_the_machine(p: FailurePlan, kind: ProviderErrorKind, rc: i64, user: u32)
    requires
        failure_plan_is(p, kind, rc, user),
    ensures
        legal_transition(TaskStatus::Run, p.next_status),
{
}

/// The status a stored task is dispatched from: its stored status (an
/// unknown text counts as queued), provided running may follow it.
pub open spec fn dispatch_source(stored: Seq<char>) -> Option<TaskStatus> {
    let from = if exists|t: TaskStatus| stored == #[trigger] status_name(t) {
        choose|t: TaskStatus| stored == #[trigger] status_name(t)
    } else {
        TaskStatus::Q
    };
    if legal_transition(from, TaskStatus::Run) {
        Some(from)
    } else {
        None
    }
}

/// The guard before dispatch: the status the task leaves, or `None` when a
/// task in that status may not start running.
pub fn dispatch_guard(stored_status: &str) -> (r: Option<TaskStatus>)
    ensures
        r == dispatch_source(stored_status@),
{
    let from = match parse_status(stored_status) {
        Ok(t) => {
            proof {
                crate::engine::status::law_status_names_distinct(
                    t,
                    choose|u: TaskStatus| stored_status@ == #[trigger] status_name(u),
                );
            }
            t
        },
        Err(_) => TaskStatus::Q,
    };
    if can_transition(from, TaskStatus::Run) {
        Some(from)
    } else {
        None
    }
}

/// The message stored when a generated result cannot be written to disk.
pub open spec fn write_failure_message(err: Seq<char>) -> Seq<char> {
    "结果写盘失败："@ + err
}

/// Builds the message for a result that could not be written; such a task
/// fails as `Other` without counting against the key.
pub fn write_failure_text(err: &str) -> (r: String)
    ensures
        r@ == write_failure_message(err@),
{
    let mut v = chars_of("结果写盘失败：");
    let ghost a = v@;
    let mut e = chars_of(err);
    let ghost b = e@;
    v.append(&mut e);
    assert(v@ =~= a + b);
    string_of(v.as_slice())
}

/// The notice sent when a key's breaker trips.
pub open spec fn key_breaker_notice(key_id: i64) -> Seq<char> {
    "Key #"@ + signed_dec(key_id as int) + " 连续鉴权/欠费失败已达 3 次，已自动停用。请到设置检查并恢复。"@
}

/// Builds the notice sent when a key's breaker trips.
pub fn key_breaker_notice_text(key_id: i64) -> (r: String)
    ensures
        r@ == key_breaker_notice(key_id),
{
    let mut v = chars_of("Key #");
    let ghost a = v@;
    let mut n = signed_decimal(key_id);
    let ghost b = n@;
    v.append(&mut n);
    let mut tail = chars_of(" 连续鉴权/欠费失败已达 3 次，已自动停用。请到设置检查并恢复。");
    let ghost c = tail@;
    v.append(&mut tail);
    assert(v@ =~= a + b + c);
    string_of(v.as_slice())
}

/// The notice sent when the queue pauses itself.
pub open spec fn queue_pause_notice(threshold: u32) -> Seq<char> {
    "连续 "@ + dec(threshold as nat) + " 个任务失败，队列已自动暂停以防继续消耗额度。请检查设置后继续队列。"@
}

/// Builds the notice sent when the queue pauses itself.
pub fn queue_pause_notice_text(threshold: u32) -> (r: String)
    ensures
        r@ == queue_pause_notice(threshold),
{
    let mut v = chars_of("连续 ");
    let ghost a = v@;
    let mut n = decimal(threshold as u128);
    let ghost b = n@;
    v.append(&mut n);
    let mut tail = chars_of(" 个任务失败，队列已自动暂停以防继续消耗额度。请检查设置后继续队列。");
    let ghost c = tail@;
    v.append(&mut tail);
    assert(v@ =~= a + b + c);
    string_of(v.as_slice())
}

/// The title of the notice sent when a batch is archived.
pub open spec fn batch_done_title(batch_id: i64) -> Seq<char> {
    "批次 #"@ + signed_dec(batch_id as int) + " 已完成"@
}

/// The body of that notice: total, awaiting review, passed, rejected and
/// failed tasks.
pub open spec fn batch_done_body(c: SummaryCounts) -> Seq<char> {
    "共 "@ + signed_dec(c.total as int) + " 个任务：待验收 "@ + signed_dec(c.review as int)
        + " · 通过 "@ + signed_dec(c.passed as int) + " · 未通过 "@ + signed_dec(c.rejected as int)
        + " · 失败 "@ + signed_dec(c.failed as int)
}

fn push_text(v: &mut Vec<char>, s: &str)
    ensures
        final(v)@ == old(v)@ + s@,
{
    let mut t = chars_of(s);
    v.append(&mut t);
}

fn push_number(v: &mut Vec<char>, n: i64)
    ensures
        final(v)@ == old(v)@ + signed_dec(n as int),
{
    let mut t = signed_decimal(n);
    v.append(&mut t);
}

/// Builds the notice sent when a batch is archived: its title and body.
pub fn batch_done_notice(batch_id: i64, c: &SummaryCounts) -> (r: (String, String))
    ensures
        r.0@ == batch_done_title(batch_id),
        r.1@ == batch_done_body(*c),
{
    let mut t: Vec<char> = Vec::new();
    push_text(&mut t, "批次 #");
    push_number(&mut t, batch_id);
    push_text(&mut t, " 已完成");
    let mut b: Vec<char> = Vec::new();
    push_text(&mut b, "共 ");
    push_number(&mut b, c.total);
    push_text(&mut b, " 个任务：待验收 ");
    push_number(&mut b, c.review);
    push_text(&mut b, " · 通过 ");
    push_number(&mut b, c.passed);
    push_text(&mut b, " · 未通过 ");
    push_number(&mut b, c.rejected);
    push_text(&mut b, " · 失败 ");
    push_number(&mut b, c.failed);
    (string_of(t.as_slice()), string_of(b.as_slice()))
}

} // verus!
