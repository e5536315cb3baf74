//! Task engine decisions: error classes and retries, the status machine,
//! back-off, progress estimation, key loading, and the scheduler's rules.

use std::cell::RefCell;
use std::collections::HashMap;
use std::time::Duration;

use gendesk::db::api_keys::{ApiKeyRow, MAX_CONCURRENCY};
use gendesk::engine::classify::{classify, decide, ErrorType, ProviderErrorKind};
use gendesk::engine::dispatch::{
    batch_done_notice, dispatch_guard, key_breaker_notice_text, key_cooldown_ms, plan_failure,
    queue_pause_notice_text, write_failure_text, KeyRuntime, QueueBreaker, RPM_WINDOW_NS,
};
use gendesk::engine::events::{counts_from_rows, KeyState};
use gendesk::engine::progress::{expected_from_history, Phase};
use gendesk::engine::status::{can_transition, transition, TaskStatus};
use gendesk::engine::queue::{choose_key, settle_dispatch, SlotKey};
use gendesk::engine::strategy::{backoff_duration, pick, round_robin, Candidate, Strategy};
use gendesk::engine::{load_key_configs, SecretStore};
use gendesk::error::AppError;

use TaskStatus::{Fail, Pass, Q, Rej, Retry, Rev, Run};

const ALL: [TaskStatus; 7] = [Q, Run, Retry, Rev, Pass, Rej, Fail];

#[test]
fn classify_maps_kinds() {
    assert_eq!(classify(ProviderErrorKind::Timeout), ErrorType::Timeout);
    assert_eq!(
        classify(ProviderErrorKind::RateLimited),
        ErrorType::RateLimited
    );
    assert_eq!(
        classify(ProviderErrorKind::ContentPolicy),
        ErrorType::ContentPolicy
    );
    assert_eq!(classify(ProviderErrorKind::Auth), ErrorType::Auth);
    assert_eq!(classify(ProviderErrorKind::Network), ErrorType::Other);
    assert_eq!(classify(ProviderErrorKind::BadResponse), ErrorType::Other);
}

#[test]
fn timeout_retries_once_then_terminal() {
    assert!(decide(ErrorType::Timeout, 0, 3).retry);
    assert!(decide(ErrorType::Timeout, 0, 3).switch_key);
    assert!(!decide(ErrorType::Timeout, 1, 3).retry);
}

#[test]
fn ratelimited_has_cooldown_and_switch() {
    let d = decide(ErrorType::RateLimited, 0, 3);
    assert!(d.retry && d.switch_key && d.cooldown > Duration::ZERO);
    assert!(!decide(ErrorType::RateLimited, 1, 3).retry);
}

#[test]
fn content_policy_retries_same_key_once() {
    let d = decide(ErrorType::ContentPolicy, 0, 3);
    assert!(d.retry && !d.switch_key);
    assert!(!decide(ErrorType::ContentPolicy, 1, 3).retry);
}

#[test]
fn auth_and_interrupted_never_auto_retry() {
    assert!(!decide(ErrorType::Auth, 0, 3).retry);
    assert!(!decide(ErrorType::Interrupted, 0, 3).retry);
}

#[test]
fn only_auth_suggests_disabling_key() {
    assert!(ErrorType::Auth.suggests_disable_key());
    for e in [
        ErrorType::Timeout,
        ErrorType::RateLimited,
        ErrorType::ContentPolicy,
        ErrorType::Interrupted,
        ErrorType::Other,
    ] {
        assert!(!e.suggests_disable_key(), "{e:?} 不应建议停用 Key");
    }
}

#[test]
fn error_type_str_roundtrip() {
    assert_eq!(ErrorType::Timeout.as_str(), "Timeout");
    assert_eq!(ErrorType::Auth.as_str(), "Auth");
    assert_eq!(ErrorType::Interrupted.as_str(), "Interrupted");
}

#[test]
fn other_follows_user_retry_count() {
    let first = decide(ErrorType::Other, 0, 2);
    let second = decide(ErrorType::Other, 1, 2);
    assert!(first.retry && first.cooldown == Duration::from_secs(5));
    assert!(second.retry && second.cooldown == Duration::from_secs(10));
    assert!(!decide(ErrorType::Other, 2, 2).retry);
    // 用户设 0 次 → 不重试
    assert!(!decide(ErrorType::Other, 0, 0).retry);
}

#[test]
fn other_backoff_caps_at_eighty_seconds() {
    assert_eq!(decide(ErrorType::Other, 2, 9).cooldown, Duration::from_secs(20));
    assert_eq!(decide(ErrorType::Other, 3, 9).cooldown, Duration::from_secs(40));
    assert_eq!(decide(ErrorType::Other, 7, 9).cooldown, Duration::from_secs(80));
    assert_eq!(decide(ErrorType::RateLimited, 0, 0).cooldown, Duration::from_secs(18));
}

#[test]
fn legal_transitions_exact_set() {
    let legal: Vec<(TaskStatus, TaskStatus)> = vec![
        (Q, Run),
        (Run, Rev),
        (Run, Retry),
        (Run, Fail),
        (Retry, Run),
        (Retry, Fail),
        (Rev, Pass),
        (Rev, Rej),
        (Fail, Q),
    ];
    for &from in &ALL {
        for &to in &ALL {
            let expected = legal.contains(&(from, to));
            assert_eq!(can_transition(from, to), expected, "{from:?}→{to:?}");
        }
    }
}

#[test]
fn terminal_states_have_no_outgoing_except_fail_requeue() {
    // pass / rej 完全终态；fail 仅可回到 q
    assert!(ALL.iter().all(|&to| !can_transition(Pass, to)));
    assert!(ALL.iter().all(|&to| !can_transition(Rej, to)));
    assert!(ALL.iter().all(|&to| can_transition(Fail, to) == (to == Q)));
}

#[test]
fn roundtrip_str() {
    for &s in &ALL {
        assert_eq!(s.as_str().parse::<TaskStatus>().unwrap(), s);
    }
}

#[test]
fn unknown_status_text_is_refused() {
    let err = "done".parse::<TaskStatus>().unwrap_err();
    assert_eq!(err, "未知任务状态：done");
}

#[test]
fn illegal_transition_is_reported_with_both_ends() {
    assert_eq!(transition(Q, Run).unwrap(), Run);
    let e = transition(Pass, Run).unwrap_err();
    assert_eq!((e.from, e.to), (Pass, Run));
}

#[test]
fn status_predicates() {
    for &s in &ALL {
        assert_eq!(s.is_terminal_for_archive(), matches!(s, Pass | Rej | Fail));
        assert_eq!(s.can_manual_retry(), s == Fail);
        assert_eq!(s.is_active(), matches!(s, Run | Retry));
    }
}

/// Candidates with success rates written as `successes / attempts`.
fn cands(v: &[(i64, i64, i64)]) -> Vec<Candidate> {
    v.iter()
        .map(|&(id, successes, attempts)| Candidate { id, successes, attempts })
        .collect()
}

#[test]
fn round_robin_rotates_over_available() {
    let c = cands(&[(1, 1, 2), (2, 9, 10), (3, 1, 10)]);
    let mut rr = 0;
    let picks: Vec<i64> = (0..6)
        .map(|_| pick(Strategy::RoundRobin, &c, &mut rr).unwrap())
        .collect();
    assert_eq!(picks, vec![1, 2, 3, 1, 2, 3]);
}

#[test]
fn success_rate_first_picks_highest() {
    let c = cands(&[(1, 1, 2), (2, 9, 10), (3, 1, 10)]);
    let mut rr = 0;
    for _ in 0..3 {
        assert_eq!(pick(Strategy::SuccessRateFirst, &c, &mut rr), Some(2));
    }
}

#[test]
fn success_rate_first_rotates_ties() {
    let c = cands(&[(1, 9, 10), (2, 18, 20), (3, 2, 10)]);
    let mut rr = 0;
    let picks: Vec<i64> = (0..4)
        .map(|_| pick(Strategy::SuccessRateFirst, &c, &mut rr).unwrap())
        .collect();
    assert_eq!(picks, vec![1, 2, 1, 2]);
}

#[test]
fn empty_candidates_none() {
    let mut rr = 0;
    assert_eq!(pick(Strategy::RoundRobin, &[], &mut rr), None);
    assert_eq!(rr, 0);
}

#[test]
fn keys_without_attempts_rate_zero() {
    let c = cands(&[(4, 0, 0), (5, 0, 3), (6, 1, 50)]);
    let mut rr = 0;
    assert_eq!(pick(Strategy::SuccessRateFirst, &c, &mut rr), Some(6));
    let tied = cands(&[(4, 0, 0), (5, 0, 3)]);
    let picks: Vec<i64> = (0..2)
        .map(|_| pick(Strategy::SuccessRateFirst, &tied, &mut rr).unwrap())
        .collect();
    assert_eq!(picks, vec![5, 4]);
}

#[test]
fn backoff_grows_and_caps() {
    assert_eq!(backoff_duration(0), Duration::ZERO);
    assert_eq!(backoff_duration(1), Duration::from_secs(30));
    assert_eq!(backoff_duration(2), Duration::from_secs(60));
    assert_eq!(backoff_duration(3), Duration::from_secs(120));
    assert_eq!(backoff_duration(20), Duration::from_secs(600)); // 封顶
}

#[test]
fn strategy_names() {
    assert_eq!(Strategy::from_str_or_default("success_rate"), Strategy::SuccessRateFirst);
    assert_eq!(Strategy::from_str_or_default("round_robin"), Strategy::RoundRobin);
    assert_eq!(Strategy::from_str_or_default(""), Strategy::RoundRobin);
}

#[test]
fn round_robin_cycles_over_sorted_ids() {
    let ids = [3, 1, 2];
    let mut counter = 0usize;
    let mut picks = Vec::new();
    for _ in 0..6 {
        let (id, next) = round_robin(&ids, counter);
        picks.push(id.unwrap());
        counter = next;
    }
    assert_eq!(picks, vec![1, 2, 3, 1, 2, 3]);
    assert_eq!(round_robin(&[], 7), (None, 7));
    assert_eq!(round_robin(&[5], usize::MAX), (Some(5), 0));
}

#[test]
fn expected_defaults_to_60s_without_history() {
    assert_eq!(expected_from_history(&[]), Duration::from_secs(60));
    assert_eq!(expected_from_history(&[0, 0]), Duration::from_secs(60));
}

#[test]
fn expected_averages_recent_window() {
    // 均值 2000ms
    assert_eq!(
        expected_from_history(&[1000, 3000]),
        Duration::from_millis(2000)
    );
    // 只取近 20 次
    let mut v: Vec<i64> = (1..=30).map(|i| i * 1000).collect(); // 1000..30000
    v.reverse();
    // 近 20 个是 v[0..20] = 30000..11000，均值应 > 10000
    let d = expected_from_history(&v);
    assert!(d > Duration::from_secs(10));
}

#[test]
fn expected_ignores_non_positive_durations() {
    assert_eq!(expected_from_history(&[-5, 4000, 0, 2000]), Duration::from_millis(3000));
    // newest first: the 20 most recent are 30000..11000
    let v: Vec<i64> = (1..=30).rev().map(|i| i * 1000).collect();
    assert_eq!(expected_from_history(&v), Duration::from_millis(20500));
    // huge durations are summed exactly
    assert_eq!(
        expected_from_history(&[i64::MAX, i64::MAX]),
        Duration::from_millis(i64::MAX as u64)
    );
}

#[test]
fn phase_names() {
    assert_eq!(Phase::Queued.as_str(), "queued");
    assert_eq!(Phase::Generating.as_str(), "generating");
    assert_eq!(Phase::Saved.as_str(), "saved");
}

/// An in-memory credential store.
#[derive(Default)]
struct MemoryStore {
    items: RefCell<HashMap<String, String>>,
}

impl MemoryStore {
    fn set(&self, account: &str, secret: &str) -> Result<(), AppError> {
        self.items.borrow_mut().insert(account.to_string(), secret.to_string());
        Ok(())
    }
}

impl SecretStore for MemoryStore {
    fn get(&self, account: &str) -> Result<Option<String>, AppError> {
        Ok(self.items.borrow().get(account).cloned())
    }
}

/// The store's answer for each row's account, as the engine asks it.
fn lookups(store: &dyn SecretStore, rows: &[ApiKeyRow]) -> Vec<Option<String>> {
    rows.iter().map(|r| store.get(&r.keyring_account).ok().flatten()).collect()
}

fn row(id: i64, account: &str, enabled: i64, concurrency: i64) -> ApiKeyRow {
    ApiKeyRow {
        id,
        name: format!("k{id}"),
        keyring_account: account.into(),
        base_url: "http://x/v1".into(),
        model: "m".into(),
        concurrency_limit: concurrency,
        enabled,
        created_at: 0,
        rpm_limit: None,
        circuit_broken: 0,
    }
}

#[test]
fn load_key_configs_maps_enabled_and_skips_secretless() {
    let store = MemoryStore::default();
    store.set("a-en", "sk-1").unwrap();
    store.set("a-dis", "sk-2").unwrap();
    // 第三个无密钥 → 应跳过
    let rows = [
        row(1, "a-en", 1, 5),
        row(2, "a-dis", 0, 3),
        row(3, "a-nosecret", 1, 2),
    ];
    let cfgs = load_key_configs(&rows, &lookups(&store, &rows));
    assert_eq!(cfgs.len(), 2, "无密钥的 Key 应被跳过");
    let en = cfgs.iter().find(|c| c.id == 1).unwrap();
    assert!(en.enabled, "enabled=1 → true");
    assert_eq!(en.concurrency_limit, 5);
    let dis = cfgs.iter().find(|c| c.id == 2).unwrap();
    assert!(!dis.enabled, "enabled=0 → false");
}

#[test]
fn load_key_configs_preserves_limits_above_ten() {
    let store = MemoryStore::default();
    store.set("a", "sk-1").unwrap();
    store.set("b", "sk-2").unwrap();
    store.set("c", "sk-3").unwrap();
    let rows = [
        row(1, "a", 1, 50),
        row(2, "b", 1, MAX_CONCURRENCY + 1), // 越界仍夹到上界
        row(3, "c", 1, 0),                   // 0/负数仍抬到 1
    ];
    let cfgs = load_key_configs(&rows, &lookups(&store, &rows));
    let at = |id: i64| cfgs.iter().find(|c| c.id == id).unwrap().concurrency_limit;
    assert_eq!(at(1), 50, "设置页填 50 就要跑 50，不得被引擎侧夹回 10");
    assert_eq!(at(2), MAX_CONCURRENCY as u32);
    assert_eq!(at(3), 1);
}

#[test]
fn load_key_configs_keeps_positive_rpm_only() {
    let store = MemoryStore::default();
    store.set("a", "sk-1").unwrap();
    store.set("b", "sk-2").unwrap();
    store.set("c", "sk-3").unwrap();
    let mut r1 = row(1, "a", 1, 1);
    r1.rpm_limit = Some(30);
    let mut r2 = row(2, "b", 1, 1);
    r2.rpm_limit = Some(0);
    let mut r3 = row(3, "c", 1, 1);
    r3.rpm_limit = Some(-4);
    let rows = [r1, r2, r3];
    let cfgs = load_key_configs(&rows, &lookups(&store, &rows));
    assert_eq!(cfgs[0].rpm_limit, Some(30));
    assert_eq!(cfgs[1].rpm_limit, None);
    assert_eq!(cfgs[2].rpm_limit, None);
    assert_eq!(cfgs[0].api_key, "sk-1");
    assert_eq!(cfgs[0].base_url, "http://x/v1");
}

// E18：RPM 滑动窗口——达到上限即拒派，窗口滑过后恢复。
#[test]
fn rpm_ok_enforces_limit_and_slides() {
    let now: u64 = 5_000_000_000;
    let mut k = KeyRuntime::new(1, true, Some(2), now);
    assert!(k.rpm_ok(now), "空窗口应放行");
    k.request_times.push_back(now);
    assert!(k.rpm_ok(now), "1 < 2 放行");
    k.request_times.push_back(now);
    assert!(!k.rpm_ok(now), "达上限 2 应拒派");
    // 窗口滑过：旧记录被裁掉，恢复放行。
    let later = now + RPM_WINDOW_NS + 1_000_000_000;
    assert!(k.rpm_ok(later), "窗口外旧记录裁掉后应恢复放行");
    assert!(k.request_times.is_empty(), "过期记录应已裁剪");
}

#[test]
fn rpm_window_is_inclusive_of_exactly_one_minute() {
    let mut k = KeyRuntime::new(1, true, Some(1), 0);
    k.record_request(100);
    assert!(!k.rpm_ok(100 + RPM_WINDOW_NS), "恰好 60 秒仍在窗口内");
    assert!(k.rpm_ok(101 + RPM_WINDOW_NS));
    let mut unlimited = KeyRuntime::new(2, true, None, 0);
    unlimited.record_request(1);
    unlimited.record_request(2);
    assert!(unlimited.rpm_ok(3));
    assert_eq!(unlimited.request_times.len(), 2);
}

#[test]
fn key_cooldown_grows_from_second_failure_and_caps() {
    assert_eq!(key_cooldown_ms(30_000, 0), 0);
    assert_eq!(key_cooldown_ms(30_000, 1), 0);
    assert_eq!(key_cooldown_ms(30_000, 2), 30_000);
    assert_eq!(key_cooldown_ms(30_000, 3), 60_000);
    assert_eq!(key_cooldown_ms(30_000, 6), 480_000);
    assert_eq!(key_cooldown_ms(30_000, 7), 600_000);
    assert_eq!(key_cooldown_ms(30_000, 100), 600_000);
    assert_eq!(key_cooldown_ms(0, 5), 0);
    assert_eq!(key_cooldown_ms(u64::MAX, 3), u64::MAX);
}

#[test]
fn key_results_cool_down_and_reset() {
    let mut k = KeyRuntime::new(7, true, None, 0);
    assert_eq!(k.on_result(false, 1_000, 2), KeyState::Healthy);
    assert_eq!(k.consecutive_failures, 1);
    assert_eq!(k.cooldown_until, 1_000);
    assert_eq!(k.on_result(false, 2_000, 2), KeyState::Limited);
    assert_eq!(k.cooldown_until, 2_000 + 2_000_000);
    assert!(!k.is_eligible(2_000));
    assert!(k.is_eligible(2_000 + 2_000_000));
    assert_eq!(k.on_result(true, 9_000, 2), KeyState::Healthy);
    assert_eq!((k.consecutive_failures, k.auth_failures, k.cooldown_until), (0, 0, 9_000));
}

#[test]
fn third_auth_failure_trips_the_key() {
    let mut k = KeyRuntime::new(1, true, None, 0);
    assert!(!k.bump_auth_failure());
    assert!(!k.bump_auth_failure());
    assert!(k.bump_auth_failure(), "第三次连续鉴权失败应熔断");
    assert!(!k.enabled);
    assert_eq!(k.auth_failures, 0);
    assert!(!k.is_eligible(10));
}

#[test]
fn success_between_auth_failures_prevents_tripping() {
    let mut k = KeyRuntime::new(1, true, None, 0);
    assert!(!k.bump_auth_failure());
    assert!(!k.bump_auth_failure());
    k.on_result(true, 5, 30_000);
    assert!(!k.bump_auth_failure());
    assert!(k.enabled);
}

#[test]
fn queue_breaker_pauses_at_threshold_once() {
    let mut b = QueueBreaker::new(5, false);
    for _ in 0..4 {
        assert!(!b.record_task(false));
        assert!(!b.paused);
    }
    assert!(b.record_task(false), "第 5 次连续失败应自动暂停");
    assert!(b.paused);
    assert_eq!(b.reason.as_deref(), Some("连续 5 个任务失败，已自动暂停队列"));
    assert!(!b.record_task(false), "已自动暂停，不重复通知");
    b.resume();
    assert!(!b.paused && b.reason.is_none() && b.streak == 0);
}

#[test]
fn queue_breaker_success_resets_and_zero_disables() {
    let mut b = QueueBreaker::new(2, false);
    assert!(!b.record_task(false));
    assert!(!b.record_task(true));
    assert!(!b.record_task(false));
    assert!(!b.paused);
    let mut off = QueueBreaker::new(0, false);
    for _ in 0..50 {
        assert!(!off.record_task(false));
    }
    assert!(!off.paused);
    off.pause();
    assert!(off.paused && off.reason.is_none());
    off.set_threshold(1);
    assert!(off.record_task(false));
}

#[test]
fn failures_plan_retry_or_fail() {
    let p = plan_failure(ProviderErrorKind::Timeout, 0, 1);
    assert_eq!(p.error_type, ErrorType::Timeout);
    assert_eq!(p.next_status, Retry);
    assert_eq!(p.retry_count, 1);
    assert!(p.decision.switch_key);
    let p = plan_failure(ProviderErrorKind::Timeout, 1, 1);
    assert_eq!(p.next_status, Fail);
    assert_eq!(p.retry_count, 1);
    let p = plan_failure(ProviderErrorKind::Network, 0, 2);
    assert_eq!((p.error_type, p.next_status), (ErrorType::Other, Retry));
    assert_eq!(p.decision.cooldown, Duration::from_secs(5));
    let p = plan_failure(ProviderErrorKind::Auth, 0, 9);
    assert_eq!((p.error_type, p.next_status, p.retry_count), (ErrorType::Auth, Fail, 0));
}

#[test]
fn dispatch_guard_follows_the_machine() {
    assert_eq!(dispatch_guard("q"), Some(Q));
    assert_eq!(dispatch_guard("retry"), Some(Retry));
    assert_eq!(dispatch_guard("garbage"), Some(Q));
    for s in ["run", "rev", "pass", "rej", "fail"] {
        assert_eq!(dispatch_guard(s), None, "{s} 不可派发");
    }
}

#[test]
fn batch_done_notice_lists_the_counts() {
    let rows = vec![("rev".to_string(), 2), ("pass".to_string(), 5), ("fail".to_string(), 1)];
    let (title, body) = batch_done_notice(7, &counts_from_rows(&rows));
    assert_eq!(title, "批次 #7 已完成");
    assert_eq!(body, "共 8 个任务：待验收 2 · 通过 5 · 未通过 0 · 失败 1");
}

#[test]
fn scheduler_texts() {
    assert_eq!(write_failure_text("磁盘已满"), "结果写盘失败：磁盘已满");
    assert_eq!(
        key_breaker_notice_text(12),
        "Key #12 连续鉴权/欠费失败已达 3 次，已自动停用。请到设置检查并恢复。"
    );
    assert_eq!(
        queue_pause_notice_text(10),
        "连续 10 个任务失败，队列已自动暂停以防继续消耗额度。请检查设置后继续队列。"
    );
}

#[test]
fn summary_counts_group_statuses() {
    let rows = vec![
        ("q".to_string(), 2),
        ("run".to_string(), 1),
        ("retry".to_string(), 3),
        ("fail".to_string(), 4),
        ("rev".to_string(), 5),
        ("pass".to_string(), 6),
        ("rej".to_string(), 7),
        ("weird".to_string(), 8),
    ];
    let c = counts_from_rows(&rows);
    assert_eq!(
        (c.pending, c.running, c.failed, c.review, c.passed, c.rejected, c.total),
        (2, 4, 4, 5, 6, 7, 36)
    );
}

#[test]
fn configs_follow_the_lookups() {
    let rows = [row(1, "a", 1, 5), row(2, "b", 0, 50), row(3, "c", 1, 0)];
    let found = [Some("sk-1".to_string()), None, Some("sk-3".to_string())];
    let cfgs = load_key_configs(&rows, &found);
    assert_eq!(cfgs.len(), 2);
    assert_eq!((cfgs[0].id, cfgs[0].api_key.as_str(), cfgs[0].concurrency_limit), (1, "sk-1", 5));
    assert!(cfgs[0].enabled);
    assert_eq!((cfgs[1].id, cfgs[1].api_key.as_str(), cfgs[1].concurrency_limit), (3, "sk-3", 1));
    assert!(load_key_configs(&rows, &[None, None, None]).is_empty());
}

/// Runs one round in which every offered task starts, or is skipped
/// where `skip` says so; returns the chosen keys.
fn run_round(strategy: Strategy, keys: &[SlotKey], skip: &[bool], rr: &mut usize) -> Vec<i64> {
    let mut slots = keys.to_vec();
    let mut chosen = Vec::new();
    for &skipped in skip {
        let Some(id) = choose_key(strategy, &slots, rr) else { break };
        chosen.push(id);
        settle_dispatch(&mut slots, id, !skipped);
    }
    chosen
}

#[test]
fn dispatch_round_follows_strategy_until_slots_run_out() {
    let keys = [
        SlotKey { id: 1, free: 2, successes: 1, attempts: 2 },
        SlotKey { id: 2, free: 1, successes: 2, attempts: 2 },
    ];
    let all = [false; 5];
    let mut rr = 0usize;
    assert_eq!(run_round(Strategy::RoundRobin, &keys, &all, &mut rr), vec![1, 2, 1]);
    assert_eq!(rr, 3);
    let mut rr = 0usize;
    assert_eq!(run_round(Strategy::SuccessRateFirst, &keys, &all, &mut rr), vec![2, 1, 1]);
    let mut rr = 7usize;
    assert_eq!(run_round(Strategy::RoundRobin, &keys, &all[..1], &mut rr), vec![2]);
    assert_eq!(rr, 8);
    let none = [SlotKey { id: 3, free: 0, successes: 0, attempts: 0 }];
    let mut rr = 4usize;
    assert!(run_round(Strategy::RoundRobin, &none, &all, &mut rr).is_empty());
    assert_eq!(rr, 4);
}

#[test]
fn a_skipped_task_leaves_its_slot_for_the_next() {
    let one = [SlotKey { id: 5, free: 1, successes: 0, attempts: 0 }];
    let mut rr = 0usize;
    // the first task is skipped, so the single slot still takes the second
    assert_eq!(run_round(Strategy::RoundRobin, &one, &[true, false, false], &mut rr), vec![5, 5]);
    let mut slots = one.to_vec();
    settle_dispatch(&mut slots, 5, false);
    assert_eq!(slots[0].free, 1);
    settle_dispatch(&mut slots, 5, true);
    assert_eq!(slots[0].free, 0);
}
