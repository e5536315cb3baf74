//! Codes, error texts, startup decisions, batch planning and retirement.

use gendesk::db::works::restore_link;
use gendesk::db::startup::{
    backup_file_name, explain_connect_error, explain_failure, export_recovery, needs_backup,
    ConnectFailure, ExportRecovery,
};
use gendesk::db::tasks::{retire_candidates, RetireReport};
use gendesk::engine::batch::{plan_batch, MappingPrompts};
use gendesk::engine::RefMapping;
use gendesk::error::AppError;
use gendesk::ids::format_code;
use gendesk::db::{now_unix, unix_from_reading};

#[test]
fn format_code_pads_to_four() {
    assert_eq!(format_code("DZ", 1), "DZ-0001");
    assert_eq!(format_code("RX", 128), "RX-0128");
    assert_eq!(format_code("CJ", 12345), "CJ-12345");
}

#[test]
fn format_code_signs_inside_the_width() {
    assert_eq!(format_code("DZ", 0), "DZ-0000");
    assert_eq!(format_code("DZ", -5), "DZ--005");
    assert_eq!(format_code("DZ", i64::MIN), "DZ--9223372036854775808");
}

/// 五个变体的 Display（`#[error]`）均非空，且各带自身中文前缀，
/// 保证前端错误分级展示不落到空串。
#[test]
fn display_covers_every_variant() {
    let cases = [
        (AppError::Database("x".into()), "数据库错误"),
        (AppError::Io("x".into()), "文件错误"),
        (AppError::InvalidInput("x".into()), "参数错误"),
        (AppError::Keyring("x".into()), "凭据存储错误"),
        (AppError::Internal("x".into()), "内部错误"),
    ];
    for (err, prefix) in cases {
        let text = err.to_string();
        assert!(text.starts_with(prefix), "{text} 应以 {prefix} 开头");
    }
    assert_eq!(AppError::Io("磁盘已满".into()).message(), "文件错误：磁盘已满");
}

#[test]
fn backup_only_before_the_destructive_migration() {
    assert!(needs_backup(1, 37));
    assert!(needs_backup(1, 1));
    assert!(!needs_backup(1, 38));
    assert!(!needs_backup(1, 0), "空库不备份");
    assert!(!needs_backup(0, 12), "无迁移表不备份");
    assert_eq!(backup_file_name(Some("gendesk"), 42), "gendesk.pre-0038-42.db");
    assert_eq!(backup_file_name(None, 7), "gendesk.pre-0038-7.db");
}

#[test]
fn newer_database_is_explained() {
    let text = explain_failure(&ConnectFailure::VersionMissing(45), "1.2.3", 41);
    assert!(text.contains("更新版本"), "{text}");
    assert!(text.contains("迁移 45"), "{text}");
    assert!(text.contains("（v1.2.3）"), "{text}");
    assert!(text.contains("只到 41"), "{text}");
    assert!(text.contains("已停止启动"), "{text}");
    let text = explain_failure(&ConnectFailure::VersionMismatch(7), "1.2.3", 41);
    assert!(text.starts_with("数据库里迁移 7 的内容"), "{text}");
    assert!(text.contains("校验和"), "{text}");
}

#[test]
fn non_migration_errors_pass_through() {
    let err = sqlx::Error::RowNotFound;
    assert_eq!(explain_connect_error(&err, "1.0.0", 1), err.to_string());
    let other = ConnectFailure::Other("boom".into());
    assert_eq!(explain_failure(&other, "1.0.0", 1), "boom");
}

#[test]
fn interrupted_exports_are_recovered() {
    assert_eq!(export_recovery("confirmed", false, false), ExportRecovery::ReleaseToken);
    assert_eq!(export_recovery("exported", true, false), ExportRecovery::ReleaseToken);
    assert_eq!(export_recovery("exported", false, true), ExportRecovery::ReleaseToken);
    assert_eq!(export_recovery("exported", false, false), ExportRecovery::Revert);
}

#[test]
fn retire_skips_held_batches_and_keeps_order() {
    assert_eq!(retire_candidates(&[5, 1, 3, 9], &[3, 7]), vec![5, 1, 9]);
    assert_eq!(retire_candidates(&[], &[1]), Vec::<i64>::new());
    assert_eq!(retire_candidates(&[2, 2], &[]), vec![2, 2]);
    assert!(RetireReport::default().is_empty());
    assert!(!RetireReport { batches: 1, prompts: 0, groups: 0 }.is_empty());
}

fn group(ref_id: i64, group_id: i64, prompts: &[(i64, &str)]) -> MappingPrompts {
    MappingPrompts {
        mapping: RefMapping { ref_image_id: ref_id, prompt_group_id: group_id },
        prompts: prompts.iter().map(|(id, t)| (*id, t.to_string())).collect(),
    }
}

#[test]
fn batch_expands_combinations_times_draws() {
    let groups = [
        group(2, 10, &[(100, "a"), (101, "b"), (102, "c")]),
        group(1, 10, &[(100, "a"), (101, "b"), (102, "c")]),
        group(2, 11, &[]),
    ];
    let plan = plan_batch(&groups, 2).unwrap();
    assert_eq!(plan.draws, 2);
    assert_eq!(plan.task_count, 12);
    assert_eq!(plan.tasks.len(), 12);
    let first: Vec<(i64, i64, &str, i64)> = plan.tasks[..4]
        .iter()
        .map(|t| (t.ref_image_id, t.prompt_id, t.snapshot.as_str(), t.draw_index))
        .collect();
    assert_eq!(first, vec![(2, 100, "a", 1), (2, 100, "a", 2), (2, 101, "b", 1), (2, 101, "b", 2)]);
    assert_eq!(plan.ref_ids, vec![1, 2]);
    assert_eq!(plan.group_ids, vec![10, 11]);
}

#[test]
fn batch_draws_are_clamped() {
    let groups = [group(1, 1, &[(5, "p")])];
    assert_eq!(plan_batch(&groups, 0).unwrap().task_count, 1);
    assert_eq!(plan_batch(&groups, 99).unwrap().task_count, 5);
    let draws: Vec<i64> = plan_batch(&groups, 3).unwrap().tasks.iter().map(|t| t.draw_index).collect();
    assert_eq!(draws, vec![1, 2, 3]);
}

#[test]
fn batch_without_prompts_is_refused() {
    match plan_batch(&[group(1, 1, &[])], 1) {
        Err(AppError::InvalidInput(m)) => assert_eq!(m, "所选组合展开后无任务（提示词组为空？）"),
        _ => panic!("应拒绝空批次"),
    }
    assert!(plan_batch(&[], 1).is_err());
}

#[test]
fn restoring_keeps_only_live_task_links() {
    assert_eq!(restore_link(Some(4), true), (Some(4), false));
    assert_eq!(restore_link(Some(4), false), (None, true));
    assert_eq!(restore_link(None, true), (None, false));
}

#[test]
fn clock_reading_becomes_timestamp() {
    assert_eq!(unix_from_reading(Some(1_700_000_000)), 1_700_000_000);
    assert_eq!(unix_from_reading(None), 0);
    assert!(now_unix() > 1_600_000_000);
}
