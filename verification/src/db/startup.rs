//! Decisions taken when the database is opened: the snapshot before the
//! destructive migration, the explanation of a refused database, and the
//! recovery of exports that a crash interrupted.

use vstd::prelude::*;

use crate::format::{dec, decimal, signed_dec, signed_decimal};
use crate::text::{chars_of, string_of};

verus! {

#[verifier::external_type_specification]
#[verifier::external_body]
pub struct ExSqlxError(sqlx::Error);

/// The migration that drops the old publishing model.
pub const DESTRUCTIVE_MIGRATION: i64 = 38;

/// Whether a consistent snapshot must be taken before migrating: the
/// database has a migration history (`has_migrations != 0`) whose latest
/// successful version is set and older than the destructive migration.
pub fn needs_backup(has_migrations: i64, version: i64) -> (r: bool)
    ensures
        r == (has_migrations != 0 && version != 0 && version < DESTRUCTIVE_MIGRATION),
{
    has_migrations != 0 && version != 0 && version < DESTRUCTIVE_MIGRATION
}

/// `{stem}.pre-0038-{stamp}.db`, with `gendesk` when the database file has
/// no usable stem.
pub open spec fn backup_name(stem: Option<Seq<char>>, stamp: nat) -> Seq<char> {
    let s = match stem {
        Some(t) => t,
        None => "gendesk"@,
    };
    s + ".pre-0038-"@ + dec(stamp) + ".db"@
}

/// The file name of the snapshot, placed beside the database.
pub fn backup_file_name(stem: Option<&str>, stamp_nanos: u128) -> (r: String)
    ensures
        r@ == backup_name(
            match stem {
                Some(t) => Some(t@),
                None => None,
            },
            stamp_nanos as nat,
        ),
{
    let mut v = match stem {
        Some(t) => chars_of(t),
        None => chars_of("gendesk"),
    };
    let ghost a = v@;
    let mut mid = chars_of(".pre-0038-");
    let ghost b = mid@;
    v.append(&mut mid);
    let mut n = decimal(stamp_nanos);
    let ghost c = n@;
    v.append(&mut n);
    let mut tail = chars_of(".db");
    let ghost d = tail@;
    v.append(&mut tail);
    assert(v@ =~= a + b + c + d);
    string_of(v.as_slice())
}

/// Why opening the database failed, as far as the explanation needs it.
#[derive(Debug, Clone)]
pub enum ConnectFailure {
    /// A migration applied to the database is unknown to this program
    /// (the database was written by a newer version).
    VersionMissing(i64),
    /// A migration's checksum differs from the one built in.
    VersionMismatch(i64),
    /// Anything else, with its own text.
    Other(String),
}

/// The model of a `ConnectFailure`.
pub enum ConnectFailureView {
    VersionMissing(i64),
    VersionMismatch(i64),
    Other(Seq<char>),
}

impl View for ConnectFailure {
    type V = ConnectFailureView;

    open spec fn view(&self) -> ConnectFailureView {
        match self {
            ConnectFailure::VersionMissing(v) => ConnectFailureView::VersionMissing(*v),
            ConnectFailure::VersionMismatch(v) => ConnectFailureView::VersionMismatch(*v),
            ConnectFailure::Other(t) => ConnectFailureView::Other(t@),
        }
    }
}

/// The text shown for a failure to open the database.
pub open spec fn explanation(f: ConnectFailureView, app_version: Seq<char>, latest: i64) -> Seq<char> {
    match f {
        ConnectFailureView::VersionMissing(applied) => "数据库是更新版本的 GenDesk 建立的，当前这个版本读不了它。\n\n库里已应用到迁移 "@
            + signed_dec(applied as int) + "，而本应用（v"@ + app_version + "）内置的迁移只到 "@
            + signed_dec(latest as int)
            + "。\n\n请把 GenDesk 更新到最新版本再打开。用旧版本继续运行会损坏数据，因此已停止启动。"@,
        ConnectFailureView::VersionMismatch(version) => "数据库里迁移 "@ + signed_dec(version as int)
            + " 的内容与本应用内置的对不上（校验和不一致）。\n\n通常是同一版本号的迁移文件被改过 —— 迁移发布后不可修改。\n请确认使用的是正式发布版本；若这是开发构建，需要重置数据库。"@,
        ConnectFailureView::Other(text) => text,
    }
}

fn push_str(v: &mut Vec<char>, s: &str)
    ensures
        final(v)@ == old(v)@ + s@,
{
    let mut t = chars_of(s);
    v.append(&mut t);
}

fn push_int(v: &mut Vec<char>, n: i64)
    ensures
        final(v)@ == old(v)@ + signed_dec(n as int),
{
    let mut t = signed_decimal(n);
    v.append(&mut t);
}

/// Turns a failure to open the database into a sentence the user can act
/// on: a database from a newer version must be opened by a newer version
/// (running on would damage data); a changed migration means an unofficial
/// build. `app_version` and `latest_migration` describe this program.
pub fn explain_failure(f: &ConnectFailure, app_version: &str, latest_migration: i64) -> (r: String)
    ensures
        r@ == explanation(f@, app_version@, latest_migration),
{
    match f {
        ConnectFailure::VersionMissing(applied) => {
            let mut v: Vec<char> = Vec::new();
            push_str(&mut v, "数据库是更新版本的 GenDesk 建立的，当前这个版本读不了它。\n\n库里已应用到迁移 ");
            push_int(&mut v, *applied);
            push_str(&mut v, "，而本应用（v");
            push_str(&mut v, app_version);
            push_str(&mut v, "）内置的迁移只到 ");
            push_int(&mut v, latest_migration);
            push_str(
                &mut v,
                "。\n\n请把 GenDesk 更新到最新版本再打开。用旧版本继续运行会损坏数据，因此已停止启动。",
            );
            string_of(v.as_slice())
        },
        ConnectFailure::VersionMismatch(version) => {
            let mut v: Vec<char> = Vec::new();
            push_str(&mut v, "数据库里迁移 ");
            push_int(&mut v, *version);
            push_str(
                &mut v,
                " 的内容与本应用内置的对不上（校验和不一致）。\n\n通常是同一版本号的迁移文件被改过 —— 迁移发布后不可修改。\n请确认使用的是正式发布版本；若这是开发构建，需要重置数据库。",
            );
            string_of(v.as_slice())
        },
        ConnectFailure::Other(text) => {
            let v = chars_of(text.as_str());
            string_of(v.as_slice())
        },
    }
}

/// Which kind of failure a `sqlx::Error` is, without its text.
#[derive(Debug, Clone, Copy, PartialEq, Eq, Structural)]
pub enum FailureKind {
    /// a migration error `VersionMissing` with its version
    VersionMissing(i64),
    /// a migration error `VersionMismatch` with its version
    VersionMismatch(i64),
    /// any other error
    Other,
}

/// The kind of a failure.
pub open spec fn kind_of(f: ConnectFailureView) -> FailureKind {
    match f {
        ConnectFailureView::VersionMissing(v) => FailureKind::VersionMissing(v),
        ConnectFailureView::VersionMismatch(v) => FailureKind::VersionMismatch(v),
        ConnectFailureView::Other(_) => FailureKind::Other,
    }
}

/// The variant of a `sqlx::Error`: `VersionMissing` / `VersionMismatch` of
/// a migration error with their version, and `Other` for everything else.
pub uninterp spec fn failure_kind(err: sqlx::Error) -> FailureKind;

/// Tells the variants of `sqlx::Error` apart. Trusted: the kind of the
/// result is `failure_kind` of the error. The text carried by `Other` is
/// the error's display text, which for an I/O error includes the operating
/// system's message (in the user's language on some systems), so nothing
/// is stated of it.
#[verifier::external_body]
fn connect_failure_of(err: &sqlx::Error) -> (r: ConnectFailure)
    ensures
        kind_of(r@) == failure_kind(*err),
{
    match err {
        sqlx::Error::Migrate(m) => match m.as_ref() {
            sqlx::migrate::MigrateError::VersionMissing(v) => ConnectFailure::VersionMissing(*v),
            sqlx::migrate::MigrateError::VersionMismatch(v) => ConnectFailure::VersionMismatch(*v),
            other => ConnectFailure::Other(other.to_string()),
        },
        other => ConnectFailure::Other(other.to_string()),
    }
}

/// The explanation of a failure to open the database (see
/// `explain_failure`): for the two migration failures the fixed sentence
/// with their version; for any other error its own display text, which
/// depends on the machine and is not stated here.
pub fn explain_connect_error(err: &sqlx::Error, app_version: &str, latest_migration: i64) -> (r: String)
    ensures
        match failure_kind(*err) {
            FailureKind::VersionMissing(v) => r@ == explanation(
                ConnectFailureView::VersionMissing(v),
                app_version@,
                latest_migration,
            ),
            FailureKind::VersionMismatch(v) => r@ == explanation(
                ConnectFailureView::VersionMismatch(v),
                app_version@,
                latest_migration,
            ),
            FailureKind::Other => true,
        },
{
    let f = connect_failure_of(err);
    explain_failure(&f, app_version, latest_migration)
}

/// What to do with a task sheet whose export was interrupted.
#[derive(Debug, Clone, Copy, PartialEq, Eq, Structural)]
pub enum ExportRecovery {
    /// keep the sheet as it is and release the export token
    ReleaseToken,
    /// put the sheet back to `confirmed` and return the inventory it used
    Revert,
}

/// A sheet not marked `exported` only loses its token; an exported one
/// whose package was published (its READY marker exists, or its receipt
/// log has content) can go on and also only loses its token; an exported
/// one with neither crashed before publishing and is reverted.
pub open spec fn export_recovery_for(status: Seq<char>, ready_exists: bool, receipt_started: bool) -> ExportRecovery {
    if status != "exported"@ || ready_exists || receipt_started {
        ExportRecovery::ReleaseToken
    } else {
        ExportRecovery::Revert
    }
}

/// Decides the recovery of one interrupted export (see
/// `export_recovery_for`).
pub fn export_recovery(status: &str, ready_exists: bool, receipt_started: bool) -> (r: ExportRecovery)
    ensures
        r == export_recovery_for(status@, ready_exists, receipt_started),
{
    let c = chars_of(status);
    if !crate::text::str_is(c.as_slice(), "exported") || ready_exists || receipt_started {
        ExportRecovery::ReleaseToken
    } else {
        ExportRecovery::Revert
    }
}

/// A package that was published is never taken back, and only an exported
/// sheet is ever reverted.
pub proof fn law_published_exports_are_kept(status: Seq<char>, ready: bool, receipt: bool)
    ensures
        (ready || receipt) ==> export_recovery_for(status, ready, receipt)
            == ExportRecovery::ReleaseToken,
        export_recovery_for(status, ready, receipt) == ExportRecovery::Revert ==> status
            == "exported"@,
{
}

} // verus!
