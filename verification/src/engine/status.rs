//! Task status machine.
//!
//! Eight states: queued `q` -> running `run` -> (retrying `retry` -> `run`)*
//! -> awaiting review `rev` -> passed `pass` / rejected `rej`; `fail` is a
//! terminal state that can be manually requeued.

use vstd::prelude::*;

verus! {

/// Lifecycle state of one generation task.
#[derive(Debug, Clone, Copy, PartialEq, Eq, Hash, Structural)]
pub enum TaskStatus {
    /// waiting to be generated
    Q,
    /// being generated
    Run,
    /// waiting for a retry after a failed attempt
    Retry,
    /// generated, waiting for human review
    Rev,
    /// review passed
    Pass,
    /// review rejected
    Rej,
    /// failed (terminal, can be requeued by hand)
    Fail,
}

/// The legal transitions of the status machine.
pub open spec fn legal_transition(from: TaskStatus, to: TaskStatus) -> bool {
    match (from, to) {
        (TaskStatus::Q, TaskStatus::Run) => true,
        (TaskStatus::Run, TaskStatus::Rev) => true,
        (TaskStatus::Run, TaskStatus::Retry) => true,
        (TaskStatus::Run, TaskStatus::Fail) => true,
        (TaskStatus::Retry, TaskStatus::Run) => true,
        (TaskStatus::Retry, TaskStatus::Fail) => true,
        (TaskStatus::Rev, TaskStatus::Pass) => true,
        (TaskStatus::Rev, TaskStatus::Rej) => true,
        (TaskStatus::Fail, TaskStatus::Q) => true,
        _ => false,
    }
}

/// Returns true when `to` may follow `from`.
pub fn can_transition(from: TaskStatus, to: TaskStatus) -> (r: bool)
    ensures
        r == legal_transition(from, to),
{
    match (from, to) {
        (TaskStatus::Q, TaskStatus::Run) => true,
        (TaskStatus::Run, TaskStatus::Rev) => true,
        (TaskStatus::Run, TaskStatus::Retry) => true,
        (TaskStatus::Run, TaskStatus::Fail) => true,
        (TaskStatus::Retry, TaskStatus::Run) => true,
        (TaskStatus::Retry, TaskStatus::Fail) => true,
        (TaskStatus::Rev, TaskStatus::Pass) => true,
        (TaskStatus::Rev, TaskStatus::Rej) => true,
        (TaskStatus::Fail, TaskStatus::Q) => true,
        _ => false,
    }
}


/// Stable lower-case name of a status (as stored in the database).
pub open spec fn status_name(s: TaskStatus) -> Seq<char> {
    match s {
        TaskStatus::Q => "q"@,
        TaskStatus::Run => "run"@,
        TaskStatus::Retry => "retry"@,
        TaskStatus::Rev => "rev"@,
        TaskStatus::Pass => "pass"@,
        TaskStatus::Rej => "rej"@,
        TaskStatus::Fail => "fail"@,
    }
}

impl TaskStatus {
    /// The stored name of the status.
    pub fn as_str(&self) -> (r: &'static str)
        ensures
            r@ == status_name(*self),
    {
        match self {
            TaskStatus::Q => "q",
            TaskStatus::Run => "run",
            TaskStatus::Retry => "retry",
            TaskStatus::Rev => "rev",
            TaskStatus::Pass => "pass",
            TaskStatus::Rej => "rej",
            TaskStatus::Fail => "fail",
        }
    }

    /// Terminal for batch archiving (pass / rej / fail); `rev` still waits
    /// for a human.
    pub fn is_terminal_for_archive(&self) -> (r: bool)
        ensures
            r == (*self == TaskStatus::Pass || *self == TaskStatus::Rej || *self == TaskStatus::Fail),
    {
        match self {
            TaskStatus::Pass | TaskStatus::Rej | TaskStatus::Fail => true,
            _ => false,
        }
    }

    /// Can be retried by hand (the `fail` state).
    pub fn can_manual_retry(&self) -> (r: bool)
        ensures
            r == (*self == TaskStatus::Fail),
    {
        match self {
            TaskStatus::Fail => true,
            _ => false,
        }
    }

    /// Occupies (or will occupy) a key's concurrency slot: `run` / `retry`.
    pub fn is_active(&self) -> (r: bool)
        ensures
            r == (*self == TaskStatus::Run || *self == TaskStatus::Retry),
    {
        match self {
            TaskStatus::Run | TaskStatus::Retry => true,
            _ => false,
        }
    }
}

/// A refused status change.
#[derive(Debug, Clone, PartialEq, Eq, Structural)]
pub struct IllegalTransition {
    pub from: TaskStatus,
    pub to: TaskStatus,
}

/// `Ok(to)` when `from -> to` is legal, otherwise the refused pair (guard
/// before writing a status change).
pub fn transition(from: TaskStatus, to: TaskStatus) -> (r: Result<TaskStatus, IllegalTransition>)
    ensures
        legal_transition(from, to) ==> r == Ok::<TaskStatus, IllegalTransition>(to),
        !legal_transition(from, to) ==> r == Err::<TaskStatus, IllegalTransition>(
            IllegalTransition { from, to },
        ),
{
    if can_transition(from, to) {
        Ok(to)
    } else {
        Err(IllegalTransition { from, to })
    }
}

/// Message for a status name that is not known.
pub open spec fn unknown_status_message(s: Seq<char>) -> Seq<char> {
    "未知任务状态："@ + s
}

/// The status whose stored name is `s`; otherwise the error message.
pub fn parse_status(s: &str) -> (r: Result<TaskStatus, String>)
    ensures
        match r {
            Ok(t) => s@ == status_name(t),
            Err(m) => (forall|t: TaskStatus| s@ != #[trigger] status_name(t)) && m@
                == unknown_status_message(s@),
        },
{
    let c = crate::text::chars_of(s);
    let cs = c.as_slice();
    if crate::text::str_is(cs, "q") {
        Ok(TaskStatus::Q)
    } else if crate::text::str_is(cs, "run") {
        Ok(TaskStatus::Run)
    } else if crate::text::str_is(cs, "retry") {
        Ok(TaskStatus::Retry)
    } else if crate::text::str_is(cs, "rev") {
        Ok(TaskStatus::Rev)
    } else if crate::text::str_is(cs, "pass") {
        Ok(TaskStatus::Pass)
    } else if crate::text::str_is(cs, "rej") {
        Ok(TaskStatus::Rej)
    } else if crate::text::str_is(cs, "fail") {
        Ok(TaskStatus::Fail)
    } else {
        assert forall|t: TaskStatus| s@ != #[trigger] status_name(t) by {
            match t {
                TaskStatus::Q => {},
                TaskStatus::Run => {},
                TaskStatus::Retry => {},
                TaskStatus::Rev => {},
                TaskStatus::Pass => {},
                TaskStatus::Rej => {},
                TaskStatus::Fail => {},
            }
        }
        let mut m = crate::text::chars_of("未知任务状态：");
        let ghost m0 = m@;
        m.extend_from_slice(cs);
        assert(m@ =~= m0 + s@);
        Err(crate::text::string_of(m.as_slice()))
    }
}

impl std::str::FromStr for TaskStatus {
    type Err = String;

    fn from_str(s: &str) -> (r: Result<Self, Self::Err>)
        ensures
            match r {
                Ok(t) => s@ == status_name(t),
                Err(m) => (forall|t: TaskStatus| s@ != #[trigger] status_name(t)) && m@
                    == unknown_status_message(s@),
            },
    {
        parse_status(s)
    }
}

/// Distinct statuses have distinct stored names.
pub proof fn law_status_names_distinct(a: TaskStatus, b: TaskStatus)
    ensures
        status_name(a) == status_name(b) ==> a == b,
{
    reveal_strlit("q");
    reveal_strlit("run");
    reveal_strlit("retry");
    reveal_strlit("rev");
    reveal_strlit("pass");
    reveal_strlit("rej");
    reveal_strlit("fail");
    if status_name(a) == status_name(b) {
        let x = status_name(a);
        match a {
            TaskStatus::Q => { assert(x.len() == 1); },
            TaskStatus::Run => { assert(x.len() == 3 && x[1] == 'u'); },
            TaskStatus::Retry => { assert(x.len() == 5); },
            TaskStatus::Rev => { assert(x.len() == 3 && x[1] == 'e' && x[2] == 'v'); },
            TaskStatus::Pass => { assert(x.len() == 4 && x[0] == 'p'); },
            TaskStatus::Rej => { assert(x.len() == 3 && x[1] == 'e' && x[2] == 'j'); },
            TaskStatus::Fail => { assert(x.len() == 4 && x[0] == 'f'); },
        }
    }
}

/// Parsing the stored name of a status gives the status back.
pub proof fn law_status_name_roundtrip(t: TaskStatus, s: Seq<char>, u: TaskStatus)
    requires
        s == status_name(t),
        s == status_name(u),
    ensures
        u == t,
{
    law_status_names_distinct(t, u);
}

/// `pass` and `rej` have no successor; `fail` leads back to `q` only.
pub proof fn law_terminal_states(to: TaskStatus)
    ensures
        !legal_transition(TaskStatus::Pass, to),
        !legal_transition(TaskStatus::Rej, to),
        legal_transition(TaskStatus::Fail, to) <==> to == TaskStatus::Q,
{
}

/// Legal walks from `q`.
pub open spec fn legal_walk(s: Seq<TaskStatus>) -> bool {
    s.len() > 0 && s[0] == TaskStatus::Q && forall|i: int|
        0 <= i < s.len() - 1 ==> legal_transition(#[trigger] s[i], s[i + 1])
}

/// Along any legal walk from `q`, `pass` and `rej` are the last state
/// (nothing ever follows them).
pub proof fn law_walk_ends_at_pass_or_reject(s: Seq<TaskStatus>, i: int)
    requires
        legal_walk(s),
        0 <= i < s.len(),
        s[i] == TaskStatus::Pass || s[i] == TaskStatus::Rej,
    ensures
        i == s.len() - 1,
{
    if i < s.len() - 1 {
        assert(legal_transition(s[i], s[i + 1]));
    }
}

} // verus!
