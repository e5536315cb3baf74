//! Engine events pushed to the interface, and batch summary counting.

use vstd::prelude::*;
use crate::engine::classify::ErrorType;
use crate::engine::progress::Phase;
use crate::engine::status::TaskStatus;

verus! {

/// `task://status-changed`
#[derive(Debug, Clone)]
pub struct TaskStatusChanged {
    pub task_id: i64,
    pub batch_id: i64,
    pub status: TaskStatus,
    pub error_type: Option<ErrorType>,
    pub error_message: Option<String>,
    pub retry_count: i64,
    pub api_key_id: Option<i64>,
}

/// `task://progress` (throttled to 250 ms)
#[derive(Debug, Clone)]
pub struct TaskProgress {
    pub task_id: i64,
    pub pct: u8,
    pub phase: Phase,
}

/// Task counts of one batch, by visual group.
#[derive(Debug, Clone, Default, PartialEq, Eq, Structural)]
pub struct SummaryCounts {
    /// waiting `q`
    pub pending: i64,
    /// generating `run` + `retry`
    pub running: i64,
    /// failed `fail`
    pub failed: i64,
    /// awaiting review `rev`
    pub review: i64,
    /// passed `pass`
    pub passed: i64,
    /// rejected `rej`
    pub rejected: i64,
    pub total: i64,
}

/// `batch://summary` (throttled to 250 ms)
#[derive(Debug, Clone)]
pub struct BatchSummary {
    pub batch_id: i64,
    pub counts: SummaryCounts,
    pub active_concurrency: i64,
    pub paused: bool,
    /// Why the queue paused itself (global breaker); `None` otherwise.
    pub auto_pause_reason: Option<String>,
}

/// Health of one key.
#[derive(Debug, Clone, Copy, PartialEq, Eq, Structural)]
pub enum KeyState {
    /// healthy (serialised as `ok`)
    Healthy,
    Limited,
    AuthFailed,
    Disabled,
}

/// Counts as integers: (pending, running, failed, review, passed, rejected, total).
pub open spec fn tally(rows: Seq<(Seq<char>, i64)>) -> (int, int, int, int, int, int, int)
    decreases rows.len(),
{
    if rows.len() == 0 {
        (0, 0, 0, 0, 0, 0, 0)
    } else {
        let c = tally(rows.drop_last());
        let s = rows.last().0;
        let n = rows.last().1 as int;
        (
            c.0 + if s == "q"@ { n } else { 0 },
            c.1 + if s == "run"@ || s == "retry"@ { n } else { 0 },
            c.2 + if s == "fail"@ { n } else { 0 },
            c.3 + if s == "rev"@ { n } else { 0 },
            c.4 + if s == "pass"@ { n } else { 0 },
            c.5 + if s == "rej"@ { n } else { 0 },
            c.6 + n,
        )
    }
}

/// Views of `(status, count)` rows.
pub open spec fn row_views(rows: Seq<(String, i64)>) -> Seq<(Seq<char>, i64)> {
    rows.map_values(|r: (String, i64)| (r.0@, r.1))
}

/// Whether `c` holds the counts `t`.
pub open spec fn counts_are(c: SummaryCounts, t: (int, int, int, int, int, int, int)) -> bool {
    c.pending == t.0 && c.running == t.1 && c.failed == t.2 && c.review == t.3 && c.passed == t.4
        && c.rejected == t.5 && c.total == t.6
}

proof fn lemma_status_words_distinct()
    ensures
        "q"@ != "run"@ && "q"@ != "retry"@ && "q"@ != "fail"@ && "q"@ != "rev"@ && "q"@ != "pass"@
            && "q"@ != "rej"@,
        "run"@ != "retry"@ && "run"@ != "fail"@ && "run"@ != "rev"@ && "run"@ != "pass"@ && "run"@
            != "rej"@,
        "retry"@ != "fail"@ && "retry"@ != "rev"@ && "retry"@ != "pass"@ && "retry"@ != "rej"@,
        "fail"@ != "rev"@ && "fail"@ != "pass"@ && "fail"@ != "rej"@,
        "rev"@ != "pass"@ && "rev"@ != "rej"@,
        "pass"@ != "rej"@,
{
    reveal_strlit("q");
    reveal_strlit("run");
    reveal_strlit("retry");
    reveal_strlit("fail");
    reveal_strlit("rev");
    reveal_strlit("pass");
    reveal_strlit("rej");
    assert("q"@.len() == 1 && "run"@.len() == 3 && "retry"@.len() == 5 && "fail"@.len() == 4);
    assert("rev"@.len() == 3 && "pass"@.len() == 4 && "rej"@.len() == 3);
    assert("run"@[1] != "retry"@[1]);
    assert("run"@[1] != "rev"@[1]);
    assert("run"@[1] != "rej"@[1]);
    assert("fail"@[0] != "pass"@[0]);
    assert("rev"@[2] != "rej"@[2]);
    assert("retry"@.len() != "rev"@.len());
}

/// All seven counts fit an `i64`.
pub open spec fn fits_i64(t: (int, int, int, int, int, int, int)) -> bool {
    &&& i64::MIN <= t.0 <= i64::MAX
    &&& i64::MIN <= t.1 <= i64::MAX
    &&& i64::MIN <= t.2 <= i64::MAX
    &&& i64::MIN <= t.3 <= i64::MAX
    &&& i64::MIN <= t.4 <= i64::MAX
    &&& i64::MIN <= t.5 <= i64::MAX
    &&& i64::MIN <= t.6 <= i64::MAX
}

/// The seven stored status names.
pub open spec fn known_status(s: Seq<char>) -> bool {
    s == "q"@ || s == "run"@ || s == "retry"@ || s == "fail"@ || s == "rev"@ || s == "pass"@ || s
        == "rej"@
}

/// When every row carries a known status, the six visual groups add up to
/// the total: no task is counted twice or lost.
pub proof fn law_groups_add_up_to_total(rows: Seq<(Seq<char>, i64)>)
    requires
        forall|i: int| 0 <= i < rows.len() ==> known_status(#[trigger] rows[i].0),
    ensures
        ({
            let t = tally(rows);
            t.0 + t.1 + t.2 + t.3 + t.4 + t.5 == t.6
        }),
    decreases rows.len(),
{
    if rows.len() > 0 {
        let init = rows.drop_last();
        assert forall|i: int| 0 <= i < init.len() implies known_status(#[trigger] init[i].0) by {
            assert(init[i] == rows[i]);
        }
        law_groups_add_up_to_total(init);
        lemma_status_words_distinct();
        assert(known_status(rows[rows.len() - 1].0));
    }
}

/// Task counts of a batch from its `(status, count)` rows: `q` pending,
/// `run`/`retry` running, `fail` failed, `rev` review, `pass` passed, `rej`
/// rejected; every row counts towards the total.
pub fn counts_from_rows(rows: &[(String, i64)]) -> (c: SummaryCounts)
    requires
        forall|k: int| 0 <= k <= rows@.len() ==> fits_i64(#[trigger] tally(row_views(rows@).take(k))),
    ensures
        counts_are(c, tally(row_views(rows@))),
{
    let ghost rv = row_views(rows@);
    let mut c = SummaryCounts {
        pending: 0,
        running: 0,
        failed: 0,
        review: 0,
        passed: 0,
        rejected: 0,
        total: 0,
    };
    let mut i: usize = 0;
    assert(rv.take(0) =~= Seq::<(Seq<char>, i64)>::empty());
    while i < rows.len()
        invariant
            i <= rows@.len(),
            rv == row_views(rows@),
            forall|k: int| 0 <= k <= rv.len() ==> fits_i64(#[trigger] tally(rv.take(k))),
            counts_are(c, tally(rv.take(i as int))),
        decreases rows@.len() - i,
    {
        proof {
            assert(rv.take(i + 1).drop_last() =~= rv.take(i as int));
            assert(rv[i as int] == (rows@[i as int].0@, rows@[i as int].1));
            assert(fits_i64(tally(rv.take(i + 1))));
        }
        let s = crate::text::chars_of(rows[i].0.as_str());
        let n = rows[i].1;
        let ss = s.as_slice();
        if crate::text::str_is(ss, "q") {
            c.pending = c.pending + n;
        } else if crate::text::str_is(ss, "run") || crate::text::str_is(ss, "retry") {
            c.running = c.running + n;
        } else if crate::text::str_is(ss, "fail") {
            c.failed = c.failed + n;
        } else if crate::text::str_is(ss, "rev") {
            c.review = c.review + n;
        } else if crate::text::str_is(ss, "pass") {
            c.passed = c.passed + n;
        } else if crate::text::str_is(ss, "rej") {
            c.rejected = c.rejected + n;
        }
        proof {
            lemma_status_words_distinct();
        }
        c.total = c.total + n;
        proof {
            let t1 = tally(rv.take(i + 1));
            let t0 = tally(rv.take(i as int));
            assert(rv.take(i + 1).last() == (ss@, n));
            assert(t1.6 == t0.6 + n);
            assert(t1.0 == t0.0 + if ss@ == "q"@ { n as int } else { 0 });
            assert(c.pending == t1.0);
            assert(c.running == t1.1);
            assert(c.failed == t1.2);
            assert(c.review == t1.3);
            assert(c.passed == t1.4);
            assert(c.rejected == t1.5);
            assert(c.total == t1.6);
        }
        i += 1;
    }
    assert(rv.take(rows@.len() as int) =~= rv);
    c
}

} // verus!
