//! Batches and tasks: the rows the engine reads, and the rule that retires
//! resolved batches.

use vstd::prelude::*;

verus! {

/// One row of `batches`.
#[derive(Debug, Clone)]
pub struct BatchRow {
    pub id: i64,
    pub created_at: i64,
    pub output_dir: String,
    pub params_json: String,
    pub status: String,
    /// The batch's note (name); `None` when unnamed.
    pub note: Option<String>,
}

/// One row of `tasks`.
#[derive(Debug, Clone)]
pub struct TaskRow {
    pub id: i64,
    pub batch_id: i64,
    pub ref_image_id: i64,
    pub prompt_id: i64,
    pub prompt_text_snapshot: String,
    pub status: String,
    pub api_key_id: Option<i64>,
    pub error_type: Option<String>,
    pub error_message: Option<String>,
    pub retry_count: i64,
    pub result_image_path: Option<String>,
    pub result_thumb_path: Option<String>,
    pub created_at: i64,
    pub updated_at: i64,
}

/// What one retirement sweep removed.
#[derive(Debug, Clone, Default, PartialEq, Eq, Structural)]
pub struct RetireReport {
    pub batches: i64,
    pub prompts: i64,
    pub groups: i64,
}

impl RetireReport {
    /// Whether the sweep removed nothing.
    pub fn is_empty(&self) -> (r: bool)
        ensures
            r == (self.batches == 0 && self.prompts == 0 && self.groups == 0),
    {
        self.batches == 0 && self.prompts == 0 && self.groups == 0
    }
}

/// The resolved batches that are not held, in order.
pub open spec fn unheld(resolved: Seq<i64>, held: Seq<i64>) -> Seq<i64>
    decreases resolved.len(),
{
    if resolved.len() == 0 {
        resolved
    } else {
        let r = unheld(resolved.drop_last(), held);
        if held.contains(resolved.last()) {
            r
        } else {
            r.push(resolved.last())
        }
    }
}

/// The batches to retire: the resolved ones (every task passed or rejected,
/// no rejected result of theirs in the trash) except those that a deleted
/// work in the trash still belongs to, since restoring that work needs its
/// batch's tasks.
pub fn retire_candidates(resolved: &[i64], held: &[i64]) -> (r: Vec<i64>)
    ensures
        r@ == unheld(resolved@, held@),
{
    let mut out: Vec<i64> = Vec::new();
    let mut i: usize = 0;
    while i < resolved.len()
        invariant
            i <= resolved@.len(),
            out@ == unheld(resolved@.take(i as int), held@),
        decreases resolved@.len() - i,
    {
        assert(resolved@.take(i + 1).drop_last() =~= resolved@.take(i as int));
        let b = resolved[i];
        let mut is_held = false;
        let mut j: usize = 0;
        while j < held.len()
            invariant
                j <= held@.len(),
                is_held == held@.take(j as int).contains(b),
            decreases held@.len() - j,
        {
            if held[j] == b {
                assert(held@.take(j + 1)[j as int] == b);
                is_held = true;
            } else {
                proof {
                    if is_held {
                        let k = choose|k: int| 0 <= k < j && held@.take(j as int)[k] == b;
                        assert(held@.take(j + 1)[k] == b);
                    } else {
                        assert forall|k: int| 0 <= k < j + 1 implies #[trigger] held@.take(j + 1)[k] != b by {
                            if k < j {
                                assert(held@.take(j as int)[k] == held@.take(j + 1)[k]);
                            }
                        }
                    }
                }
            }
            j += 1;
        }
        assert(held@.take(held@.len() as int) =~= held@);
        if !is_held {
            out.push(b);
        }
        i += 1;
    }
    assert(resolved@.take(resolved@.len() as int) =~= resolved@);
    out
}

/// A batch is retired exactly when it is resolved and not held: no held
/// batch is ever retired, and no resolved, unheld batch is left behind.
pub proof fn law_retire_exactly_unheld(resolved: Seq<i64>, held: Seq<i64>, b: i64)
    ensures
        unheld(resolved, held).contains(b) <==> (resolved.contains(b) && !held.contains(b)),
    decreases resolved.len(),
{
    if resolved.len() > 0 {
        let init = resolved.drop_last();
        law_retire_exactly_unheld(init, held, b);
        let r = unheld(init, held);
        if resolved.contains(b) && !held.contains(b) {
            let k = choose|k: int| 0 <= k < resolved.len() && resolved[k] == b;
            if k < resolved.len() - 1 {
                assert(init[k] == b);
            }
        }
        if init.contains(b) {
            let k = choose|k: int| 0 <= k < init.len() && init[k] == b;
            assert(resolved[k] == b);
        }
        if !held.contains(resolved.last()) {
            let rr = r.push(resolved.last());
            if rr.contains(b) && !r.contains(b) {
                let k = choose|k: int| 0 <= k < rr.len() && rr[k] == b;
                if k < r.len() {
                    assert(r[k] == b);
                }
            }
            if r.contains(b) {
                let k = choose|k: int| 0 <= k < r.len() && r[k] == b;
                assert(rr[k] == b);
            }
            if b == resolved.last() {
                assert(rr[r.len() as int] == b);
            }
        }
    }
}

} // verus!
