//! Expanding the chosen combinations into the tasks of a new batch: every
//! reference image attached to a prompt group is combined with each active
//! prompt of the group, and each combination is generated `draws` times.

use vstd::prelude::*;

use crate::engine::keys::RefMapping;
use crate::error::AppError;
use crate::text::{chars_of, string_of};

verus! {

/// A mapping together with the active prompts of its group, in the order
/// the group lists them: `(prompt id, prompt text)`.
pub struct MappingPrompts {
    pub mapping: RefMapping,
    pub prompts: Vec<(i64, String)>,
}

/// One task of the batch to create.
pub struct PlannedTask {
    pub ref_image_id: i64,
    pub prompt_id: i64,
    /// the prompt text as it is when the batch is created
    pub snapshot: String,
    /// 1-based draw number, which keeps output names of one combination apart
    pub draw_index: i64,
}

/// What creating the batch writes.
pub struct BatchPlan {
    /// draws per combination, clamped to `1..=5`
    pub draws: i64,
    pub tasks: Vec<PlannedTask>,
    /// the reference images used, ascending, each once
    pub ref_ids: Vec<i64>,
    /// the prompt groups used, ascending, each once
    pub group_ids: Vec<i64>,
    pub task_count: i64,
}

/// A combination: `(reference image, prompt id, prompt text)`.
pub type Combo = (i64, i64, Seq<char>);

/// A task as values: `(reference image, prompt id, text, draw)`.
pub type TaskV = (i64, i64, Seq<char>, i64);

/// The combinations of one mapping.
pub open spec fn mapping_combos(m: RefMapping, prompts: Seq<(i64, String)>) -> Seq<Combo> {
    prompts.map_values(|p: (i64, String)| (m.ref_image_id, p.0, p.1@))
}

/// All combinations, mapping by mapping, prompt by prompt.
pub open spec fn combos_of(groups: Seq<MappingPrompts>) -> Seq<Combo>
    decreases groups.len(),
{
    if groups.len() == 0 {
        Seq::empty()
    } else {
        combos_of(groups.drop_last()) + mapping_combos(
            groups.last().mapping,
            groups.last().prompts@,
        )
    }
}

/// The `draws` tasks of one combination, draws `1..=draws`.
pub open spec fn draws_of(c: Combo, draws: int) -> Seq<TaskV> {
    Seq::new(draws as nat, |d: int| (c.0, c.1, c.2, (d + 1) as i64))
}

/// Each combination expanded into its draws, in order.
pub open spec fn expand(combos: Seq<Combo>, draws: int) -> Seq<TaskV>
    decreases combos.len(),
{
    if combos.len() == 0 {
        Seq::empty()
    } else {
        expand(combos.drop_last(), draws) + draws_of(combos.last(), draws)
    }
}

/// `draws` clamped to `1..=5`.
pub open spec fn clamp_draws(draws: i64) -> i64 {
    if draws < 1 {
        1
    } else if draws > 5 {
        5
    } else {
        draws
    }
}

/// Strictly ascending.
pub open spec fn strictly_ascending(s: Seq<i64>) -> bool {
    forall|a: int, b: int| 0 <= a < b < s.len() ==> s[a] < s[b]
}

/// Same members.
pub open spec fn same_members(a: Seq<i64>, b: Seq<i64>) -> bool {
    forall|x: i64| a.contains(x) <==> b.contains(x)
}

/// The view of a planned task.
pub open spec fn task_view(t: PlannedTask) -> TaskV {
    (t.ref_image_id, t.prompt_id, t.snapshot@, t.draw_index)
}

/// The message of a batch without any task.
pub open spec fn empty_batch_message() -> Seq<char> {
    "所选组合展开后无任务（提示词组为空？）"@
}

/// Whether `p` is the plan for `groups` and `draws`: draws clamped, every
/// combination expanded into its draws, the reference images and groups of
/// the mappings listed ascending without repeats, and the task count.
pub open spec fn plan_is(p: BatchPlan, groups: Seq<MappingPrompts>, draws: i64) -> bool {
    let d = clamp_draws(draws);
    &&& p.draws == d
    &&& p.tasks@.map_values(|t: PlannedTask| task_view(t)) == expand(combos_of(groups), d as int)
    &&& strictly_ascending(p.ref_ids@)
    &&& same_members(p.ref_ids@, groups.map_values(|g: MappingPrompts| g.mapping.ref_image_id))
    &&& strictly_ascending(p.group_ids@)
    &&& same_members(
        p.group_ids@,
        groups.map_values(|g: MappingPrompts| g.mapping.prompt_group_id),
    )
    &&& p.task_count == combos_of(groups).len() * d
}

proof fn lemma_expand_len(combos: Seq<Combo>, draws: int)
    requires
        draws >= 0,
    ensures
        expand(combos, draws).len() == combos.len() * draws,
    decreases combos.len(),
{
    if combos.len() > 0 {
        lemma_expand_len(combos.drop_last(), draws);
        assert((combos.len() - 1) * draws + draws == combos.len() * draws) by (nonlinear_arith);
    }
}

/// The expanded task list holds, for each combination in order, its draws
/// `1..=draws`: the task at `c * draws + (d - 1)` is combination `c`, draw
/// `d`. So the list has `combinations × draws` tasks and no two tasks share
/// a combination and a draw.
pub proof fn law_expansion_is_combinations_times_draws(combos: Seq<Combo>, draws: int, c: int, d: int)
    requires
        1 <= draws <= 5,
        0 <= c < combos.len(),
        1 <= d <= draws,
    ensures
        expand(combos, draws).len() == combos.len() * draws,
        c * draws + (d - 1) < combos.len() * draws,
        expand(combos, draws)[c * draws + (d - 1)] == (combos[c].0, combos[c].1, combos[c].2, d as i64),
    decreases combos.len(),
{
    lemma_expand_len(combos, draws);
    let n = combos.len();
    lemma_expand_len(combos.drop_last(), draws);
    assert(c * draws + (d - 1) < n * draws) by (nonlinear_arith)
        requires
            0 <= c < n,
            1 <= d <= draws,
    ;
    if c < n - 1 {
        law_expansion_is_combinations_times_draws(combos.drop_last(), draws, c, d);
        assert(c * draws + (d - 1) < (n - 1) * draws) by (nonlinear_arith)
            requires
                0 <= c < n - 1,
                1 <= d <= draws,
        ;
    } else {
        assert(c * draws == (n - 1) * draws);
    }
}

fn clamp_draw_count(draws: i64) -> (r: i64)
    ensures
        r == clamp_draws(draws),
{
    if draws < 1 {
        1
    } else if draws > 5 {
        5
    } else {
        draws
    }
}

/// Inserts `x` into the strictly ascending `out`, unless it is there.
fn insert_unique(out: &mut Vec<i64>, x: i64)
    requires
        strictly_ascending(old(out)@),
    ensures
        strictly_ascending(final(out)@),
        forall|y: i64| final(out)@.contains(y) <==> (old(out)@.contains(y) || y == x),
{
    let mut p: usize = 0;
    while p < out.len() && out[p] < x
        invariant
            p <= out@.len(),
            forall|j: int| 0 <= j < p ==> out@[j] < x,
        decreases out@.len() - p,
    {
        p += 1;
    }
    if p < out.len() && out[p] == x {
        assert(out@[p as int] == x);
        assert(out@.contains(x));
        return;
    }
    let ghost o0 = out@;
    out.insert(p, x);
    proof {
        assert(out@ =~= o0.insert(p as int, x));
        assert forall|a: int, b: int| 0 <= a < b < out@.len() implies out@[a] < out@[b] by {
            if b < p {
            } else if a < p && b == p {
            } else if a < p && b > p {
                assert(o0[a] < o0[b - 1]);
            } else if a == p {
                assert(o0[p as int] > x);
                if b - 1 > p {
                    assert(o0[p as int] < o0[b - 1]);
                }
            } else {
                assert(o0[a - 1] < o0[b - 1]);
            }
        }
        assert forall|y: i64| out@.contains(y) <==> (o0.contains(y) || y == x) by {
            if out@.contains(y) {
                let i = choose|i: int| 0 <= i < out@.len() && out@[i] == y;
                if i < p {
                    assert(o0[i] == y);
                } else if i > p {
                    assert(o0[i - 1] == y);
                }
            }
            if o0.contains(y) {
                let i = choose|i: int| 0 <= i < o0.len() && o0[i] == y;
                if i < p {
                    assert(out@[i] == y);
                } else {
                    assert(out@[i + 1] == y);
                }
            }
            if y == x {
                assert(out@[p as int] == x);
                assert(out@.contains(x));
            }
        }
        assert(o0 == old(out)@);
        assert(forall|y: i64| out@.contains(y) <==> (old(out)@.contains(y) || y == x));
    }
}

fn copy_text(s: &String) -> (r: String)
    ensures
        r@ == s@,
{
    let v = chars_of(s.as_str());
    string_of(v.as_slice())
}

/// The message of a batch without any task.
fn empty_batch_text() -> (r: String)
    ensures
        r@ == empty_batch_message(),
{
    let v = chars_of("所选组合展开后无任务（提示词组为空？）");
    string_of(v.as_slice())
}

/// Plans the batch for the chosen mappings, each with the active prompts of
/// its group, and `draws` (clamped to `1..=5`) tasks per combination; an
/// `InvalidInput` error when the combinations come out empty (the groups
/// hold no active prompt).
pub fn plan_batch(groups: &[MappingPrompts], draws: i64) -> (r: Result<BatchPlan, AppError>)
    requires
        combos_of(groups@).len() * 5 <= i64::MAX,
    ensures
        combos_of(groups@).len() == 0 <==> r is Err,
        r matches Err(e) ==> (e matches AppError::InvalidInput(m) && m@ == empty_batch_message()),
        r matches Ok(p) ==> plan_is(p, groups@, draws),
{
    let d = clamp_draw_count(draws);
    let mut tasks: Vec<PlannedTask> = Vec::new();
    let mut ref_ids: Vec<i64> = Vec::new();
    let mut group_ids: Vec<i64> = Vec::new();
    let ghost mut combos: Seq<Combo> = Seq::empty();
    let mut g: usize = 0;
    while g < groups.len()
        invariant
            g <= groups@.len(),
            1 <= d <= 5,
            combos == combos_of(groups@.take(g as int)),
            tasks@.map_values(|t: PlannedTask| task_view(t)) == expand(combos, d as int),
            strictly_ascending(ref_ids@),
            same_members(
                ref_ids@,
                groups@.take(g as int).map_values(|x: MappingPrompts| x.mapping.ref_image_id),
            ),
            strictly_ascending(group_ids@),
            same_members(
                group_ids@,
                groups@.take(g as int).map_values(|x: MappingPrompts| x.mapping.prompt_group_id),
            ),
        decreases groups@.len() - g,
    {
        let m = groups[g].mapping;
        let prompts = &groups[g].prompts;
        let ghost before = groups@.take(g as int);
        let ghost after = groups@.take(g + 1);
        assert(after.drop_last() =~= before);
        assert(after.last() == groups@[g as int]);
        let mut i: usize = 0;
        while i < prompts.len()
            invariant
                i <= prompts@.len(),
                1 <= d <= 5,
                prompts@ == groups@[g as int].prompts@,
                m == groups@[g as int].mapping,
                tasks@.map_values(|t: PlannedTask| task_view(t)) == expand(
                    combos + mapping_combos(m, prompts@.take(i as int)),
                    d as int,
                ),
            decreases prompts@.len() - i,
        {
            let ghost cs0 = combos + mapping_combos(m, prompts@.take(i as int));
            let ghost cs1 = combos + mapping_combos(m, prompts@.take(i + 1));
            assert(cs1.drop_last() =~= cs0);
            let ghost c = cs1.last();
            let pid = prompts[i].0;
            let mut k: i64 = 1;
            while k <= d
                invariant
                    1 <= k <= d + 1,
                    1 <= d <= 5,
                    i < prompts@.len(),
                    c == (m.ref_image_id, pid, prompts@[i as int].1@),
                    tasks@.map_values(|t: PlannedTask| task_view(t)) == expand(cs0, d as int)
                        + draws_of(c, d as int).take(k - 1),
                decreases d + 1 - k,
            {
                let snapshot = copy_text(&prompts[i].1);
                let ghost t0 = tasks@.map_values(|t: PlannedTask| task_view(t));
                tasks.push(PlannedTask { ref_image_id: m.ref_image_id, prompt_id: pid, snapshot, draw_index: k });
                assert(tasks@.map_values(|t: PlannedTask| task_view(t)) =~= t0.push(
                    (m.ref_image_id, pid, prompts@[i as int].1@, k),
                ));
                assert(draws_of(c, d as int).take(k as int) =~= draws_of(c, d as int).take(k - 1).push(
                    (m.ref_image_id, pid, prompts@[i as int].1@, k),
                ));
                k += 1;
            }
            assert(draws_of(c, d as int).take(d as int) =~= draws_of(c, d as int));
            i += 1;
        }
        assert(prompts@.take(prompts@.len() as int) =~= prompts@);
        assert(combos_of(after) =~= combos + mapping_combos(m, prompts@));
        proof {
            combos = combos + mapping_combos(m, prompts@);
        }
        let ghost r0 = ref_ids@;
        insert_unique(&mut ref_ids, m.ref_image_id);
        let ghost g0 = group_ids@;
        insert_unique(&mut group_ids, m.prompt_group_id);
        proof {
            let f = |x: MappingPrompts| x.mapping.ref_image_id;
            let h = |x: MappingPrompts| x.mapping.prompt_group_id;
            assert(after.map_values(f) =~= before.map_values(f).push(m.ref_image_id));
            assert(after.map_values(h) =~= before.map_values(h).push(m.prompt_group_id));
            assert forall|y: i64| ref_ids@.contains(y) <==> after.map_values(f).contains(y) by {
                if after.map_values(f).contains(y) {
                    let j = choose|j: int| 0 <= j < after.map_values(f).len() && after.map_values(f)[j] == y;
                    if j < before.len() {
                        assert(before.map_values(f)[j] == y);
                    }
                }
                if before.map_values(f).contains(y) {
                    let j = choose|j: int| 0 <= j < before.map_values(f).len() && before.map_values(f)[j] == y;
                    assert(after.map_values(f)[j] == y);
                }
                if y == m.ref_image_id {
                    assert(after.map_values(f)[before.len() as int] == y);
                }
            }
            assert forall|y: i64| group_ids@.contains(y) <==> after.map_values(h).contains(y) by {
                if after.map_values(h).contains(y) {
                    let j = choose|j: int| 0 <= j < after.map_values(h).len() && after.map_values(h)[j] == y;
                    if j < before.len() {
                        assert(before.map_values(h)[j] == y);
                    }
                }
                if before.map_values(h).contains(y) {
                    let j = choose|j: int| 0 <= j < before.map_values(h).len() && before.map_values(h)[j] == y;
                    assert(after.map_values(h)[j] == y);
                }
                if y == m.prompt_group_id {
                    assert(after.map_values(h)[before.len() as int] == y);
                }
            }
        }
        g += 1;
    }
    assert(groups@.take(groups@.len() as int) =~= groups@);
    proof {
        lemma_expand_len(combos, d as int);
    }
    if tasks.len() == 0 {
        assert(combos.len() * d == 0);
        assert(combos.len() == 0) by (nonlinear_arith)
            requires
                combos.len() * d == 0,
                d >= 1,
        ;
        return Err(AppError::InvalidInput(empty_batch_text()));
    }
    assert(combos.len() != 0);
    assert(tasks@.len() == tasks@.map_values(|t: PlannedTask| task_view(t)).len());
    assert(combos.len() * d <= combos.len() * 5) by (nonlinear_arith)
        requires
            d <= 5,
    ;
    let task_count = tasks.len() as i64;
    Ok(BatchPlan { draws: d, tasks, ref_ids, group_ids, task_count })
}

} // verus!
