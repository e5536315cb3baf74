//! Properties of document parsing that hold for every input.

use vstd::prelude::*;
use crate::importer::model::{
    doc_lines, doc_scale, finish, has_explicit_marker, initial_state, insert_by_line, keep_nonempty,
    new_group, default_group_name, parse_document, parse_from, push_current, salvage, salvage_from, start_group,
    step, warn_dangling, GroupOrigin, GroupV, ParseState, PromptV, WarnV,
};
use crate::text::{
    is_ws, lemma_trim_end_prefix, lemma_trim_start_suffix, numbered_pieces, split_on, trim_start,
    SepKind,
};
use crate::importer::model::{ensure_group, in_group_head};
use crate::importer::stem::lemma_trim_start_prefix_ws;
use crate::importer::syntax::{colon_index, group_header, header, key_value, strip_kw};
use crate::importer::prompt_total;

verus! {

/// Number of groups inferred from line shapes that govern no prompt.
pub open spec fn empty_inferred(gs: Seq<GroupV>) -> nat
    decreases gs.len(),
{
    if gs.len() == 0 {
        0
    } else {
        empty_inferred(gs.drop_last()) + if gs.last().origin == GroupOrigin::Inferred
            && gs.last().prompts.len() == 0 {
            1nat
        } else {
            0nat
        }
    }
}

proof fn lemma_total_concat(a: Seq<GroupV>, b: Seq<GroupV>)
    ensures
        prompt_total(a + b) == prompt_total(a) + prompt_total(b),
        empty_inferred(a + b) == empty_inferred(a) + empty_inferred(b),
    decreases b.len(),
{
    if b.len() == 0 {
        assert(a + b =~= a);
    } else {
        lemma_total_concat(a, b.drop_last());
        assert((a + b).drop_last() =~= a + b.drop_last());
    }
}

proof fn lemma_total_single(g: GroupV)
    ensures
        prompt_total(seq![g]) == g.prompts.len(),
        empty_inferred(seq![g]) == if g.origin == GroupOrigin::Inferred && g.prompts.len() == 0 {
            1nat
        } else {
            0nat
        },
{
    let s = seq![g];
    assert(s.drop_last() =~= Seq::<GroupV>::empty());
    assert(s.last() == g);
    assert(prompt_total(s.drop_last()) == 0);
    assert(empty_inferred(s.drop_last()) == 0);
}

proof fn lemma_salvage_from_total(
    gs: Seq<GroupV>,
    i: nat,
    orphans: Seq<PromptV>,
    kept: Seq<GroupV>,
)
    requires
        i <= gs.len(),
    ensures
        ({
            let r = salvage_from(gs, i, orphans, kept);
            r.0.len() + prompt_total(r.1) == orphans.len() + prompt_total(kept) + prompt_total(
                gs.skip(i as int),
            ) + empty_inferred(gs.skip(i as int))
        }),
    decreases gs.len() - i,
{
    if i < gs.len() {
        let g = gs[i as int];
        assert(gs.skip(i as int) =~= seq![g] + gs.skip(i + 1 as int));
        lemma_total_concat(seq![g], gs.skip(i + 1 as int));
        lemma_total_single(g);
        if g.origin == GroupOrigin::Inferred && g.prompts.len() == 0 {
            lemma_salvage_from_total(
                gs,
                i + 1,
                orphans.push(PromptV { title: None, text: g.name }),
                kept,
            );
        } else {
            let g2 = if orphans.len() > 0 {
                GroupV { prompts: orphans + g.prompts, ..g }
            } else {
                g
            };
            lemma_salvage_from_total(gs, i + 1, seq![], kept.push(g2));
            lemma_total_concat(kept, seq![g2]);
            lemma_total_single(g2);
            assert(kept.push(g2) =~= kept + seq![g2]);
        }
    } else {
        assert(gs.skip(i as int) =~= Seq::<GroupV>::empty());
    }
}

/// The closing pass never loses content: every prompt survives, and every
/// inferred group that governed no prompt comes back as one prompt.
pub proof fn law_salvage_keeps_every_prompt(gs: Seq<GroupV>)
    ensures
        prompt_total(keep_nonempty(salvage(gs))) == prompt_total(gs) + empty_inferred(gs),
{
    lemma_salvage_from_total(gs, 0, seq![], seq![]);
    assert(gs.skip(0) =~= gs);
    let r = salvage_from(gs, 0, seq![], seq![]);
    let kept = r.1;
    let orphans = r.0;
    if orphans.len() > 0 {
        if kept.len() > 0 {
            let last = kept.last();
            let nl = GroupV { prompts: last.prompts + orphans, ..last };
            assert(kept.update(kept.len() - 1, nl) =~= kept.drop_last() + seq![nl]);
            assert(kept =~= kept.drop_last() + seq![last]);
            lemma_total_concat(kept.drop_last(), seq![nl]);
            lemma_total_concat(kept.drop_last(), seq![last]);
            lemma_total_single(nl);
            lemma_total_single(last);
        } else {
            let g = GroupV {
                prompts: orphans,
                ..new_group(default_group_name(), GroupOrigin::Fallback)
            };
            lemma_total_single(g);
        }
    }
    lemma_keep_nonempty_total(salvage(gs));
}

proof fn lemma_keep_nonempty_total(gs: Seq<GroupV>)
    ensures
        prompt_total(keep_nonempty(gs)) == prompt_total(gs),
    decreases gs.len(),
{
    if gs.len() > 0 {
        lemma_keep_nonempty_total(gs.drop_last());
        let tail = if gs.last().prompts.len() > 0 {
            seq![gs.last()]
        } else {
            Seq::<GroupV>::empty()
        };
        lemma_total_concat(keep_nonempty(gs.drop_last()), tail);
        if gs.last().prompts.len() > 0 {
            lemma_total_single(gs.last());
        }
    }
}

proof fn lemma_keep_nonempty_all(gs: Seq<GroupV>)
    ensures
        forall|k: int|
            0 <= k < keep_nonempty(gs).len() ==> #[trigger] keep_nonempty(gs)[k].prompts.len()
                > 0,
        forall|k: int|
            0 <= k < keep_nonempty(gs).len() ==> exists|j: int|
                0 <= j < gs.len() && gs[j] == #[trigger] keep_nonempty(gs)[k],
    decreases gs.len(),
{
    if gs.len() > 0 {
        lemma_keep_nonempty_all(gs.drop_last());
        let a = keep_nonempty(gs.drop_last());
        assert forall|k: int|
            0 <= k < keep_nonempty(gs).len() implies exists|j: int|
                0 <= j < gs.len() && gs[j] == #[trigger] keep_nonempty(gs)[k] by {
            if k < a.len() {
                let j = choose|j: int| 0 <= j < gs.drop_last().len() && gs.drop_last()[j] == a[k];
                assert(gs[j] == gs.drop_last()[j]);
            } else {
                assert(gs[gs.len() - 1] == keep_nonempty(gs)[k]);
            }
        }
    }
}

/// Every group of a parsed document holds at least one prompt.
pub proof fn law_groups_are_never_empty(text: Seq<char>)
    ensures
        forall|k: int|
            0 <= k < parse_document(text).0.len() ==> #[trigger] parse_document(text).0[k].prompts.len()
                > 0,
{
    let lines = doc_lines(text);
    let st = parse_from(lines, doc_scale(lines), 0, initial_state());
    lemma_keep_nonempty_all(salvage(push_current(st.groups, st.cur)));
}

/// No group or current group is an inferred one.
pub open spec fn no_inferred(st: ParseState) -> bool {
    &&& forall|k: int|
        0 <= k < st.groups.len() ==> #[trigger] st.groups[k].origin != GroupOrigin::Inferred
    &&& (st.cur matches Some(g) ==> g.origin != GroupOrigin::Inferred)
}

proof fn lemma_step_no_inferred(lines: Seq<(nat, Seq<char>)>, i: nat, st: ParseState)
    requires
        i < lines.len(),
        no_inferred(st),
    ensures
        no_inferred(step(lines, None, i, st)),
{
}

proof fn lemma_parse_from_no_inferred(lines: Seq<(nat, Seq<char>)>, i: nat, st: ParseState)
    requires
        no_inferred(st),
    ensures
        no_inferred(parse_from(lines, None, i, st)),
    decreases lines.len() - i,
{
    if i < lines.len() {
        lemma_step_no_inferred(lines, i, st);
        lemma_parse_from_no_inferred(lines, i + 1, step(lines, None, i, st));
    }
}

proof fn lemma_salvage_from_origins(
    gs: Seq<GroupV>,
    i: nat,
    orphans: Seq<PromptV>,
    kept: Seq<GroupV>,
)
    requires
        forall|k: int| 0 <= k < gs.len() ==> #[trigger] gs[k].origin != GroupOrigin::Inferred,
        forall|k: int| 0 <= k < kept.len() ==> #[trigger] kept[k].origin != GroupOrigin::Inferred,
    ensures
        forall|k: int|
            0 <= k < salvage_from(gs, i, orphans, kept).1.len() ==> #[trigger] salvage_from(
                gs,
                i,
                orphans,
                kept,
            ).1[k].origin != GroupOrigin::Inferred,
    decreases gs.len() - i,
{
    if i < gs.len() {
        let g = gs[i as int];
        if g.origin == GroupOrigin::Inferred && g.prompts.len() == 0 {
        } else {
            let g2 = if orphans.len() > 0 {
                GroupV { prompts: orphans + g.prompts, ..g }
            } else {
                g
            };
            lemma_salvage_from_origins(gs, i + 1, seq![], kept.push(g2));
        }
    }
}

/// A document that marks any group explicitly is taken at its word: no
/// group is ever inferred from line shapes.
pub proof fn law_explicit_marker_disables_inference(text: Seq<char>)
    requires
        has_explicit_marker(doc_lines(text)),
    ensures
        forall|k: int|
            0 <= k < parse_document(text).0.len() ==> #[trigger] parse_document(text).0[k].origin
                != GroupOrigin::Inferred,
{
    let lines = doc_lines(text);
    let st = parse_from(lines, None, 0, initial_state());
    lemma_parse_from_no_inferred(lines, 0, initial_state());
    let gs = push_current(st.groups, st.cur);
    lemma_salvage_from_origins(gs, 0, seq![], seq![]);
    let s = salvage(gs);
    assert forall|k: int| 0 <= k < s.len() implies #[trigger] s[k].origin
        != GroupOrigin::Inferred by {
        let r = salvage_from(gs, 0, seq![], seq![]);
        if r.0.len() > 0 && r.1.len() > 0 {
            assert(s[k].origin == r.1[k].origin);
        }
    }
    lemma_keep_nonempty_all(s);
    assert forall|k: int| 0 <= k < keep_nonempty(s).len() implies #[trigger] keep_nonempty(
        s,
    )[k].origin != GroupOrigin::Inferred by {
        let j = choose|j: int| 0 <= j < s.len() && s[j] == keep_nonempty(s)[k];
    }
}

/// Warnings ordered by line.
pub open spec fn lines_in_order(ws: Seq<WarnV>) -> bool {
    forall|a: int, b: int| 0 <= a < b < ws.len() ==> ws[a].line <= ws[b].line
}

/// Line numbers strictly increasing.
pub open spec fn numbers_increasing(lines: Seq<(nat, Seq<char>)>) -> bool {
    forall|a: int, b: int| 0 <= a < b < lines.len() ==> lines[a].0 < lines[b].0
}

proof fn lemma_numbered_increasing(p: Seq<Seq<char>>)
    ensures
        numbers_increasing(numbered_pieces(p)),
        forall|k: int|
            0 <= k < numbered_pieces(p).len() ==> #[trigger] numbered_pieces(p)[k].0 <= p.len(),
    decreases p.len(),
{
    if p.len() > 0 {
        lemma_numbered_increasing(p.drop_last());
        let r = numbered_pieces(p.drop_last());
        assert forall|k: int| 0 <= k < r.len() implies #[trigger] r[k].0 < p.len() by {
        }
    }
}

/// Warnings in order, none after line `b`, and none after a pending title.
pub open spec fn warn_inv(st: ParseState, b: nat) -> bool {
    &&& lines_in_order(st.warnings)
    &&& forall|k: int| 0 <= k < st.warnings.len() ==> #[trigger] st.warnings[k].line <= b
    &&& st.pending matches Some(p) ==> (p.1 <= b && forall|k: int|
        0 <= k < st.warnings.len() ==> #[trigger] st.warnings[k].line <= p.1)
}

proof fn lemma_step_shape(lines: Seq<(nat, Seq<char>)>, scale: Option<nat>, i: nat, st: ParseState)
    requires
        i < lines.len(),
    ensures
        ({
            let s2 = step(lines, scale, i, st);
            ||| (s2.warnings == st.warnings && (s2.pending == st.pending || s2.pending is None))
            ||| (s2.warnings == warn_dangling(st.warnings, st.pending) && match s2.pending {
                Some(p) => p.1 == lines[i as int].0,
                None => true,
            })
        }),
{
}

proof fn lemma_warn_dangling_keeps_order(st: ParseState, b: nat, b2: nat)
    requires
        warn_inv(st, b),
        b < b2,
    ensures
        lines_in_order(warn_dangling(st.warnings, st.pending)),
        forall|k: int|
            0 <= k < warn_dangling(st.warnings, st.pending).len() ==> #[trigger] warn_dangling(
                st.warnings,
                st.pending,
            )[k].line < b2,
{
    let ws = warn_dangling(st.warnings, st.pending);
    if st.pending is Some {
        assert forall|a: int, c: int| 0 <= a < c < ws.len() implies ws[a].line <= ws[c].line by {
            if c < st.warnings.len() {
                assert(ws[a] == st.warnings[a] && ws[c] == st.warnings[c]);
            } else {
                assert(ws[a] == st.warnings[a]);
            }
        }
        assert forall|k: int| 0 <= k < ws.len() implies #[trigger] ws[k].line < b2 by {
            if k < st.warnings.len() {
                assert(ws[k] == st.warnings[k]);
            }
        }
    } else {
        assert forall|k: int| 0 <= k < ws.len() implies #[trigger] ws[k].line < b2 by {
            assert(ws[k] == st.warnings[k]);
        }
    }
}

proof fn lemma_parse_from_in_order(
    lines: Seq<(nat, Seq<char>)>,
    scale: Option<nat>,
    i: nat,
    st: ParseState,
    b: nat,
)
    requires
        numbers_increasing(lines),
        i <= lines.len(),
        warn_inv(st, b),
        i < lines.len() ==> b < lines[i as int].0,
    ensures
        ({
            let r = parse_from(lines, scale, i, st);
            &&& lines_in_order(r.warnings)
            &&& r.pending matches Some(p) ==> forall|k: int|
                0 <= k < r.warnings.len() ==> #[trigger] r.warnings[k].line <= p.1
        }),
    decreases lines.len() - i,
{
    if i < lines.len() {
        let s2 = step(lines, scale, i, st);
        let b2 = lines[i as int].0;
        lemma_step_shape(lines, scale, i, st);
        lemma_warn_dangling_keeps_order(st, b, b2);
        assert(warn_inv(s2, b2));
        if i + 1 < lines.len() {
            assert(b2 < lines[i + 1 as int].0);
        }
        lemma_parse_from_in_order(lines, scale, i + 1, s2, b2);
    }
}

proof fn lemma_insert_by_line(ws: Seq<WarnV>, w: WarnV, m: nat)
    requires
        lines_in_order(ws),
    ensures
        lines_in_order(insert_by_line(ws, w)),
        insert_by_line(ws, w).len() == ws.len() + 1,
        (w.line <= m && forall|k: int| 0 <= k < ws.len() ==> #[trigger] ws[k].line <= m) ==> forall|
            k: int,
        |
            0 <= k < insert_by_line(ws, w).len() ==> #[trigger] insert_by_line(ws, w)[k].line <= m,
    decreases ws.len(),
{
    if ws.len() > 0 && ws.last().line > w.line {
        let init = ws.drop_last();
        let l = ws.last();
        assert(lines_in_order(init)) by {
            assert forall|a: int, c: int| 0 <= a < c < init.len() implies init[a].line
                <= init[c].line by {
                assert(init[a] == ws[a] && init[c] == ws[c]);
            }
        }
        lemma_insert_by_line(init, w, l.line);
        assert forall|k: int| 0 <= k < init.len() implies #[trigger] init[k].line <= l.line by {
            assert(init[k] == ws[k]);
        }
        lemma_insert_by_line(init, w, m);
        if w.line <= m && forall|k: int| 0 <= k < ws.len() ==> #[trigger] ws[k].line <= m {
            assert forall|k: int| 0 <= k < init.len() implies #[trigger] init[k].line <= m by {
                assert(init[k] == ws[k]);
            }
        }
    } else if ws.len() > 0 {
        assert forall|a: int, c: int|
            0 <= a < c < ws.push(w).len() implies ws.push(w)[a].line <= ws.push(w)[c].line by {
            if c == ws.len() {
                assert(ws[a].line <= ws[ws.len() - 1].line);
            }
        }
    }
}

/// Warnings come out ordered by line number.
pub proof fn law_warnings_in_line_order(text: Seq<char>)
    ensures
        lines_in_order(parse_document(text).1),
{
    let lines = doc_lines(text);
    lemma_numbered_increasing(split_on(text, SepKind::Line));
    let st = parse_from(lines, doc_scale(lines), 0, initial_state());
    if lines.len() > 0 {
        assert(lines[0].0 >= 1) by {
            lemma_numbered_ge_one(split_on(text, SepKind::Line));
        }
    }
    lemma_parse_from_in_order(lines, doc_scale(lines), 0, initial_state(), 0);
    let ws = warn_dangling(st.warnings, st.pending);
    assert(lines_in_order(ws)) by {
        if st.pending is Some {
            assert forall|a: int, c: int| 0 <= a < c < ws.len() implies ws[a].line <= ws[c].line by {
                if c < st.warnings.len() {
                    assert(ws[a] == st.warnings[a] && ws[c] == st.warnings[c]);
                } else {
                    assert(ws[a] == st.warnings[a]);
                }
            }
        }
    }
    if st.orphan is Some {
        lemma_insert_by_line(ws, st.orphan->0, 0);
    }
}

proof fn lemma_numbered_ge_one(p: Seq<Seq<char>>)
    ensures
        forall|k: int| 0 <= k < numbered_pieces(p).len() ==> #[trigger] numbered_pieces(p)[k].0 >= 1,
    decreases p.len(),
{
    if p.len() > 0 {
        lemma_numbered_ge_one(p.drop_last());
        let r = numbered_pieces(p.drop_last());
        let np = numbered_pieces(p);
        assert forall|k: int| 0 <= k < np.len() implies #[trigger] np[k].0 >= 1 by {
            if k < r.len() {
                assert(np[k] == r[k]);
            }
        }
    }
}

/// Every line of the document is numbered from 1 and is not empty.
pub open spec fn lines_ok(lines: Seq<(nat, Seq<char>)>) -> bool {
    forall|k: int| 0 <= k < lines.len() ==> #[trigger] lines[k].0 >= 1 && lines[k].1.len() > 0
}

proof fn lemma_doc_lines_ok(p: Seq<Seq<char>>)
    ensures
        lines_ok(numbered_pieces(p)),
    decreases p.len(),
{
    if p.len() > 0 {
        lemma_doc_lines_ok(p.drop_last());
        let r = numbered_pieces(p.drop_last());
        let np = numbered_pieces(p);
        assert forall|k: int| 0 <= k < np.len() implies #[trigger] np[k].0 >= 1 && np[k].1.len()
            > 0 by {
            if k < r.len() {
                assert(np[k] == r[k]);
            }
        }
    }
}

/// Every warning, pending title and orphan notice carries a line from 1 on.
pub open spec fn lines_positive(st: ParseState) -> bool {
    &&& forall|k: int| 0 <= k < st.warnings.len() ==> #[trigger] st.warnings[k].line >= 1
    &&& st.pending matches Some(p) ==> p.1 >= 1
    &&& st.orphan matches Some(w) ==> w.line >= 1
}

proof fn lemma_parse_from_lines_positive(
    lines: Seq<(nat, Seq<char>)>,
    scale: Option<nat>,
    i: nat,
    st: ParseState,
)
    requires
        lines_ok(lines),
        lines_positive(st),
    ensures
        lines_positive(parse_from(lines, scale, i, st)),
    decreases lines.len() - i,
{
    if i < lines.len() {
        let s2 = step(lines, scale, i, st);
        assert(lines[i as int].0 >= 1);
        assert(lines_positive(s2));
        lemma_parse_from_lines_positive(lines, scale, i + 1, s2);
    }
}

proof fn lemma_insert_positive(ws: Seq<WarnV>, w: WarnV)
    requires
        w.line >= 1,
        forall|k: int| 0 <= k < ws.len() ==> #[trigger] ws[k].line >= 1,
    ensures
        forall|k: int|
            0 <= k < insert_by_line(ws, w).len() ==> #[trigger] insert_by_line(ws, w)[k].line >= 1,
    decreases ws.len(),
{
    if ws.len() > 0 && ws.last().line > w.line {
        let init = ws.drop_last();
        assert forall|k: int| 0 <= k < init.len() implies #[trigger] init[k].line >= 1 by {
            assert(init[k] == ws[k]);
        }
        lemma_insert_positive(init, w);
        let a = insert_by_line(init, w);
        let r = insert_by_line(ws, w);
        assert(r == a.push(ws.last()));
        assert forall|k: int| 0 <= k < r.len() implies #[trigger] r[k].line >= 1 by {
            if k < a.len() {
                assert(r[k] == a[k]);
            } else {
                assert(r[k] == ws[ws.len() - 1]);
            }
        }
    } else if ws.len() > 0 {
        let r = insert_by_line(ws, w);
        assert(r == ws.push(w));
        assert forall|k: int| 0 <= k < r.len() implies #[trigger] r[k].line >= 1 by {
            if k < ws.len() {
                assert(r[k] == ws[k]);
            }
        }
    } else {
        assert(insert_by_line(ws, w) == seq![w]);
    }
}

/// Every warning of a parsed document points at a line, counted from 1.
pub proof fn law_warning_lines_start_at_one(text: Seq<char>)
    ensures
        forall|k: int|
            0 <= k < parse_document(text).1.len() ==> #[trigger] parse_document(text).1[k].line
                >= 1,
{
    let lines = doc_lines(text);
    lemma_doc_lines_ok(split_on(text, SepKind::Line));
    lemma_parse_from_lines_positive(lines, doc_scale(lines), 0, initial_state());
    let st = parse_from(lines, doc_scale(lines), 0, initial_state());
    let ws = warn_dangling(st.warnings, st.pending);
    assert forall|k: int| 0 <= k < ws.len() implies #[trigger] ws[k].line >= 1 by {
        if k < st.warnings.len() {
            assert(ws[k] == st.warnings[k]);
        }
    }
    if st.orphan is Some {
        lemma_insert_positive(ws, st.orphan->0);
    }
}

/// Every group, and the current one, has a name.
pub open spec fn names_present(st: ParseState) -> bool {
    &&& forall|k: int| 0 <= k < st.groups.len() ==> #[trigger] st.groups[k].name.len() > 0
    &&& st.cur matches Some(g) ==> g.name.len() > 0
}

proof fn lemma_default_name_present()
    ensures
        default_group_name().len() > 0,
{
    reveal_strlit("未分组导入");
}

proof fn lemma_step_names(lines: Seq<(nat, Seq<char>)>, scale: Option<nat>, i: nat, st: ParseState)
    requires
        i < lines.len(),
        lines_ok(lines),
        names_present(st),
    ensures
        names_present(step(lines, scale, i, st)),
{
    lemma_default_name_present();
    assert(lines[i as int].1.len() > 0);
    let s2 = step(lines, scale, i, st);
    assert forall|k: int| 0 <= k < s2.groups.len() implies #[trigger] s2.groups[k].name.len()
        > 0 by {
        if k < st.groups.len() {
            assert(s2.groups[k] == st.groups[k]);
        }
    }
}

proof fn lemma_parse_from_names(
    lines: Seq<(nat, Seq<char>)>,
    scale: Option<nat>,
    i: nat,
    st: ParseState,
)
    requires
        lines_ok(lines),
        names_present(st),
    ensures
        names_present(parse_from(lines, scale, i, st)),
    decreases lines.len() - i,
{
    if i < lines.len() {
        lemma_step_names(lines, scale, i, st);
        lemma_parse_from_names(lines, scale, i + 1, step(lines, scale, i, st));
    }
}

proof fn lemma_salvage_from_names(
    gs: Seq<GroupV>,
    i: nat,
    orphans: Seq<PromptV>,
    kept: Seq<GroupV>,
)
    requires
        forall|k: int| 0 <= k < gs.len() ==> #[trigger] gs[k].name.len() > 0,
        forall|k: int| 0 <= k < kept.len() ==> #[trigger] kept[k].name.len() > 0,
    ensures
        forall|k: int|
            0 <= k < salvage_from(gs, i, orphans, kept).1.len() ==> #[trigger] salvage_from(
                gs,
                i,
                orphans,
                kept,
            ).1[k].name.len() > 0,
    decreases gs.len() - i,
{
    if i < gs.len() {
        let g = gs[i as int];
        if g.origin == GroupOrigin::Inferred && g.prompts.len() == 0 {
            lemma_salvage_from_names(
                gs,
                i + 1,
                orphans.push(PromptV { title: None, text: g.name }),
                kept,
            );
        } else {
            let g2 = if orphans.len() > 0 {
                GroupV { prompts: orphans + g.prompts, ..g }
            } else {
                g
            };
            lemma_salvage_from_names(gs, i + 1, seq![], kept.push(g2));
        }
    }
}

/// Every group of a parsed document has a non-empty name.
pub proof fn law_group_names_are_nonempty(text: Seq<char>)
    ensures
        forall|k: int|
            0 <= k < parse_document(text).0.len() ==> #[trigger] parse_document(text).0[k].name.len()
                > 0,
{
    let lines = doc_lines(text);
    lemma_doc_lines_ok(split_on(text, SepKind::Line));
    lemma_parse_from_names(lines, doc_scale(lines), 0, initial_state());
    let st = parse_from(lines, doc_scale(lines), 0, initial_state());
    let gs = push_current(st.groups, st.cur);
    assert forall|k: int| 0 <= k < gs.len() implies #[trigger] gs[k].name.len() > 0 by {
        if k < st.groups.len() {
            assert(gs[k] == st.groups[k]);
        }
    }
    lemma_salvage_from_names(gs, 0, seq![], seq![]);
    lemma_default_name_present();
    let s = salvage(gs);
    assert forall|k: int| 0 <= k < s.len() implies #[trigger] s[k].name.len() > 0 by {
        let r = salvage_from(gs, 0, seq![], seq![]);
        if r.0.len() > 0 && r.1.len() > 0 {
            assert(s[k].name == r.1[k].name);
        }
    }
    lemma_keep_nonempty_all(s);
    assert forall|k: int| 0 <= k < keep_nonempty(s).len() implies #[trigger] keep_nonempty(
        s,
    )[k].name.len() > 0 by {
        let j = choose|j: int| 0 <= j < s.len() && s[j] == keep_nonempty(s)[k];
    }
}

/// The prompts of all groups, in order.
pub open spec fn all_prompts(gs: Seq<GroupV>) -> Seq<PromptV>
    decreases gs.len(),
{
    if gs.len() == 0 {
        seq![]
    } else {
        all_prompts(gs.drop_last()) + gs.last().prompts
    }
}

/// What a group contributes to the closing pass: an inferred group that
/// governs no prompt gives its name as one prompt; any other group its
/// prompts.
pub open spec fn contribution(g: GroupV) -> Seq<PromptV> {
    if g.origin == GroupOrigin::Inferred && g.prompts.len() == 0 {
        seq![PromptV { title: None, text: g.name }]
    } else {
        g.prompts
    }
}

/// The contributions of all groups, in order.
pub open spec fn contributed(gs: Seq<GroupV>) -> Seq<PromptV>
    decreases gs.len(),
{
    if gs.len() == 0 {
        seq![]
    } else {
        contributed(gs.drop_last()) + contribution(gs.last())
    }
}

proof fn lemma_prompts_concat(a: Seq<GroupV>, b: Seq<GroupV>)
    ensures
        all_prompts(a + b) == all_prompts(a) + all_prompts(b),
        contributed(a + b) == contributed(a) + contributed(b),
    decreases b.len(),
{
    if b.len() == 0 {
        assert(a + b =~= a);
        assert(all_prompts(a) + all_prompts(b) =~= all_prompts(a));
        assert(contributed(a) + contributed(b) =~= contributed(a));
    } else {
        lemma_prompts_concat(a, b.drop_last());
        assert((a + b).drop_last() =~= a + b.drop_last());
        assert(all_prompts(a + b) =~= all_prompts(a) + all_prompts(b));
        assert(contributed(a + b) =~= contributed(a) + contributed(b));
    }
}

proof fn lemma_prompts_single(g: GroupV)
    ensures
        all_prompts(seq![g]) == g.prompts,
        contributed(seq![g]) == contribution(g),
{
    let s = seq![g];
    assert(s.drop_last() =~= Seq::<GroupV>::empty());
    assert(s.last() == g);
    assert(all_prompts(s.drop_last()) =~= Seq::<PromptV>::empty());
    assert(contributed(s.drop_last()) =~= Seq::<PromptV>::empty());
    assert(all_prompts(s) =~= g.prompts);
    assert(contributed(s) =~= contribution(g));
}

proof fn lemma_salvage_from_order(gs: Seq<GroupV>, i: nat, orphans: Seq<PromptV>, kept: Seq<GroupV>)
    requires
        i <= gs.len(),
    ensures
        ({
            let r = salvage_from(gs, i, orphans, kept);
            all_prompts(r.1) + r.0 == all_prompts(kept) + orphans + contributed(gs.skip(i as int))
        }),
    decreases gs.len() - i,
{
    if i < gs.len() {
        let g = gs[i as int];
        assert(gs.skip(i as int) =~= seq![g] + gs.skip(i + 1 as int));
        lemma_prompts_concat(seq![g], gs.skip(i + 1 as int));
        lemma_prompts_single(g);
        let rest = contributed(gs.skip(i + 1 as int));
        if g.origin == GroupOrigin::Inferred && g.prompts.len() == 0 {
            let np = PromptV { title: None, text: g.name };
            lemma_salvage_from_order(gs, i + 1, orphans.push(np), kept);
            assert(all_prompts(kept) + orphans.push(np) + rest =~= all_prompts(kept) + orphans + (
            seq![np] + rest));
        } else {
            let g2 = if orphans.len() > 0 {
                GroupV { prompts: orphans + g.prompts, ..g }
            } else {
                g
            };
            assert(g2.prompts =~= orphans + g.prompts);
            lemma_salvage_from_order(gs, i + 1, seq![], kept.push(g2));
            assert(kept.push(g2) =~= kept + seq![g2]);
            lemma_prompts_concat(kept, seq![g2]);
            lemma_prompts_single(g2);
            assert(all_prompts(kept.push(g2)) + Seq::<PromptV>::empty() + rest =~= all_prompts(
                kept,
            ) + orphans + (g.prompts + rest));
        }
    } else {
        assert(gs.skip(i as int) =~= Seq::<GroupV>::empty());
        assert(all_prompts(kept) + orphans + contributed(gs.skip(i as int)) =~= all_prompts(kept)
            + orphans);
    }
}

proof fn lemma_keep_nonempty_prompts(gs: Seq<GroupV>)
    ensures
        all_prompts(keep_nonempty(gs)) == all_prompts(gs),
    decreases gs.len(),
{
    if gs.len() > 0 {
        lemma_keep_nonempty_prompts(gs.drop_last());
        let tail = if gs.last().prompts.len() > 0 {
            seq![gs.last()]
        } else {
            Seq::<GroupV>::empty()
        };
        lemma_prompts_concat(keep_nonempty(gs.drop_last()), tail);
        if gs.last().prompts.len() > 0 {
            lemma_prompts_single(gs.last());
        } else {
            assert(gs.last().prompts =~= Seq::<PromptV>::empty());
            assert(all_prompts(tail) =~= Seq::<PromptV>::empty());
        }
        assert(all_prompts(keep_nonempty(gs)) =~= all_prompts(gs));
    }
}

/// The closing pass keeps the order of the content: read group by group,
/// the prompts of the result are each group's prompts in document order,
/// with every inferred group that governed no prompt giving its name as a
/// prompt in its own place.
pub proof fn law_salvage_keeps_prompt_order(gs: Seq<GroupV>)
    ensures
        all_prompts(keep_nonempty(salvage(gs))) == contributed(gs),
{
    lemma_salvage_from_order(gs, 0, seq![], seq![]);
    assert(gs.skip(0) =~= gs);
    assert(all_prompts(Seq::<GroupV>::empty()) =~= Seq::<PromptV>::empty());
    let r = salvage_from(gs, 0, seq![], seq![]);
    let kept = r.1;
    let orphans = r.0;
    assert(all_prompts(kept) + orphans == contributed(gs)) by {
        assert(Seq::<PromptV>::empty() + Seq::<PromptV>::empty() + contributed(gs) =~= contributed(
            gs,
        ));
    }
    if orphans.len() == 0 {
        assert(all_prompts(kept) + orphans =~= all_prompts(kept));
    } else if kept.len() > 0 {
        let last = kept.last();
        let nl = GroupV { prompts: last.prompts + orphans, ..last };
        assert(kept.update(kept.len() - 1, nl) =~= kept.drop_last() + seq![nl]);
        assert(kept =~= kept.drop_last() + seq![last]);
        lemma_prompts_concat(kept.drop_last(), seq![nl]);
        lemma_prompts_concat(kept.drop_last(), seq![last]);
        lemma_prompts_single(nl);
        lemma_prompts_single(last);
        assert(all_prompts(kept.update(kept.len() - 1, nl)) =~= all_prompts(kept) + orphans);
    } else {
        let g = GroupV {
            prompts: orphans,
            ..new_group(default_group_name(), GroupOrigin::Fallback)
        };
        lemma_prompts_single(g);
        assert(all_prompts(kept) =~= Seq::<PromptV>::empty());
        assert(all_prompts(kept) + orphans =~= orphans);
    }
    lemma_keep_nonempty_prompts(salvage(gs));
}

/// The key of a `key: value` line (empty for any other line).
pub open spec fn line_key(t: Seq<char>) -> Seq<char> {
    match key_value(t) {
        Some(kv) => kv.0,
        None => seq![],
    }
}

/// The value of a `key: value` line (empty for any other line).
pub open spec fn line_value(t: Seq<char>) -> Seq<char> {
    match key_value(t) {
        Some(kv) => kv.1,
        None => seq![],
    }
}

/// The first character of a `key: value` line's key is the line's first
/// character after leading whitespace.
proof fn lemma_key_start(t: Seq<char>)
    requires
        key_value(t) matches Some(kv) && kv.0.len() > 0,
    ensures
        exists|j: int|
            0 <= j < t.len() && t[j] == line_key(t)[0] && forall|x: int|
                0 <= x < j ==> is_ws(#[trigger] t[x]),
{
    let ci = colon_index(t)->0;
    lemma_colon_index(t);
    let s = t.take(ci as int);
    let ts = trim_start(s);
    lemma_trim_start_suffix(s);
    lemma_trim_start_prefix_ws(s);
    lemma_trim_end_prefix(ts);
    let k = line_key(t);
    let j = s.len() - ts.len();
    assert(k[0] == ts[0]);
    assert(ts[0] == s[j]);
    assert(s[j] == t[j]);
    assert forall|x: int| 0 <= x < j implies is_ws(#[trigger] t[x]) by {
        assert(t[x] == s[x]);
    }
}

proof fn lemma_colon_index(s: Seq<char>)
    ensures
        colon_index(s) matches Some(i) ==> i < s.len(),
    decreases s.len(),
{
    if s.len() > 0 && !(s[0] == ':' || s[0] == '：') {
        lemma_colon_index(s.drop_first());
    }
}

/// A line whose key starts with a character other than the group keywords'
/// first characters (`分`, `组`, `g`/`G`) is no group header.
proof fn lemma_not_group_header(t: Seq<char>)
    requires
        key_value(t) matches Some(kv) && kv.0.len() > 0,
        ({
            let c = line_key(t)[0];
            c != '分' && c != '组' && c != 'g' && c != 'G'
        }),
    ensures
        group_header(t) is None,
{
    lemma_key_start(t);
    let c = line_key(t)[0];
    let j = choose|j: int|
        0 <= j < t.len() && t[j] == c && forall|x: int| 0 <= x < j ==> is_ws(#[trigger] t[x]);
    reveal_strlit("分组");
    reveal_strlit("组");
    reveal_strlit("group");
    assert(t[0] != '分' && t[0] != '组' && t[0] != 'g' && t[0] != 'G') by {
        if j > 0 {
            assert(is_ws(t[0]));
        }
    }
    assert(strip_kw(t, "分组"@, false) is None) by {
        if "分组"@.len() <= t.len() {
            assert(!(t[0] == "分组"@[0]));
        }
    }
    assert(strip_kw(t, "组"@, false) is None) by {
        if "组"@.len() <= t.len() {
            assert(!(t[0] == "组"@[0]));
        }
    }
    assert(strip_kw(t, "group"@, true) is None) by {
        if "group"@.len() <= t.len() {
            assert(!(crate::importer::syntax::ascii_lower(t[0]) == "group"@[0]));
        }
    }
}

proof fn lemma_key_literals()
    ensures
        "尺寸"@[0] == '尺',
        "size"@[0] == 's',
        "格式"@[0] == '格',
        "输出格式"@[0] == '输',
        "format"@[0] == 'f',
        "尺寸"@.len() > 0 && "size"@.len() > 0 && "格式"@.len() > 0 && "输出格式"@.len() > 0
            && "format"@.len() > 0,
{
    reveal_strlit("尺寸");
    reveal_strlit("size");
    reveal_strlit("格式");
    reveal_strlit("输出格式");
    reveal_strlit("format");
}

proof fn lemma_literal_shapes()
    ensures
        "前缀"@.len() == 2 && "前缀"@[0] == '前',
        "prefix"@.len() == 6 && "prefix"@[0] == 'p',
        "Prefix"@.len() == 6 && "Prefix"@[0] == 'P',
        "场景"@.len() == 2 && "场景"@[0] == '场',
        "scene"@.len() == 5 && "scene"@[0] == 's',
        "Scene"@.len() == 5 && "Scene"@[0] == 'S',
        "标签"@.len() == 2 && "标签"@[0] == '标',
        "tag"@.len() == 3 && "tag"@[0] == 't',
        "tags"@.len() == 4 && "tags"@[0] == 't',
        "Tags"@.len() == 4 && "Tags"@[0] == 'T',
        "参考图"@.len() == 3 && "参考图"@[0] == '参',
        "参考图片"@.len() == 4 && "参考图片"@[0] == '参',
        "refs"@.len() == 4 && "refs"@[0] == 'r',
        "ref"@.len() == 3 && "ref"@[0] == 'r',
        "images"@.len() == 6 && "images"@[0] == 'i',
        "比例"@.len() == 2 && "比例"@[0] == '比',
        "画幅"@.len() == 2 && "画幅"@[0] == '画',
        "ratio"@.len() == 5 && "ratio"@[0] == 'r',
        "aspect"@.len() == 6 && "aspect"@[0] == 'a',
        "尺寸"@.len() == 2 && "尺寸"@[0] == '尺',
        "size"@.len() == 4 && "size"@[0] == 's',
        "格式"@.len() == 2 && "格式"@[0] == '格',
        "输出格式"@.len() == 4 && "输出格式"@[0] == '输',
        "format"@.len() == 6 && "format"@[0] == 'f',
{
    reveal_strlit("前缀");
    reveal_strlit("prefix");
    reveal_strlit("Prefix");
    reveal_strlit("场景");
    reveal_strlit("scene");
    reveal_strlit("Scene");
    reveal_strlit("标签");
    reveal_strlit("tag");
    reveal_strlit("tags");
    reveal_strlit("Tags");
    reveal_strlit("参考图");
    reveal_strlit("参考图片");
    reveal_strlit("refs");
    reveal_strlit("ref");
    reveal_strlit("images");
    reveal_strlit("比例");
    reveal_strlit("画幅");
    reveal_strlit("ratio");
    reveal_strlit("aspect");
    reveal_strlit("尺寸");
    reveal_strlit("size");
    reveal_strlit("格式");
    reveal_strlit("输出格式");
    reveal_strlit("format");
}

/// Size and format keys are neither metadata keys nor the intake keys that
/// the table tries before them (their length and first character tell
/// them apart).
proof fn lemma_reveal_header_keys()
    ensures
        header_free("尺寸"@),
        header_free("size"@),
        header_free("格式"@),
        header_free("输出格式"@),
        header_free("format"@),
{
    lemma_literal_shapes();
}

/// `k` is no metadata key and no reference-image key.
pub open spec fn ratio_key_free(k: Seq<char>) -> bool {
    &&& crate::importer::syntax::header_kind(k) is None
    &&& !(k == "参考图"@ || k == "参考图片"@ || k == "refs"@ || k == "ref"@ || k == "images"@)
}

proof fn lemma_ratio_keys_free()
    ensures
        ratio_key_free("比例"@),
        ratio_key_free("画幅"@),
        ratio_key_free("ratio"@),
        ratio_key_free("aspect"@),
{
    lemma_literal_shapes();
}

/// `k` is no metadata key and no intake key that comes before size and
/// format in the table.
pub open spec fn header_free(k: Seq<char>) -> bool {
    &&& crate::importer::syntax::header_kind(k) is None
    &&& !(k == "参考图"@ || k == "参考图片"@ || k == "refs"@ || k == "ref"@ || k == "images"@)
    &&& !(k == "比例"@ || k == "画幅"@ || k == "ratio"@ || k == "aspect"@)
}

/// Order-intake size, ratio and format lines fill the field they name and
/// no other: before a group's first prompt, a line `尺寸: v` or `size: v`
/// sets the group's size to `v` (the trimmed value) and keeps its format;
/// a line `比例: v`, `画幅: v`, `ratio: v` or `aspect: v` sets its ratio
/// and keeps its size and format; a line `格式: v`, `输出格式: v` or
/// `format: v` sets its format to `v` and keeps its size. The group is the current one, or the default group
/// when none is open yet; its name and prompts stay as they were.
pub proof fn law_intake_lines_fill_their_own_field(
    lines: Seq<(nat, Seq<char>)>,
    scale: Option<nat>,
    i: nat,
    st: ParseState,
)
    requires
        i < lines.len(),
        in_group_head(st),
    ensures
        key_value(lines[i as int].1) is Some && (line_key(lines[i as int].1) == "尺寸"@ || line_key(
            lines[i as int].1,
        ) == "size"@) ==> (step(lines, scale, i, st).cur matches Some(g) && g.size == Some(
            line_value(lines[i as int].1),
        ) && g.format == ensure_group(st.cur).format && g.name == ensure_group(st.cur).name
            && g.prompts == ensure_group(st.cur).prompts),
        key_value(lines[i as int].1) is Some && (line_key(lines[i as int].1) == "比例"@ || line_key(
            lines[i as int].1,
        ) == "画幅"@ || line_key(lines[i as int].1) == "ratio"@ || line_key(lines[i as int].1)
            == "aspect"@) ==> (step(lines, scale, i, st).cur matches Some(g) && g.ratio == Some(
            line_value(lines[i as int].1),
        ) && g.size == ensure_group(st.cur).size && g.format == ensure_group(st.cur).format
            && g.name == ensure_group(st.cur).name && g.prompts == ensure_group(st.cur).prompts),
        key_value(lines[i as int].1) is Some && (line_key(lines[i as int].1) == "格式"@ || line_key(
            lines[i as int].1,
        ) == "输出格式"@ || line_key(lines[i as int].1) == "format"@) ==> (step(
            lines,
            scale,
            i,
            st,
        ).cur matches Some(g) && g.format == Some(line_value(lines[i as int].1)) && g.size
            == ensure_group(st.cur).size && g.name == ensure_group(st.cur).name && g.prompts
            == ensure_group(st.cur).prompts),
{
    let t = lines[i as int].1;
    lemma_key_literals();
    lemma_literal_shapes();
    lemma_reveal_header_keys();
    lemma_ratio_keys_free();
    if key_value(t) is Some {
        let k = line_key(t);
        if k == "尺寸"@ || k == "size"@ || k == "格式"@ || k == "输出格式"@ || k == "format"@ || k
            == "比例"@ || k == "画幅"@ || k == "ratio"@ || k == "aspect"@ {
            lemma_not_group_header(t);
            assert(header(t) is None);
        }
    }
}

} // verus!
