//! The document parser: line classification and grouping.

use vstd::prelude::*;
use vstd::relations::sorted_by;
use crate::importer::model::{
    add_body, add_missing, apply_header, apply_intake, body_lengths, body_scale, doc_scale,
    ensure_group, finish, insert_by_line, keep_nonempty, parse_document, salvage, salvage_from,
    explicit_marker, has_explicit_marker, has_sentence_punct, heading_shape, hold_title,
    in_group_head, initial_state, new_group, parse_from, plain_body, run_from, start_group, step,
    warn_dangling, GroupOrigin, GroupV, ParseState, PromptV, WarnV,
};
use crate::importer::syntax::{
    body_line, bracket_block, group_name, header_line, intake_line, skip_ordinal, Header,
    IntakeHeader,
};
use crate::text::{
    line_views,
    chars_of, contains_char, parse_int, split_trimmed, str_views, string_of, to_uppercase,
    trim_slice, SepKind,
};

verus! {

/// One parsed prompt: optional title (from a `【title】` line) and text.
#[derive(Debug, Clone, PartialEq)]
pub struct ParsedPrompt {
    pub title: Option<String>,
    pub text: String,
}

/// View of an optional string.
pub open spec fn opt_str(o: Option<String>) -> Option<Seq<char>> {
    match o {
        Some(s) => Some(s@),
        None => None,
    }
}

impl View for ParsedPrompt {
    type V = PromptV;

    open spec fn view(&self) -> PromptV {
        PromptV { title: opt_str(self.title), text: self.text@ }
    }
}

/// The views of a sequence of prompts.
pub open spec fn prompt_views(v: Seq<ParsedPrompt>) -> Seq<PromptV> {
    v.map_values(|p: ParsedPrompt| p@)
}

/// One parsed group.
#[derive(Debug, Clone, Default, PartialEq)]
pub struct ParsedGroup {
    pub name: String,
    pub prefix: Option<String>,
    pub scene: String,
    pub tags: Vec<String>,
    pub prompts: Vec<ParsedPrompt>,
    /// Where the name came from (explicit / inferred / fallback).
    pub origin: GroupOrigin,
    /// Reference images attached to this group (paths relative to the order
    /// directory, from the group's `参考图:` header).
    pub refs: Vec<String>,
    /// `比例:` / `尺寸:` / `格式:` / `抽卡:` group headers.
    pub ratio: Option<String>,
    pub size: Option<String>,
    pub format: Option<String>,
    pub draws: Option<i64>,
}

impl View for ParsedGroup {
    type V = GroupV;

    open spec fn view(&self) -> GroupV {
        GroupV {
            name: self.name@,
            prefix: opt_str(self.prefix),
            scene: self.scene@,
            tags: str_views(self.tags@),
            prompts: prompt_views(self.prompts@),
            origin: self.origin,
            refs: str_views(self.refs@),
            ratio: opt_str(self.ratio),
            size: opt_str(self.size),
            format: opt_str(self.format),
            draws: self.draws,
        }
    }
}

/// The views of a sequence of groups.
pub open spec fn group_views(v: Seq<ParsedGroup>) -> Seq<GroupV> {
    v.map_values(|g: ParsedGroup| g@)
}

/// A non-fatal parse diagnostic.
#[derive(Debug, Clone, PartialEq)]
pub struct ParseWarning {
    /// 1-based line number; 0 when the note is not about one line.
    pub line: usize,
    pub message: String,
}

impl View for ParseWarning {
    type V = WarnV;

    open spec fn view(&self) -> WarnV {
        WarnV { line: self.line as nat, message: self.message@ }
    }
}

/// The views of a sequence of warnings.
pub open spec fn warning_views(v: Seq<ParseWarning>) -> Seq<WarnV> {
    v.map_values(|w: ParseWarning| w@)
}

/// View of the optional current group.
pub open spec fn opt_group(o: Option<ParsedGroup>) -> Option<GroupV> {
    match o {
        Some(g) => Some(g@),
        None => None,
    }
}

/// View of the optional pending title.
pub open spec fn opt_title(o: Option<(Vec<char>, usize)>) -> Option<(Seq<char>, nat)> {
    match o {
        Some(p) => Some((p.0@, p.1 as nat)),
        None => None,
    }
}

/// View of the optional orphan warning.
pub open spec fn opt_warn(o: Option<ParseWarning>) -> Option<WarnV> {
    match o {
        Some(w) => Some(w@),
        None => None,
    }
}

/// Executable parser state.
pub struct ParseRun {
    pub groups: Vec<ParsedGroup>,
    pub cur: Option<ParsedGroup>,
    pub warnings: Vec<ParseWarning>,
    pub pending: Option<(Vec<char>, usize)>,
    pub seen_group: bool,
    pub orphan: Option<ParseWarning>,
}

impl View for ParseRun {
    type V = ParseState;

    open spec fn view(&self) -> ParseState {
        ParseState {
            groups: group_views(self.groups@),
            cur: opt_group(self.cur),
            warnings: warning_views(self.warnings@),
            pending: opt_title(self.pending),
            seen_group: self.seen_group,
            orphan: opt_warn(self.orphan),
        }
    }
}

/// Concatenation of character sequences.
fn join3(a: &str, b: &[char], c: &str) -> (r: String)
    ensures
        r@ == a@ + b@ + c@,
{
    let mut v = chars_of(a);
    let mut i: usize = 0;
    let ghost v0 = v@;
    while i < b.len()
        invariant
            i <= b@.len(),
            v@ == v0 + b@.take(i as int),
        decreases b@.len() - i,
    {
        v.push(b[i]);
        assert(b@.take(i + 1) =~= b@.take(i as int).push(b@[i as int]));
        i += 1;
    }
    assert(b@.take(b@.len() as int) =~= b@);
    let cv = chars_of(c);
    let mut j: usize = 0;
    let ghost v1 = v@;
    while j < cv.len()
        invariant
            j <= cv@.len(),
            v@ == v1 + cv@.take(j as int),
        decreases cv@.len() - j,
    {
        v.push(cv[j]);
        assert(cv@.take(j + 1) =~= cv@.take(j as int).push(cv@[j as int]));
        j += 1;
    }
    assert(cv@.take(cv@.len() as int) =~= cv@);
    assert(v@ =~= a@ + b@ + c@);
    string_of(v.as_slice())
}

/// A fresh group.
pub fn make_group(name: &[char], origin: GroupOrigin) -> (g: ParsedGroup)
    ensures
        g@ =~= new_group(name@, origin),
{
    let g = ParsedGroup {
        name: string_of(name),
        prefix: None,
        scene: String::new(),
        tags: Vec::new(),
        prompts: Vec::new(),
        origin,
        refs: Vec::new(),
        ratio: None,
        size: None,
        format: None,
        draws: None,
    };
    assert(str_views(g.tags@) =~= Seq::<Seq<char>>::empty());
    assert(str_views(g.refs@) =~= Seq::<Seq<char>>::empty());
    assert(prompt_views(g.prompts@) =~= Seq::<PromptV>::empty());
    g
}

/// The current group, or a new default group.
fn take_group(cur: Option<ParsedGroup>) -> (g: ParsedGroup)
    ensures
        g@ == ensure_group(opt_group(cur)),
{
    match cur {
        Some(g) => g,
        None => {
            let name = chars_of("未分组导入");
            make_group(name.as_slice(), GroupOrigin::Fallback)
        },
    }
}

/// Adds the dangling-title warning, if a title is pending.
fn flush_pending(warnings: &mut Vec<ParseWarning>, pending: Option<(Vec<char>, usize)>)
    ensures
        warning_views(final(warnings)@) == warn_dangling(warning_views(old(warnings)@), opt_title(pending)),
{
    match pending {
        Some((t, line)) => {
            let message = join3("小标题「", t.as_slice(), "」后没有正文，已忽略。");
            let w = ParseWarning { line, message };
            let ghost before = warnings@;
            warnings.push(w);
            assert(warning_views(warnings@) =~= warning_views(before).push(w@));
        },
        None => {},
    }
}

/// Exec `start_group`.
fn open_group(run: ParseRun, name: &[char], origin: GroupOrigin) -> (r: ParseRun)
    ensures
        r@ =~= start_group(run@, name@, origin),
{
    let ParseRun { mut groups, cur, mut warnings, pending, seen_group, orphan } = run;
    flush_pending(&mut warnings, pending);
    let ghost g0 = groups@;
    match cur {
        Some(g) => {
            groups.push(g);
            assert(group_views(groups@) =~= group_views(g0).push(g@));
        },
        None => {},
    }
    let g = make_group(name, origin);
    ParseRun { groups, cur: Some(g), warnings, pending: None, seen_group: true, orphan }
}

/// Exec `hold_title`.
fn keep_title(run: ParseRun, title: &[char], line: usize) -> (r: ParseRun)
    ensures
        r@ =~= hold_title(run@, title@, line as nat),
{
    let ParseRun { groups, cur, mut warnings, pending, seen_group, orphan } = run;
    flush_pending(&mut warnings, pending);
    let t = crate::text::to_vec(title);
    ParseRun { groups, cur, warnings, pending: Some((t, line)), seen_group, orphan }
}

/// Exec `add_body`.
fn push_body(run: ParseRun, text: &[char], line: usize) -> (r: ParseRun)
    ensures
        r@ =~= add_body(run@, text@, line as nat),
{
    let ParseRun { groups, cur, warnings, pending, seen_group, orphan } = run;
    let orphan = if !seen_group && orphan.is_none() {
        let m = chars_of(
            "此行起的正文出现在第一个分组标记之前，已单独归入「未分组导入」。可在下方改名，或用「并入下一组」合掉。",
        );
        Some(ParseWarning { line, message: string_of(m.as_slice()) })
    } else {
        orphan
    };
    let mut g = take_group(cur);
    let title = match pending {
        Some((t, _)) => Some(string_of(t.as_slice())),
        None => None,
    };
    let body = skip_ordinal(text);
    let p = ParsedPrompt { title, text: string_of(body) };
    let ghost ps0 = g.prompts@;
    g.prompts.push(p);
    assert(prompt_views(g.prompts@) =~= prompt_views(ps0).push(p@));
    ParseRun { groups, cur: Some(g), warnings, pending: None, seen_group, orphan }
}

/// Exec `add_missing`.
fn add_missing_tags(tags: &mut Vec<String>, items: Vec<String>)
    ensures
        str_views(final(tags)@) == add_missing(str_views(old(tags)@), str_views(items@)),
{
    let ghost t0 = str_views(tags@);
    let mut i: usize = 0;
    while i < items.len()
        invariant
            i <= items@.len(),
            str_views(tags@) == add_missing(t0, str_views(items@).take(i as int)),
        decreases items@.len() - i,
    {
        let item = &items[i];
        let mut found = false;
        let mut j: usize = 0;
        while j < tags.len()
            invariant
                j <= tags@.len(),
                found == exists|k: int| 0 <= k < j && tags@[k]@ == item@,
            decreases tags@.len() - j,
        {
            let a = crate::text::chars_of(tags[j].as_str());
            let b = crate::text::chars_of(item.as_str());
            if crate::text::chars_eq(a.as_slice(), b.as_slice()) {
                found = true;
            }
            j += 1;
        }
        proof {
            let its = str_views(items@).take(i + 1);
            assert(its.drop_last() =~= str_views(items@).take(i as int));
            assert(its.last() == item@);
            assert(found == str_views(tags@).contains(item@)) by {
                if found {
                    let k = choose|k: int| 0 <= k < tags@.len() && tags@[k]@ == item@;
                    assert(str_views(tags@)[k] == item@);
                }
                if str_views(tags@).contains(item@) {
                    let k = choose|k: int|
                        0 <= k < str_views(tags@).len() && str_views(tags@)[k] == item@;
                    assert(tags@[k]@ == item@);
                }
            }
        }
        if !found {
            let ghost before = tags@;
            tags.push(item.clone());
            assert(str_views(tags@) =~= str_views(before).push(item@));
        }
        i += 1;
    }
    assert(str_views(items@).take(items@.len() as int) =~= str_views(items@));
}

/// Exec `apply_header`.
fn set_header(g: ParsedGroup, h: Header, v: &[char]) -> (r: ParsedGroup)
    ensures
        r@ =~= apply_header(g@, h, v@),
{
    let mut g = g;
    match h {
        Header::Prefix => {
            g.prefix = Some(to_uppercase(v));
        },
        Header::Scene => {
            g.scene = string_of(v);
        },
        Header::Tags => {
            g.tags = split_trimmed(v, SepKind::Tags);
        },
    }
    g
}

/// Exec `apply_intake`.
fn set_intake(g: ParsedGroup, h: IntakeHeader, v: &[char]) -> (r: ParsedGroup)
    ensures
        r@ =~= apply_intake(g@, h, v@),
{
    let mut g = g;
    match h {
        IntakeHeader::Refs => {
            g.refs = split_trimmed(v, SepKind::List);
        },
        IntakeHeader::Ratio => {
            g.ratio = Some(string_of(v));
        },
        IntakeHeader::Size => {
            g.size = Some(string_of(v));
        },
        IntakeHeader::Format => {
            g.format = Some(string_of(v));
        },
        IntakeHeader::Draws => {
            g.draws = parse_int(trim_slice(v));
        },
        IntakeHeader::Purpose => {
            let items = split_trimmed(v, SepKind::List);
            add_missing_tags(&mut g.tags, items);
        },
    }
    g
}

/// Exec `has_sentence_punct`.
fn sentence_punct(s: &[char]) -> (r: bool)
    ensures
        r == has_sentence_punct(s@),
{
    contains_char(s, '。') || contains_char(s, '！') || contains_char(s, '？') || contains_char(
        s,
        '；',
    ) || contains_char(s, '，') || contains_char(s, '!') || contains_char(s, '?')
        || contains_char(s, ';')
}

/// Exec `heading_shape`.
pub fn heading_like(line: &[char], scale: usize) -> (r: bool)
    ensures
        r == heading_shape(line@, scale as nat),
{
    let n = line.len();
    if n == 0 || n > 40 || n * 3 > scale {
        return false;
    }
    if sentence_punct(line) {
        return false;
    }
    let stripped = skip_ordinal(line);
    crate::text::chars_eq(stripped, line)
}

/// View of an optional scale.
pub open spec fn opt_scale(o: Option<usize>) -> Option<nat> {
    match o {
        Some(v) => Some(v as nat),
        None => None,
    }
}

/// Exec `plain_body`.
fn plain_body_line(line: &[char], scale: Option<usize>) -> (r: bool)
    ensures
        r == plain_body(line@, opt_scale(scale)),
{
    if !body_line(line) {
        return false;
    }
    match scale {
        Some(m) => !heading_like(line, m),
        None => true,
    }
}

/// Exec `run_from`.
pub fn body_run(lines: &Vec<(usize, Vec<char>)>, j: usize, scale: Option<usize>) -> (r: usize)
    ensures
        r as nat == run_from(crate::text::line_views(lines@), j as nat, opt_scale(scale)),
{
    let ghost lv = crate::text::line_views(lines@);
    let mut k: usize = j;
    while k < lines.len() && plain_body_line(lines[k].1.as_slice(), scale)
        invariant
            j <= k,
            lv == crate::text::line_views(lines@),
            k <= lines@.len() || k == j,
            run_from(lv, j as nat, opt_scale(scale)) == (k - j) + run_from(
                lv,
                k as nat,
                opt_scale(scale),
            ),
        decreases lines@.len() - k,
    {
        assert(lv[k as int].1 == lines@[k as int].1@);
        k += 1;
    }
    proof {
        if k < lines@.len() {
            assert(lv[k as int].1 == lines@[k as int].1@);
        }
    }
    k - j
}


/// Exec `step`: the effect of line `i`.
fn step_line(lines: &Vec<(usize, Vec<char>)>, scale: Option<usize>, i: usize, run: ParseRun) -> (r:
    ParseRun)
    requires
        i < lines@.len(),
    ensures
        r@ =~= step(line_views(lines@), opt_scale(scale), i as nat, run@),
{
    let ghost lv = line_views(lines@);
    let nl = lines.len();
    let ln = lines[i].0;
    let t = lines[i].1.as_slice();
    assert(lv[i as int].1 == t@ && lv[i as int].0 == ln as nat);
    if i + 1 < nl {
        assert(lv[i + 1].1 == lines@[i + 1].1@);
    }
    if let Some(name) = group_name(t) {
        return open_group(run, name, GroupOrigin::Explicit);
    }
    if let Some((h, v)) = header_line(t) {
        let ParseRun { groups, cur, warnings, pending, seen_group, orphan } = run;
        let g = set_header(take_group(cur), h, v);
        return ParseRun { groups, cur: Some(g), warnings, pending, seen_group, orphan };
    }
    let head = match &run.cur {
        None => true,
        Some(g) => g.prompts.len() == 0,
    };
    assert(head == in_group_head(run@));
    if head {
        if let Some((h, v)) = intake_line(t) {
            let ParseRun { groups, cur, warnings, pending, seen_group, orphan } = run;
            let g = set_intake(take_group(cur), h, v);
            return ParseRun { groups, cur: Some(g), warnings, pending, seen_group, orphan };
        }
    }
    if let Some(inner) = bracket_block(t) {
        if let Some(name) = group_name(inner) {
            return open_group(run, name, GroupOrigin::Explicit);
        }
        let as_group = if i + 1 < nl {
            if body_line(lines[i + 1].1.as_slice()) {
                !run.seen_group && body_run(lines, i + 1, scale) >= 2
            } else {
                true
            }
        } else {
            false
        };
        if as_group {
            return open_group(run, inner, GroupOrigin::Explicit);
        } else {
            return keep_title(run, inner, ln);
        }
    }
    if let Some(m) = scale {
        if heading_like(t, m) {
            let n = body_run(lines, i + 1, scale);
            let next_heading = i + 1 < nl && (!body_line(lines[i + 1].1.as_slice())
                || heading_like(lines[i + 1].1.as_slice(), m));
            if n >= 2 || (n == 0 && next_heading) {
                return open_group(run, t, GroupOrigin::Inferred);
            }
            if n == 1 {
                return keep_title(run, t, ln);
            }
        }
    }
    push_body(run, t, ln)
}

/// Exec `parse_from` over all lines.
fn parse_lines(lines: &Vec<(usize, Vec<char>)>, scale: Option<usize>) -> (r: ParseRun)
    ensures
        r@ == parse_from(line_views(lines@), opt_scale(scale), 0, initial_state()),
{
    let mut run = ParseRun {
        groups: Vec::new(),
        cur: None,
        warnings: Vec::new(),
        pending: None,
        seen_group: false,
        orphan: None,
    };
    assert(run@ =~= initial_state());
    let mut i: usize = 0;
    while i < lines.len()
        invariant
            i <= lines@.len(),
            parse_from(line_views(lines@), opt_scale(scale), 0, initial_state()) == parse_from(
                line_views(lines@),
                opt_scale(scale),
                i as nat,
                run@,
            ),
        decreases lines@.len() - i,
    {
        let ghost before = run@;
        run = step_line(lines, scale, i, run);
        assert(parse_from(line_views(lines@), opt_scale(scale), i as nat, before) == parse_from(
            line_views(lines@),
            opt_scale(scale),
            (i + 1) as nat,
            step(line_views(lines@), opt_scale(scale), i as nat, before),
        ));
        i += 1;
    }
    run
}

/// Exec `explicit_marker`.
fn explicit_line(t: &[char]) -> (r: bool)
    ensures
        r == explicit_marker(t@),
{
    if group_name(t).is_some() {
        return true;
    }
    match bracket_block(t) {
        Some(inner) => group_name(inner).is_some(),
        None => false,
    }
}

/// Exec `has_explicit_marker`.
fn any_explicit(lines: &Vec<(usize, Vec<char>)>) -> (r: bool)
    ensures
        r == has_explicit_marker(line_views(lines@)),
{
    let ghost lv = line_views(lines@);
    let mut k: usize = 0;
    while k < lines.len()
        invariant
            k <= lines@.len(),
            lv == line_views(lines@),
            forall|j: int| 0 <= j < k ==> !explicit_marker(#[trigger] lv[j].1),
        decreases lines@.len() - k,
    {
        assert(lv[k as int].1 == lines@[k as int].1@);
        if explicit_line(lines[k].1.as_slice()) {
            return true;
        }
        k += 1;
    }
    false
}

/// The views of a sequence of lengths.
pub open spec fn ints(v: Seq<usize>) -> Seq<int> {
    v.map_values(|x: usize| x as int)
}

/// Lengths of the body lines (exec `body_lengths`).
fn body_lens(lines: &Vec<(usize, Vec<char>)>) -> (r: Vec<usize>)
    ensures
        ints(r@) == body_lengths(line_views(lines@)),
{
    let ghost lv = line_views(lines@);
    let mut out: Vec<usize> = Vec::new();
    let mut k: usize = 0;
    while k < lines.len()
        invariant
            k <= lines@.len(),
            lv == line_views(lines@),
            ints(out@) == body_lengths(lv.take(k as int)),
        decreases lines@.len() - k,
    {
        let t = lines[k].1.as_slice();
        assert(lv[k as int].1 == t@);
        assert(lv.take(k + 1).drop_last() =~= lv.take(k as int));
        let ghost o0 = out@;
        if body_line(t) {
            out.push(t.len());
            assert(ints(out@) =~= ints(o0) + seq![t@.len() as int]);
        } else {
            assert(ints(out@) =~= ints(o0) + Seq::<int>::empty());
        }
        k += 1;
    }
    assert(lv.take(lines@.len() as int) =~= lv);
    out
}

/// Sorted copy of `v` (insertion sort).
fn sorted_lengths(v: &Vec<usize>) -> (r: Vec<usize>)
    ensures
        ints(r@) == ints(v@).sort(),
{
    let mut out: Vec<usize> = Vec::new();
    let mut k: usize = 0;
    assert(ints(v@.take(0)) =~= ints(out@));
    while k < v.len()
        invariant
            k <= v@.len(),
            forall|a: int, b: int| 0 <= a < b < out@.len() ==> out@[a] <= out@[b],
            ints(out@).to_multiset() == ints(v@.take(k as int)).to_multiset(),
        decreases v@.len() - k,
    {
        let x = v[k];
        let mut p: usize = out.len();
        while p > 0 && out[p - 1] > x
            invariant
                p <= out@.len(),
                forall|j: int| p <= j < out@.len() ==> out@[j] > x,
            decreases p,
        {
            p -= 1;
        }
        let ghost o0 = out@;
        out.insert(p, x);
        proof {
            assert(ints(out@) =~= ints(o0).insert(p as int, x as int));
            vstd::seq_lib::to_multiset_insert(ints(o0), p as int, x as int);
            assert(v@.take(k + 1) =~= v@.take(k as int).push(x));
            assert(ints(v@.take(k + 1)) =~= ints(v@.take(k as int)).push(x as int));
            vstd::seq_lib::lemma_multiset_commutative(ints(v@.take(k as int)), seq![x as int]);
            assert(ints(v@.take(k as int)).push(x as int) =~= ints(v@.take(k as int)) + seq![
                x as int,
            ]);
            ints(v@.take(k as int)).to_multiset_ensures();
            assert forall|a: int, b: int| 0 <= a < b < out@.len() implies out@[a] <= out@[b] by {
                if a < p && b < p {
                    assert(o0[a] <= o0[b]);
                } else if a < p && b == p {
                    assert(o0[p - 1] <= x);
                    if a < p - 1 {
                        assert(o0[a] <= o0[p - 1]);
                    }
                } else if a < p && b > p {
                    assert(o0[a] <= o0[b - 1]);
                } else if a == p {
                    assert(o0[b - 1] > x);
                } else {
                    assert(o0[a - 1] <= o0[b - 1]);
                }
            }
        }
        k += 1;
    }
    proof {
        assert(v@.take(v@.len() as int) =~= v@);
        assert(sorted_by(ints(out@), |x: int, y: int| x <= y));
        ints(v@).lemma_sort_ensures();
        vstd::seq_lib::lemma_sorted_unique(
            ints(out@),
            ints(v@).sort(),
            |x: int, y: int| x <= y,
        );
    }
    out
}


/// Exec `body_scale`.
fn scale_of(lines: &Vec<(usize, Vec<char>)>) -> (r: Option<usize>)
    ensures
        opt_scale(r) == body_scale(line_views(lines@)),
{
    let lens = body_lens(lines);
    let n = lens.len();
    if n < 3 {
        return None;
    }
    let sorted = sorted_lengths(&lens);
    let k = n / 4 * 3 + (n % 4) * 3 / 4;
    assert(k == n * 3 / 4) by (nonlinear_arith)
        requires
            k == n / 4 * 3 + (n % 4) * 3 / 4,
    ;
    assert(k < n) by (nonlinear_arith)
        requires
            k == n * 3 / 4,
            n >= 3,
    ;
    proof {
        ints(lens@).lemma_sort_ensures();
        assert(ints(sorted@).len() == ints(lens@).len()) by {
            ints(sorted@).to_multiset_ensures();
            ints(lens@).to_multiset_ensures();
        }
    }
    let v = sorted[k];
    assert(ints(sorted@)[k as int] == v as int);
    if v >= 60 {
        Some(v)
    } else {
        None
    }
}

/// Exec `doc_scale`.
fn inference_scale(lines: &Vec<(usize, Vec<char>)>) -> (r: Option<usize>)
    ensures
        opt_scale(r) == doc_scale(line_views(lines@)),
{
    if any_explicit(lines) {
        None
    } else {
        scale_of(lines)
    }
}

/// Exec `salvage`.
fn salvage_groups(gs: Vec<ParsedGroup>) -> (r: Vec<ParsedGroup>)
    ensures
        group_views(r@) =~= salvage(group_views(gs@)),
{
    let ghost g0 = group_views(gs@);
    let mut rest = gs;
    let mut orphans: Vec<ParsedPrompt> = Vec::new();
    let mut kept: Vec<ParsedGroup> = Vec::new();
    let ghost mut i: nat = 0;
    assert(g0.skip(0) =~= g0);
    assert(prompt_views(orphans@) =~= Seq::<PromptV>::empty());
    assert(group_views(kept@) =~= Seq::<GroupV>::empty());
    while rest.len() > 0
        invariant
            i <= g0.len(),
            group_views(rest@) == g0.skip(i as int),
            salvage_from(g0, 0, seq![], seq![]) == salvage_from(
                g0,
                i,
                prompt_views(orphans@),
                group_views(kept@),
            ),
        decreases rest@.len(),
    {
        let ghost r0 = rest@;
        let mut g = rest.remove(0);
        proof {
            assert(group_views(r0)[0] == g@);
            assert(group_views(rest@) =~= group_views(r0).drop_first());
            assert(g0.skip(i as int).drop_first() =~= g0.skip(i + 1 as int));
            assert(g0[i as int] == g@);
        }
        let ghost o0 = orphans@;
        let ghost k0 = kept@;
        if g.origin == GroupOrigin::Inferred && g.prompts.len() == 0 {
            orphans.push(ParsedPrompt { title: None, text: g.name });
            assert(prompt_views(orphans@) =~= prompt_views(o0).push(
                PromptV { title: None, text: g@.name },
            ));
        } else {
            if orphans.len() > 0 {
                let ghost gp = g.prompts@;
                let mut merged = orphans;
                merged.append(&mut g.prompts);
                g.prompts = merged;
                orphans = Vec::new();
                assert(prompt_views(g.prompts@) =~= prompt_views(o0) + prompt_views(gp));
            }
            kept.push(g);
            assert(group_views(kept@) =~= group_views(k0).push(g@));
            assert(prompt_views(orphans@) =~= Seq::<PromptV>::empty());
        }
        proof {
            i = i + 1;
        }
    }
    proof {
        assert(g0.skip(i as int).len() == 0);
    }
    if orphans.len() > 0 {
        if kept.len() > 0 {
            let ghost k0 = kept@;
            let mut last = kept.pop().unwrap();
            let ghost lp = last.prompts@;
            let ghost ov = prompt_views(orphans@);
            last.prompts.append(&mut orphans);
            assert(prompt_views(last.prompts@) =~= prompt_views(lp) + ov);
            kept.push(last);
            assert(group_views(kept@) =~= group_views(k0).update(
                group_views(k0).len() - 1,
                GroupV { prompts: group_views(k0).last().prompts + ov, ..group_views(k0).last() },
            ));
        } else {
            let name = chars_of("未分组导入");
            let mut g = make_group(name.as_slice(), GroupOrigin::Fallback);
            g.prompts = orphans;
            kept.push(g);
            assert(group_views(kept@) =~= seq![g@]);
        }
    }
    kept
}

/// Exec `keep_nonempty`.
fn drop_empty_groups(gs: Vec<ParsedGroup>) -> (r: Vec<ParsedGroup>)
    ensures
        group_views(r@) =~= keep_nonempty(group_views(gs@)),
{
    let ghost g0 = group_views(gs@);
    let mut rest = gs;
    let mut out: Vec<ParsedGroup> = Vec::new();
    let ghost mut i: nat = 0;
    assert(g0.skip(0) =~= g0);
    assert(g0.take(0) =~= Seq::<GroupV>::empty());
    assert(group_views(out@) =~= Seq::<GroupV>::empty());
    while rest.len() > 0
        invariant
            i <= g0.len(),
            group_views(rest@) == g0.skip(i as int),
            group_views(out@) == keep_nonempty(g0.take(i as int)),
        decreases rest@.len(),
    {
        let ghost r0 = rest@;
        let g = rest.remove(0);
        proof {
            assert(group_views(r0)[0] == g@);
            assert(group_views(rest@) =~= group_views(r0).drop_first());
            assert(g0.skip(i as int).drop_first() =~= g0.skip(i + 1 as int));
            assert(g0[i as int] == g@);
            assert(g0.take(i + 1 as int).drop_last() =~= g0.take(i as int));
            assert(g0.take(i + 1 as int).last() == g@);
        }
        let ghost o0 = out@;
        if g.prompts.len() > 0 {
            out.push(g);
            assert(group_views(out@) =~= group_views(o0) + seq![g@]);
        } else {
            assert(group_views(out@) =~= group_views(o0) + Seq::<GroupV>::empty());
        }
        proof {
            i = i + 1;
        }
    }
    proof {
        assert(g0.skip(i as int).len() == 0);
        assert(g0.take(i as int) =~= g0);
    }
    out
}

proof fn lemma_insert_by_line(ws: Seq<WarnV>, w: WarnV, p: int)
    requires
        0 <= p <= ws.len(),
        forall|j: int| p <= j < ws.len() ==> ws[j].line > w.line,
        p == 0 || ws[p - 1].line <= w.line,
    ensures
        insert_by_line(ws, w) =~= ws.insert(p, w),
    decreases ws.len(),
{
    if ws.len() == 0 {
    } else if ws.last().line <= w.line {
        assert(p == ws.len());
    } else {
        lemma_insert_by_line(ws.drop_last(), w, p);
        assert(ws.drop_last().insert(p, w).push(ws.last()) =~= ws.insert(p, w));
    }
}

/// Exec `insert_by_line`.
fn insert_warning(ws: &mut Vec<ParseWarning>, w: ParseWarning)
    ensures
        warning_views(final(ws)@) =~= insert_by_line(warning_views(old(ws)@), w@),
{
    let mut p: usize = ws.len();
    while p > 0 && ws[p - 1].line > w.line
        invariant
            p <= ws@.len(),
            forall|j: int| p <= j < ws@.len() ==> ws@[j].line > w.line,
        decreases p,
    {
        p -= 1;
    }
    let ghost w0 = ws@;
    proof {
        lemma_insert_by_line(warning_views(w0), w@, p as int);
    }
    ws.insert(p, w);
    assert(warning_views(ws@) =~= warning_views(w0).insert(p as int, w@));
}

/// Exec `finish`.
fn finish_run(run: ParseRun) -> (r: (Vec<ParsedGroup>, Vec<ParseWarning>))
    ensures
        (group_views(r.0@), warning_views(r.1@)) == finish(run@),
{
    let ghost st = run@;
    let ParseRun { mut groups, cur, mut warnings, pending, seen_group, orphan } = run;
    flush_pending(&mut warnings, pending);
    let ghost g0 = groups@;
    match cur {
        Some(g) => {
            groups.push(g);
            assert(group_views(groups@) =~= group_views(g0).push(g@));
        },
        None => {},
    }
    let gs = drop_empty_groups(salvage_groups(groups));
    match orphan {
        Some(w) => {
            if gs.len() > 1 {
                insert_warning(&mut warnings, w);
            }
        },
        None => {},
    }
    (gs, warnings)
}

/// Groups and warnings of a prompt document (`parse_document`): one prompt
/// per non-empty body line; see the module documentation for the rules.
pub fn parse_text(text: &str) -> (r: (Vec<ParsedGroup>, Vec<ParseWarning>))
    ensures
        (group_views(r.0@), warning_views(r.1@)) == parse_document(text@),
{
    let chars = chars_of(text);
    let lines = crate::text::numbered_lines(chars.as_slice());
    let scale = inference_scale(&lines);
    let run = parse_lines(&lines, scale);
    finish_run(run)
}

} // verus!
