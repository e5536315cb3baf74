//! Abstract model of a parsed prompt document and the parsing rules over it.

use vstd::prelude::*;
use crate::importer::syntax::{
    bracket_line, group_header, header, intake_header, is_body, strip_ordinal, Header,
    IntakeHeader,
};
use crate::text::{has_char, parse_i64, split_on, trim, trimmed_pieces, uppercase, SepKind};

verus! {

/// Where a group's name came from; decides how sure the UI may sound.
#[derive(Debug, Clone, Copy, Default, PartialEq, Eq, Structural)]
pub enum GroupOrigin {
    /// The document marks the group explicitly (`分组: X` or a bracket line).
    Explicit,
    /// Inferred from line shapes (a short line governing several bodies).
    Inferred,
    /// No clue in the document: named after the file or the default name.
    #[default]
    Fallback,
}

/// Abstract prompt: optional title and body text.
#[verifier::ext_equal]
pub struct PromptV {
    pub title: Option<Seq<char>>,
    pub text: Seq<char>,
}

/// Abstract group.
#[verifier::ext_equal]
pub struct GroupV {
    pub name: Seq<char>,
    pub prefix: Option<Seq<char>>,
    pub scene: Seq<char>,
    pub tags: Seq<Seq<char>>,
    pub prompts: Seq<PromptV>,
    pub origin: GroupOrigin,
    pub refs: Seq<Seq<char>>,
    pub ratio: Option<Seq<char>>,
    pub size: Option<Seq<char>>,
    pub format: Option<Seq<char>>,
    pub draws: Option<i64>,
}

/// Abstract warning: 1-based line (0 = not tied to a line) and message.
#[verifier::ext_equal]
pub struct WarnV {
    pub line: nat,
    pub message: Seq<char>,
}

/// Name of the group that takes prompts when the document names none.
pub open spec fn default_group_name() -> Seq<char> {
    "未分组导入"@
}

/// Warning text for a title that no body follows.
pub open spec fn dangling_message(title: Seq<char>) -> Seq<char> {
    "小标题「"@ + title + "」后没有正文，已忽略。"@
}

/// Warning text for bodies that precede the first group marker.
pub open spec fn orphan_message() -> Seq<char> {
    "此行起的正文出现在第一个分组标记之前，已单独归入「未分组导入」。可在下方改名，或用「并入下一组」合掉。"@
}

/// A new group with the given name and origin and nothing else.
pub open spec fn new_group(name: Seq<char>, origin: GroupOrigin) -> GroupV {
    GroupV {
        name,
        prefix: None,
        scene: seq![],
        tags: seq![],
        prompts: seq![],
        origin,
        refs: seq![],
        ratio: None,
        size: None,
        format: None,
        draws: None,
    }
}

/// The current group, or the default group when there is none yet.
pub open spec fn ensure_group(cur: Option<GroupV>) -> GroupV {
    match cur {
        Some(g) => g,
        None => new_group(default_group_name(), GroupOrigin::Fallback),
    }
}

/// `gs` followed by `cur` when there is one.
pub open spec fn push_current(gs: Seq<GroupV>, cur: Option<GroupV>) -> Seq<GroupV> {
    match cur {
        Some(g) => gs.push(g),
        None => gs,
    }
}

/// `ws` plus the warning for a pending title that no body took.
pub open spec fn warn_dangling(ws: Seq<WarnV>, pending: Option<(Seq<char>, nat)>) -> Seq<WarnV> {
    match pending {
        Some(p) => ws.push(WarnV { line: p.1, message: dangling_message(p.0) }),
        None => ws,
    }
}

/// Items of a list value (`, ，、; ；`), trimmed, empty ones dropped.
pub open spec fn list_items(v: Seq<char>) -> Seq<Seq<char>> {
    trimmed_pieces(split_on(v, SepKind::List))
}

/// Tags of a tag value (list separators and whitespace).
pub open spec fn tag_items(v: Seq<char>) -> Seq<Seq<char>> {
    trimmed_pieces(split_on(v, SepKind::Tags))
}

/// `tags` extended by the `items` it does not contain yet, in order.
pub open spec fn add_missing(tags: Seq<Seq<char>>, items: Seq<Seq<char>>) -> Seq<Seq<char>>
    decreases items.len(),
{
    if items.len() == 0 {
        tags
    } else {
        let t = add_missing(tags, items.drop_last());
        if t.contains(items.last()) {
            t
        } else {
            t.push(items.last())
        }
    }
}

/// Group `g` after the metadata header `h` with value `v`.
pub open spec fn apply_header(g: GroupV, h: Header, v: Seq<char>) -> GroupV {
    match h {
        Header::Prefix => GroupV { prefix: Some(uppercase(v)), ..g },
        Header::Scene => GroupV { scene: v, ..g },
        Header::Tags => GroupV { tags: tag_items(v), ..g },
    }
}

/// Group `g` after the intake header `h` with value `v`.
pub open spec fn apply_intake(g: GroupV, h: IntakeHeader, v: Seq<char>) -> GroupV {
    match h {
        IntakeHeader::Refs => GroupV { refs: list_items(v), ..g },
        IntakeHeader::Ratio => GroupV { ratio: Some(v), ..g },
        IntakeHeader::Size => GroupV { size: Some(v), ..g },
        IntakeHeader::Format => GroupV { format: Some(v), ..g },
        IntakeHeader::Draws => GroupV { draws: parse_i64(trim(v)), ..g },
        IntakeHeader::Purpose => GroupV { tags: add_missing(g.tags, list_items(v)), ..g },
    }
}

/// Whether `s` holds sentence punctuation (`。！？；，!?;`).
pub open spec fn has_sentence_punct(s: Seq<char>) -> bool {
    has_char(s, '。') || has_char(s, '！') || has_char(s, '？') || has_char(s, '；') || has_char(
        s,
        '，',
    ) || has_char(s, '!') || has_char(s, '?') || has_char(s, ';')
}

/// A line shaped like a heading for body scale `scale`: at most 40
/// characters and at most a third of the scale, no sentence punctuation and
/// no leading ordinal.
pub open spec fn heading_shape(line: Seq<char>, scale: nat) -> bool {
    let n = line.len();
    &&& n > 0
    &&& n <= 40
    &&& n * 3 <= scale
    &&& !has_sentence_punct(line)
    &&& strip_ordinal(line) == line
}

/// A line that counts as plain body for the governance count.
pub open spec fn plain_body(line: Seq<char>, scale: Option<nat>) -> bool {
    is_body(line) && !(scale is Some && heading_shape(line, scale->0))
}

/// Number of consecutive plain body lines starting at index `j`.
pub open spec fn run_from(lines: Seq<(nat, Seq<char>)>, j: nat, scale: Option<nat>) -> nat
    decreases lines.len() - j,
{
    if j < lines.len() && plain_body(lines[j as int].1, scale) {
        1 + run_from(lines, j + 1, scale)
    } else {
        0
    }
}

/// Whether a line marks a group explicitly (`分组: X`, or a bracket block
/// holding such a header).
pub open spec fn explicit_marker(line: Seq<char>) -> bool {
    group_header(line) is Some || (bracket_line(line) is Some && group_header(
        bracket_line(line)->0,
    ) is Some)
}

/// Whether any line marks a group explicitly.
pub open spec fn has_explicit_marker(lines: Seq<(nat, Seq<char>)>) -> bool {
    exists|k: int| 0 <= k < lines.len() && explicit_marker(#[trigger] lines[k].1)
}

/// Lengths of the body lines, in order.
pub open spec fn body_lengths(lines: Seq<(nat, Seq<char>)>) -> Seq<int>
    decreases lines.len(),
{
    if lines.len() == 0 {
        seq![]
    } else {
        body_lengths(lines.drop_last()) + if is_body(lines.last().1) {
            seq![lines.last().1.len() as int]
        } else {
            seq![]
        }
    }
}

/// Typical body length: the 75th percentile of body line lengths, when
/// there are at least three body lines and it is at least 60 characters.
pub open spec fn body_scale(lines: Seq<(nat, Seq<char>)>) -> Option<nat> {
    let lens = body_lengths(lines);
    if lens.len() < 3 {
        None
    } else {
        let v = lens.sort()[(lens.len() * 3 / 4) as int];
        if v >= 60 {
            Some(v as nat)
        } else {
            None
        }
    }
}

/// Parser state between lines.
#[verifier::ext_equal]
pub struct ParseState {
    pub groups: Seq<GroupV>,
    pub cur: Option<GroupV>,
    pub warnings: Seq<WarnV>,
    pub pending: Option<(Seq<char>, nat)>,
    pub seen_group: bool,
    pub orphan: Option<WarnV>,
}

/// State before the first line.
pub open spec fn initial_state() -> ParseState {
    ParseState {
        groups: seq![],
        cur: None,
        warnings: seq![],
        pending: None,
        seen_group: false,
        orphan: None,
    }
}

/// Close the current group and open a new one.
pub open spec fn start_group(st: ParseState, name: Seq<char>, origin: GroupOrigin) -> ParseState {
    ParseState {
        groups: push_current(st.groups, st.cur),
        cur: Some(new_group(name, origin)),
        warnings: warn_dangling(st.warnings, st.pending),
        pending: None,
        seen_group: true,
        orphan: st.orphan,
    }
}

/// Remember `title` (seen on line `line`) for the next body.
pub open spec fn hold_title(st: ParseState, title: Seq<char>, line: nat) -> ParseState {
    ParseState {
        warnings: warn_dangling(st.warnings, st.pending),
        pending: Some((title, line)),
        ..st
    }
}

/// Add the body line `text` (line `line`) as a prompt of the current group.
pub open spec fn add_body(st: ParseState, text: Seq<char>, line: nat) -> ParseState {
    let g = ensure_group(st.cur);
    let p = PromptV {
        title: match st.pending {
            Some(t) => Some(t.0),
            None => None,
        },
        text: strip_ordinal(text),
    };
    ParseState {
        cur: Some(GroupV { prompts: g.prompts.push(p), ..g }),
        pending: None,
        orphan: if !st.seen_group && st.orphan is None {
            Some(WarnV { line, message: orphan_message() })
        } else {
            st.orphan
        },
        ..st
    }
}

/// Whether the current group has taken no prompt yet.
pub open spec fn in_group_head(st: ParseState) -> bool {
    st.cur is None || st.cur->0.prompts.len() == 0
}

/// The effect of line `i` on the state.
pub open spec fn step(lines: Seq<(nat, Seq<char>)>, scale: Option<nat>, i: nat, st: ParseState) -> ParseState {
    let ln = lines[i as int].0;
    let t = lines[i as int].1;
    if group_header(t) is Some {
        start_group(st, group_header(t)->0, GroupOrigin::Explicit)
    } else if header(t) is Some {
        let hv = header(t)->0;
        ParseState { cur: Some(apply_header(ensure_group(st.cur), hv.0, hv.1)), ..st }
    } else if in_group_head(st) && intake_header(t) is Some {
        let hv = intake_header(t)->0;
        ParseState { cur: Some(apply_intake(ensure_group(st.cur), hv.0, hv.1)), ..st }
    } else if bracket_line(t) is Some {
        let inner = bracket_line(t)->0;
        if group_header(inner) is Some {
            start_group(st, group_header(inner)->0, GroupOrigin::Explicit)
        } else {
            let as_group = if i + 1 < lines.len() {
                if is_body(lines[i + 1 as int].1) {
                    !st.seen_group && run_from(lines, i + 1, scale) >= 2
                } else {
                    true
                }
            } else {
                false
            };
            if as_group {
                start_group(st, inner, GroupOrigin::Explicit)
            } else {
                hold_title(st, inner, ln)
            }
        }
    } else if scale is Some && heading_shape(t, scale->0) && (run_from(lines, i + 1, scale) >= 2
        || (run_from(lines, i + 1, scale) == 0 && i + 1 < lines.len() && (!is_body(
        lines[i + 1 as int].1,
    ) || heading_shape(lines[i + 1 as int].1, scale->0)))) {
        start_group(st, t, GroupOrigin::Inferred)
    } else if scale is Some && heading_shape(t, scale->0) && run_from(lines, i + 1, scale) == 1 {
        hold_title(st, t, ln)
    } else {
        add_body(st, t, ln)
    }
}

/// The state after lines `i..` starting from `st`.
pub open spec fn parse_from(lines: Seq<(nat, Seq<char>)>, scale: Option<nat>, i: nat, st: ParseState) -> ParseState
    decreases lines.len() - i,
{
    if i >= lines.len() {
        st
    } else {
        parse_from(lines, scale, i + 1, step(lines, scale, i, st))
    }
}

/// Result of the salvage pass over groups `i..`: prompts recovered from
/// empty inferred groups not yet placed, and the groups kept.
pub open spec fn salvage_from(gs: Seq<GroupV>, i: nat, orphans: Seq<PromptV>, kept: Seq<GroupV>) -> (
    Seq<PromptV>,
    Seq<GroupV>,
)
    decreases gs.len() - i,
{
    if i >= gs.len() {
        (orphans, kept)
    } else {
        let g = gs[i as int];
        if g.origin == GroupOrigin::Inferred && g.prompts.len() == 0 {
            salvage_from(gs, i + 1, orphans.push(PromptV { title: None, text: g.name }), kept)
        } else {
            let g2 = if orphans.len() > 0 {
                GroupV { prompts: orphans + g.prompts, ..g }
            } else {
                g
            };
            salvage_from(gs, i + 1, seq![], kept.push(g2))
        }
    }
}

/// Inferred groups that govern no prompt give their name back as a prompt
/// of the next group (of the previous one at the end, of a new default
/// group when no group is left).
pub open spec fn salvage(gs: Seq<GroupV>) -> Seq<GroupV> {
    let r = salvage_from(gs, 0, seq![], seq![]);
    let orphans = r.0;
    let kept = r.1;
    if orphans.len() == 0 {
        kept
    } else if kept.len() > 0 {
        let last = kept.last();
        kept.update(kept.len() - 1, GroupV { prompts: last.prompts + orphans, ..last })
    } else {
        seq![
            GroupV {
                prompts: orphans,
                ..new_group(default_group_name(), GroupOrigin::Fallback)
            },
        ]
    }
}

/// The groups that hold at least one prompt, in order.
pub open spec fn keep_nonempty(gs: Seq<GroupV>) -> Seq<GroupV>
    decreases gs.len(),
{
    if gs.len() == 0 {
        seq![]
    } else {
        keep_nonempty(gs.drop_last()) + if gs.last().prompts.len() > 0 {
            seq![gs.last()]
        } else {
            seq![]
        }
    }
}

/// `ws` with `w` placed after every warning whose line is not greater
/// (one step of a stable sort by line).
pub open spec fn insert_by_line(ws: Seq<WarnV>, w: WarnV) -> Seq<WarnV>
    decreases ws.len(),
{
    if ws.len() == 0 {
        seq![w]
    } else if ws.last().line <= w.line {
        ws.push(w)
    } else {
        insert_by_line(ws.drop_last(), w).push(ws.last())
    }
}

/// Groups and warnings once every line has been read.
pub open spec fn finish(st: ParseState) -> (Seq<GroupV>, Seq<WarnV>) {
    let ws = warn_dangling(st.warnings, st.pending);
    let gs = keep_nonempty(salvage(push_current(st.groups, st.cur)));
    let ws2 = if st.orphan is Some && gs.len() > 1 {
        insert_by_line(ws, st.orphan->0)
    } else {
        ws
    };
    (gs, ws2)
}

/// The numbered, trimmed, non-empty lines of a document.
pub open spec fn doc_lines(text: Seq<char>) -> Seq<(nat, Seq<char>)> {
    crate::text::numbered_pieces(split_on(text, SepKind::Line))
}

/// Body scale used for shape inference: only when no line marks a group
/// explicitly.
pub open spec fn doc_scale(lines: Seq<(nat, Seq<char>)>) -> Option<nat> {
    if has_explicit_marker(lines) {
        None
    } else {
        body_scale(lines)
    }
}

/// Groups and warnings of a document.
pub open spec fn parse_document(text: Seq<char>) -> (Seq<GroupV>, Seq<WarnV>) {
    let lines = doc_lines(text);
    finish(parse_from(lines, doc_scale(lines), 0, initial_state()))
}

} // verus!
