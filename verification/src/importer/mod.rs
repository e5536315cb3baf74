//! Prompt document import: decodes a text file and parses it into prompt
//! groups.
//!
//! Format (lenient; several styles may coexist):
//! - an explicit group header is a keyword `分组` / `组` / `group` (ASCII case
//!   ignored) followed by a colon (half or full width), a dash or equals sign,
//!   an inline bracket block, or, for the two-character keywords, whitespace;
//!   several headers split a file into several groups;
//! - a line that is one bracket block whose content is itself a group header
//!   (`【分组：鹿晗】`) opens that group;
//! - any other line that is one bracket block (`【…】`, `[…]`, `［…］`, `〖…〗`)
//!   is the title of the next body line when a body follows it, and a group
//!   header when another header or bracket block follows it; before any group
//!   marker, a bracket line governing at least two bodies is a group header;
//! - when no line in the whole document carries an explicit group marker,
//!   short heading-shaped lines are classified by the number of bodies they
//!   govern: two or more makes a group (origin `Inferred`), exactly one makes
//!   a title; this only happens for documents of long bodies;
//! - `前缀:` / `场景:` / `标签:` lines set the current group's metadata; the
//!   intake headers `参考图:` / `比例:` / `尺寸:` / `格式:` / `抽卡:` / `用途:` are
//!   read only before the group's first prompt;
//! - leading ordinals of body lines (`1.`, `2、`, `(3)`, `①` …) are removed;
//! - every other non-empty line is one prompt; without any group the file
//!   name, or `未分组导入`, names the group.

pub mod laws;
pub mod model;
pub mod parse;
pub mod stem;
pub mod syntax;

pub use crate::importer::model::GroupOrigin;
pub use crate::importer::parse::{parse_text, ParseWarning, ParsedGroup, ParsedPrompt};
pub use crate::importer::stem::clean_file_stem;

use vstd::prelude::*;
use crate::importer::model::{parse_document, GroupV, WarnV};
use crate::importer::parse::{group_views, opt_str, warning_views};
use crate::importer::stem::clean_stem;
use crate::importer::syntax::{bracket_block, group_header, group_name, skip_ordinal, strip_ordinal};
use crate::text::{chars_of, string_of};

verus! {

/// Name of the group that holds prompts found before any group marker.
pub const DEFAULT_GROUP: &'static str = "未分组导入";

/// Result of importing one document.
#[derive(Debug, Clone, PartialEq)]
pub struct ParsedImport {
    /// Name of the detected encoding (`UTF-8`, `GBK`, ...).
    pub encoding: String,
    pub groups: Vec<ParsedGroup>,
    /// Non-fatal diagnostics, with line numbers.
    pub warnings: Vec<ParseWarning>,
}

/// Total number of prompts over groups.
pub open spec fn prompt_total(gs: Seq<GroupV>) -> nat
    decreases gs.len(),
{
    if gs.len() == 0 {
        0
    } else {
        prompt_total(gs.drop_last()) + gs.last().prompts.len()
    }
}

impl ParsedImport {
    /// Number of parsed prompts over all groups.
    pub fn total_prompts(&self) -> (r: usize)
        requires
            prompt_total(group_views(self.groups@)) <= usize::MAX,
        ensures
            r == prompt_total(group_views(self.groups@)),
    {
        let ghost gv = group_views(self.groups@);
        let mut total: usize = 0;
        let mut i: usize = 0;
        assert(gv.take(0) =~= Seq::<GroupV>::empty());
        while i < self.groups.len()
            invariant
                i <= self.groups@.len(),
                gv == group_views(self.groups@),
                total == prompt_total(gv.take(i as int)),
                prompt_total(gv) <= usize::MAX,
            decreases self.groups@.len() - i,
        {
            assert(gv.take(i + 1).drop_last() =~= gv.take(i as int));
            assert(gv[i as int].prompts.len() == self.groups@[i as int].prompts@.len());
            proof {
                lemma_prompt_total_prefix(gv, i + 1);
            }
            total = total + self.groups[i].prompts.len();
            i += 1;
        }
        assert(gv.take(i as int) =~= gv);
        total
    }
}

proof fn lemma_prompt_total_prefix(gs: Seq<GroupV>, k: int)
    requires
        0 <= k <= gs.len(),
    ensures
        prompt_total(gs.take(k)) <= prompt_total(gs),
    decreases gs.len() - k,
{
    if k < gs.len() {
        lemma_prompt_total_prefix(gs, k + 1);
        assert(gs.take(k + 1).drop_last() =~= gs.take(k));
    } else {
        assert(gs.take(k) =~= gs);
    }
}

/// Text of the note that the file name now names the group.
pub open spec fn stem_message(name: Seq<char>) -> Seq<char> {
    "文件里没有分组标记，已用文件名作为分组名「"@ + name + "」。可直接在下方改名。"@
}

/// View of an optional string slice.
pub open spec fn opt_str_view(o: Option<&str>) -> Option<Seq<char>> {
    match o {
        Some(s) => Some(s@),
        None => None,
    }
}

/// A document without any group clue gets its single group named after the
/// file stem (when the cleaned stem is not empty), plus a note on line 0.
pub open spec fn name_by_stem(res: (Seq<GroupV>, Seq<WarnV>), stem: Option<Seq<char>>) -> (
    Seq<GroupV>,
    Seq<WarnV>,
) {
    let gs = res.0;
    let ws = res.1;
    if gs.len() == 1 && gs[0].origin == GroupOrigin::Fallback && stem is Some && clean_stem(
        stem->0,
    ).len() > 0 {
        let name = clean_stem(stem->0);
        (
            gs.update(0, GroupV { name, ..gs[0] }),
            ws.push(WarnV { line: 0, message: stem_message(name) }),
        )
    } else {
        res
    }
}

/// The encoding that chardetng guesses for `bytes` and the text decoded
/// with it (as `(encoding name, text)`); a function of the bytes alone.
pub uninterp spec fn decode_result(bytes: Seq<u8>) -> (Seq<char>, Seq<char>);

/// Encoding detection and decoding (chardetng's `EncodingDetector` guess,
/// UTF-8 allowed, then encoding_rs decoding with replacement). Trusted: the
/// result is `decode_result` of the bytes.
#[verifier::external_body]
pub fn decode(bytes: &[u8]) -> (r: (String, String))
    ensures
        (r.0@, r.1@) == decode_result(bytes@),
{
    let mut detector = chardetng::EncodingDetector::new();
    detector.feed(bytes, true);
    let enc = detector.guess(None, true);
    let (cow, _, _) = enc.decode(bytes);
    (enc.name().to_string(), cow.into_owned())
}

/// Parse already decoded text (`parse_document`), then name a clue-less
/// group after `file_stem`.
pub fn parse_decoded(encoding: String, text: &str, file_stem: Option<&str>) -> (r: ParsedImport)
    ensures
        r.encoding@ == encoding@,
        (group_views(r.groups@), warning_views(r.warnings@)) == name_by_stem(
            parse_document(text@),
            opt_str_view(file_stem),
        ),
{
    let (mut groups, mut warnings) = parse_text(text);
    let ghost res = (group_views(groups@), warning_views(warnings@));
    if groups.len() == 1 && groups[0].origin == GroupOrigin::Fallback {
        if let Some(stem) = file_stem {
            let name = clean_file_stem(stem);
            let nv = chars_of(name.as_str());
            if nv.len() > 0 {
                let message = {
                    let a = chars_of("文件里没有分组标记，已用文件名作为分组名「");
                    let c = chars_of("」。可直接在下方改名。");
                    let mut v = a;
                    let ghost va = v@;
                    v.extend_from_slice(nv.as_slice());
                    let ghost vb = v@;
                    v.extend_from_slice(c.as_slice());
                    assert(v@ =~= va + name@ + c@);
                    string_of(v.as_slice())
                };
                let ghost w0 = warnings@;
                let w = ParseWarning { line: 0, message };
                warnings.push(w);
                assert(warning_views(warnings@) =~= warning_views(w0).push(w@));
                let ghost g0 = groups@;
                let mut first = groups.remove(0);
                first.name = name;
                groups.insert(0, first);
                assert(group_views(groups@) =~= group_views(g0).update(
                    0,
                    GroupV { name: name@, ..group_views(g0)[0] },
                ));
            }
        }
    }
    ParsedImport { encoding, groups, warnings }
}

/// Decode `bytes` and parse the text; `file_stem` (file name without
/// extension) names the group of a document without any group clue.
pub fn parse_named(bytes: &[u8], file_stem: Option<&str>) -> (r: ParsedImport)
    ensures
        r.encoding@ == decode_result(bytes@).0,
        (group_views(r.groups@), warning_views(r.warnings@)) == name_by_stem(
            parse_document(decode_result(bytes@).1),
            opt_str_view(file_stem),
        ),
{
    let (encoding, text) = decode(bytes);
    parse_decoded(encoding, text.as_str(), file_stem)
}

/// The group name of an explicit group header line (see `group_header`).
pub fn parse_group_header(line: &str) -> (r: Option<String>)
    ensures
        opt_str(r) == group_header(line@),
{
    let chars = chars_of(line);
    match group_name(chars.as_slice()) {
        Some(name) => Some(string_of(name)),
        None => None,
    }
}

/// The text of a bracket-block line (see `bracket_line`).
pub fn parse_bracket_line(line: &str) -> (r: Option<String>)
    ensures
        opt_str(r) == crate::importer::syntax::bracket_line(line@),
{
    let chars = chars_of(line);
    match bracket_block(chars.as_slice()) {
        Some(inner) => Some(string_of(inner)),
        None => None,
    }
}

/// `s` without a leading ordinal (see `strip_ordinal`).
pub fn strip_leading_number(s: &str) -> (r: String)
    ensures
        r@ == strip_ordinal(s@),
{
    let chars = chars_of(s);
    string_of(skip_ordinal(chars.as_slice()))
}

} // verus!
