//! Line-level syntax of prompt documents: group headers, bracket blocks,
//! leading ordinals and `key: value` header lines.

use vstd::prelude::*;
use crate::text::{
    chars_of, contains_char, find_char, first_index, has_char, has_suffix, is_whitespace, is_ws,
    lemma_first_index, trim, trim_slice, trim_start, trim_start_slice,
};

verus! {

/// ASCII lower-casing of one character.
pub open spec fn ascii_lower(c: char) -> char {
    if 'A' <= c <= 'Z' {
        ((c as u32) + 32) as char
    } else {
        c
    }
}

/// `line` with keyword `kw` removed from its front, if it starts with it;
/// with `fold_case` the match ignores ASCII case.
pub open spec fn strip_kw(line: Seq<char>, kw: Seq<char>, fold_case: bool) -> Option<Seq<char>> {
    if kw.len() <= line.len() && forall|i: int|
        0 <= i < kw.len() ==> (if fold_case {
            ascii_lower(#[trigger] line[i]) == kw[i]
        } else {
            line[i] == kw[i]
        }) {
        Some(line.skip(kw.len() as int))
    } else {
        None
    }
}

/// Separators accepted between a group keyword and the group name.
pub open spec fn is_header_sep(c: char) -> bool {
    c == ':' || c == '：' || c == '-' || c == '－' || c == '—' || c == '=' || c == '＝'
}

/// The closing bracket that pairs with `c`, when `c` opens a block.
pub open spec fn close_of(c: char) -> Option<char> {
    if c == '【' {
        Some('】')
    } else if c == '[' {
        Some(']')
    } else if c == '［' {
        Some('］')
    } else if c == '〖' {
        Some('〗')
    } else {
        None
    }
}

/// Text inside an inline bracket block that starts `s`: from after the
/// opening bracket to before the first matching closing bracket.
pub open spec fn bracket_inner(s: Seq<char>) -> Option<Seq<char>> {
    if s.len() > 0 && close_of(s[0]) is Some {
        let rest = s.drop_first();
        match first_index(rest, close_of(s[0])->0) {
            Some(e) => Some(rest.take(e as int)),
            None => None,
        }
    } else {
        None
    }
}

/// Group name after keyword `kw` (see [`group_header`]).
pub open spec fn header_after_kw(line: Seq<char>, kw: Seq<char>, fold_case: bool, by_space: bool) -> Option<
    Seq<char>,
> {
    match strip_kw(line, kw, fold_case) {
        None => None,
        Some(rest) => {
            let rt = trim_start(rest);
            if bracket_inner(rt) is Some {
                let name = trim(bracket_inner(rt)->0);
                if name.len() > 0 {
                    Some(name)
                } else {
                    None
                }
            } else if rt.len() > 0 && is_header_sep(rt[0]) {
                let name = trim(rt.drop_first());
                if name.len() > 0 {
                    Some(name)
                } else {
                    None
                }
            } else if by_space && rest.len() > 0 && is_ws(rest[0]) {
                let name = trim(rest);
                if name.len() > 0 {
                    Some(name)
                } else {
                    None
                }
            } else {
                None
            }
        },
    }
}

/// An explicit group header: keyword `分组`, `组` or `group` (ASCII case
/// ignored), then an inline bracket block, a separator (`: ：- － — = ＝`) or,
/// for the two-character keywords only, whitespace; then a non-empty name.
pub open spec fn group_header(line: Seq<char>) -> Option<Seq<char>> {
    let a = header_after_kw(line, "分组"@, false, true);
    let b = header_after_kw(line, "组"@, false, false);
    let c = header_after_kw(line, "group"@, true, true);
    if a is Some {
        a
    } else if b is Some {
        b
    } else {
        c
    }
}

/// Text of a line that is exactly one bracket block (`【…】`, `[…]`, `［…］`,
/// `〖…〗`), trimmed; `None` when the block holds another closing bracket or
/// nothing but whitespace.
pub open spec fn bracket_line(line: Seq<char>) -> Option<Seq<char>> {
    if line.len() >= 2 && close_of(line[0]) is Some && line.last() == close_of(line[0])->0 {
        let inner = line.subrange(1, line.len() - 1);
        if has_char(inner, close_of(line[0])->0) {
            None
        } else if trim(inner).len() > 0 {
            Some(trim(inner))
        } else {
            None
        }
    } else {
        None
    }
}

/// Punctuation that may follow an ordinal.
pub open spec fn is_ordinal_sep(c: char) -> bool {
    c == '.' || c == '．' || c == '、' || c == '。' || c == ')' || c == '）' || c == ':' || c
        == '：' || c == ',' || c == '，'
}

/// Circled numbers ①..⑳.
pub open spec fn is_circled(c: char) -> bool {
    0x2460 <= (c as u32) <= 0x2473
}

/// `s` without one leading ordinal separator, then without leading whitespace.
pub open spec fn strip_separator(s: Seq<char>) -> Seq<char> {
    if s.len() > 0 && is_ordinal_sep(s[0]) {
        trim_start(s.drop_first())
    } else {
        trim_start(s)
    }
}

/// Number of leading ASCII digits of `s`.
pub open spec fn digit_run(s: Seq<char>) -> nat
    decreases s.len(),
{
    if s.len() > 0 && '0' <= s[0] <= '9' {
        1 + digit_run(s.drop_first())
    } else {
        0
    }
}

/// `s` without a leading ordinal: `1.` `2、` `3）` `4．` `5:` `6,`,
/// `(7)` `（8）`, or a circled number `①`..`⑳` (with an optional
/// separator after it). Returns `s` unchanged when it has none.
pub open spec fn strip_ordinal(s: Seq<char>) -> Seq<char> {
    if s.len() > 0 && is_circled(s[0]) {
        strip_separator(s.drop_first())
    } else {
        let had_paren = s.len() > 0 && (s[0] == '(' || s[0] == '（');
        let body = if had_paren {
            s.drop_first()
        } else {
            s
        };
        let n = digit_run(body);
        if n == 0 {
            s
        } else {
            let after = body.skip(n as int);
            if after.len() > 0 && had_paren && (after[0] == ')' || after[0] == '）') {
                strip_separator(after.drop_first())
            } else if after.len() > 0 && is_ordinal_sep(after[0]) {
                trim_start(after.drop_first())
            } else {
                s
            }
        }
    }
}

/// Position of the first `:` or `：` in `s`.
pub open spec fn colon_index(s: Seq<char>) -> Option<nat>
    decreases s.len(),
{
    if s.len() == 0 {
        None
    } else if s[0] == ':' || s[0] == '：' {
        Some(0)
    } else {
        match colon_index(s.drop_first()) {
            Some(i) => Some(i + 1),
            None => None,
        }
    }
}

/// `key: value` split at the first (half- or full-width) colon, both sides
/// trimmed.
pub open spec fn key_value(line: Seq<char>) -> Option<(Seq<char>, Seq<char>)> {
    match colon_index(line) {
        Some(i) => Some((trim(line.take(i as int)), trim(line.skip(i + 1 as int)))),
        None => None,
    }
}

/// Group metadata header keys recognised anywhere in a document.
#[derive(Clone, Copy, PartialEq, Eq, Debug, Structural)]
pub enum Header {
    /// `前缀` / `prefix` / `Prefix`
    Prefix,
    /// `场景` / `scene` / `Scene`
    Scene,
    /// `标签` / `tag` / `tags` / `Tags`
    Tags,
}

/// Order-intake header keys recognised only before a group's first prompt.
#[derive(Clone, Copy, PartialEq, Eq, Debug, Structural)]
pub enum IntakeHeader {
    /// `参考图` / `参考图片` / `refs` / `ref` / `images`
    Refs,
    /// `比例` / `画幅` / `ratio` / `aspect`
    Ratio,
    /// `尺寸` / `size`
    Size,
    /// `格式` / `输出格式` / `format`
    Format,
    /// `抽卡` / `抽卡次数` / `draws`
    Draws,
    /// `用途` / `purpose` / `purposes`
    Purpose,
}

/// The metadata header named by `key`.
pub open spec fn header_kind(key: Seq<char>) -> Option<Header> {
    if key == "前缀"@ || key == "prefix"@ || key == "Prefix"@ {
        Some(Header::Prefix)
    } else if key == "场景"@ || key == "scene"@ || key == "Scene"@ {
        Some(Header::Scene)
    } else if key == "标签"@ || key == "tag"@ || key == "tags"@ || key == "Tags"@ {
        Some(Header::Tags)
    } else {
        None
    }
}

/// The intake header named by `key`.
pub open spec fn intake_kind(key: Seq<char>) -> Option<IntakeHeader> {
    if key == "参考图"@ || key == "参考图片"@ || key == "refs"@ || key == "ref"@ || key
        == "images"@ {
        Some(IntakeHeader::Refs)
    } else if key == "比例"@ || key == "画幅"@ || key == "ratio"@ || key == "aspect"@ {
        Some(IntakeHeader::Ratio)
    } else if key == "尺寸"@ || key == "size"@ {
        Some(IntakeHeader::Size)
    } else if key == "格式"@ || key == "输出格式"@ || key == "format"@ {
        Some(IntakeHeader::Format)
    } else if key == "抽卡"@ || key == "抽卡次数"@ || key == "draws"@ {
        Some(IntakeHeader::Draws)
    } else if key == "用途"@ || key == "purpose"@ || key == "purposes"@ {
        Some(IntakeHeader::Purpose)
    } else {
        None
    }
}

/// A metadata header line and its value.
pub open spec fn header(line: Seq<char>) -> Option<(Header, Seq<char>)> {
    match key_value(line) {
        Some(kv) => match header_kind(kv.0) {
            Some(h) => Some((h, kv.1)),
            None => None,
        },
        None => None,
    }
}

/// An intake header line and its value.
pub open spec fn intake_header(line: Seq<char>) -> Option<(IntakeHeader, Seq<char>)> {
    match key_value(line) {
        Some(kv) => match intake_kind(kv.0) {
            Some(h) => Some((h, kv.1)),
            None => None,
        },
        None => None,
    }
}

/// A body line: neither a group header, a metadata header nor a bracket
/// block.
pub open spec fn is_body(line: Seq<char>) -> bool {
    group_header(line) is None && header(line) is None && bracket_line(line) is None
}


/// View of an optional character slice.
pub open spec fn oview(o: Option<&[char]>) -> Option<Seq<char>> {
    match o {
        Some(x) => Some(x@),
        None => None,
    }
}

/// Whether `c`, lower-cased as ASCII, is `k`.
pub fn ascii_lower_is(c: char, k: char) -> (r: bool)
    ensures
        r == (ascii_lower(c) == k),
{
    if 'A' <= c && c <= 'Z' {
        let u = (c as u32) + 32;
        proof {
            assert(((c as u32 + 32) as char) as u32 == c as u32 + 32);
        }
        u == (k as u32)
    } else {
        c == k
    }
}

/// Exec `strip_kw`.
pub fn strip_keyword<'a>(line: &'a [char], kw: &[char], fold_case: bool) -> (r: Option<&'a [char]>)
    ensures
        oview(r) == strip_kw(line@, kw@, fold_case),
{
    if kw.len() > line.len() {
        return None;
    }
    let mut i: usize = 0;
    while i < kw.len()
        invariant
            kw@.len() <= line@.len(),
            i <= kw@.len(),
            forall|j: int|
                0 <= j < i ==> (if fold_case {
                    ascii_lower(#[trigger] line@[j]) == kw@[j]
                } else {
                    line@[j] == kw@[j]
                }),
        decreases kw@.len() - i,
    {
        let ok = if fold_case {
            ascii_lower_is(line[i], kw[i])
        } else {
            line[i] == kw[i]
        };
        if !ok {
            return None;
        }
        i += 1;
    }
    let r = &line[kw.len()..line.len()];
    assert(r@ =~= line@.skip(kw@.len() as int));
    Some(r)
}

/// Exec `is_header_sep`.
pub fn header_sep(c: char) -> (r: bool)
    ensures
        r == is_header_sep(c),
{
    c == ':' || c == '：' || c == '-' || c == '－' || c == '—' || c == '=' || c == '＝'
}

/// Exec `close_of`.
pub fn closing_bracket(c: char) -> (r: Option<char>)
    ensures
        r == close_of(c),
{
    if c == '【' {
        Some('】')
    } else if c == '[' {
        Some(']')
    } else if c == '［' {
        Some('］')
    } else if c == '〖' {
        Some('〗')
    } else {
        None
    }
}

/// Exec `bracket_inner`.
pub fn inline_bracket<'a>(s: &'a [char]) -> (r: Option<&'a [char]>)
    ensures
        oview(r) == bracket_inner(s@),
{
    if s.len() == 0 {
        return None;
    }
    match closing_bracket(s[0]) {
        None => None,
        Some(close) => {
            let rest = &s[1..s.len()];
            assert(rest@ =~= s@.drop_first());
            match find_char(rest, close) {
                Some(e) => {
                    let r = &rest[0..e];
                    assert(r@ =~= rest@.take(e as int));
                    Some(r)
                },
                None => None,
            }
        },
    }
}

/// Exec `header_after_kw`.
pub fn name_after_keyword<'a>(line: &'a [char], kw: &[char], fold_case: bool, by_space: bool) -> (r:
    Option<&'a [char]>)
    ensures
        oview(r) == header_after_kw(line@, kw@, fold_case, by_space),
{
    match strip_keyword(line, kw, fold_case) {
        None => None,
        Some(rest) => {
            let rt = trim_start_slice(rest);
            match inline_bracket(rt) {
                Some(inner) => {
                    let name = trim_slice(inner);
                    if name.len() > 0 {
                        Some(name)
                    } else {
                        None
                    }
                },
                None => {
                    if rt.len() > 0 && header_sep(rt[0]) {
                        let after = &rt[1..rt.len()];
                        assert(after@ =~= rt@.drop_first());
                        let name = trim_slice(after);
                        if name.len() > 0 {
                            Some(name)
                        } else {
                            None
                        }
                    } else if by_space && rest.len() > 0 && is_whitespace(rest[0]) {
                        let name = trim_slice(rest);
                        if name.len() > 0 {
                            Some(name)
                        } else {
                            None
                        }
                    } else {
                        None
                    }
                },
            }
        },
    }
}

/// Exec `group_header`.
pub fn group_name<'a>(line: &'a [char]) -> (r: Option<&'a [char]>)
    ensures
        oview(r) == group_header(line@),
{
    let k1 = chars_of("分组");
    let a = name_after_keyword(line, k1.as_slice(), false, true);
    if a.is_some() {
        return a;
    }
    let k2 = chars_of("组");
    let b = name_after_keyword(line, k2.as_slice(), false, false);
    if b.is_some() {
        return b;
    }
    let k3 = chars_of("group");
    name_after_keyword(line, k3.as_slice(), true, true)
}

/// Exec `bracket_line`.
pub fn bracket_block<'a>(line: &'a [char]) -> (r: Option<&'a [char]>)
    ensures
        oview(r) == bracket_line(line@),
{
    if line.len() < 2 {
        return None;
    }
    match closing_bracket(line[0]) {
        None => None,
        Some(close) => {
            if line[line.len() - 1] != close {
                return None;
            }
            let inner = &line[1..line.len() - 1];
            assert(inner@ =~= line@.subrange(1, line@.len() - 1));
            if contains_char(inner, close) {
                return None;
            }
            let t = trim_slice(inner);
            if t.len() > 0 {
                Some(t)
            } else {
                None
            }
        },
    }
}

/// Exec `is_ordinal_sep`.
pub fn ordinal_sep(c: char) -> (r: bool)
    ensures
        r == is_ordinal_sep(c),
{
    c == '.' || c == '．' || c == '、' || c == '。' || c == ')' || c == '）' || c == ':' || c
        == '：' || c == ',' || c == '，'
}

/// Exec `strip_separator`.
pub fn skip_separator<'a>(s: &'a [char]) -> (r: &'a [char])
    ensures
        r@ == strip_separator(s@),
{
    if s.len() > 0 && ordinal_sep(s[0]) {
        let rest = &s[1..s.len()];
        assert(rest@ =~= s@.drop_first());
        trim_start_slice(rest)
    } else {
        trim_start_slice(s)
    }
}

proof fn lemma_digit_run(s: Seq<char>, i: int)
    requires
        0 <= i <= s.len(),
        forall|j: int| 0 <= j < i ==> '0' <= #[trigger] s[j] <= '9',
        i == s.len() || !('0' <= s[i] <= '9'),
    ensures
        digit_run(s) == i,
    decreases i,
{
    if i > 0 {
        assert forall|j: int| 0 <= j < i - 1 implies '0' <= #[trigger] s.drop_first()[j] <= '9' by {
            assert(s.drop_first()[j] == s[j + 1]);
        }
        lemma_digit_run(s.drop_first(), i - 1);
    }
}

/// Exec `strip_ordinal`.
pub fn skip_ordinal<'a>(s: &'a [char]) -> (r: &'a [char])
    ensures
        r@ == strip_ordinal(s@),
{
    if s.len() > 0 && 0x2460 <= (s[0] as u32) && (s[0] as u32) <= 0x2473 {
        let rest = &s[1..s.len()];
        assert(rest@ =~= s@.drop_first());
        return skip_separator(rest);
    }
    let had_paren = s.len() > 0 && (s[0] == '(' || s[0] == '（');
    let body: &[char] = if had_paren {
        &s[1..s.len()]
    } else {
        s
    };
    assert(had_paren ==> body@ =~= s@.drop_first());
    let mut n: usize = 0;
    while n < body.len() && '0' <= body[n] && body[n] <= '9'
        invariant
            n <= body@.len(),
            forall|j: int| 0 <= j < n ==> '0' <= #[trigger] body@[j] <= '9',
        decreases body@.len() - n,
    {
        n += 1;
    }
    proof {
        lemma_digit_run(body@, n as int);
    }
    if n == 0 {
        return s;
    }
    let after = &body[n..body.len()];
    assert(after@ =~= body@.skip(n as int));
    if after.len() > 0 && had_paren && (after[0] == ')' || after[0] == '）') {
        let rest = &after[1..after.len()];
        assert(rest@ =~= after@.drop_first());
        skip_separator(rest)
    } else if after.len() > 0 && ordinal_sep(after[0]) {
        let rest = &after[1..after.len()];
        assert(rest@ =~= after@.drop_first());
        trim_start_slice(rest)
    } else {
        s
    }
}

proof fn lemma_colon_index(s: Seq<char>, i: int)
    requires
        0 <= i <= s.len(),
        forall|j: int| 0 <= j < i ==> s[j] != ':' && s[j] != '：',
        i == s.len() || s[i] == ':' || s[i] == '：',
    ensures
        colon_index(s) == (if i == s.len() { None } else { Some(i as nat) }),
    decreases i,
{
    if i > 0 {
        assert forall|j: int| 0 <= j < i - 1 implies s.drop_first()[j] != ':'
            && s.drop_first()[j] != '：' by {
            assert(s.drop_first()[j] == s[j + 1]);
        }
        lemma_colon_index(s.drop_first(), i - 1);
    }
}

/// Exec `key_value`.
pub fn split_key_value<'a>(line: &'a [char]) -> (r: Option<(&'a [char], &'a [char])>)
    ensures
        match r {
            Some(kv) => key_value(line@) == Some((kv.0@, kv.1@)),
            None => key_value(line@) is None,
        },
{
    let mut i: usize = 0;
    while i < line.len() && line[i] != ':' && line[i] != '：'
        invariant
            i <= line@.len(),
            forall|j: int| 0 <= j < i ==> line@[j] != ':' && line@[j] != '：',
        decreases line@.len() - i,
    {
        i += 1;
    }
    proof {
        lemma_colon_index(line@, i as int);
    }
    if i == line.len() {
        return None;
    }
    let k = &line[0..i];
    let v = &line[i + 1..line.len()];
    assert(k@ =~= line@.take(i as int));
    assert(v@ =~= line@.skip(i + 1 as int));
    Some((trim_slice(k), trim_slice(v)))
}

/// Whether the characters `s` spell the literal `lit`.
fn is_word(s: &[char], lit: &str) -> (r: bool)
    ensures
        r == (s@ == lit@),
{
    crate::text::str_is(s, lit)
}

/// Exec `header_kind`.
pub fn header_key(key: &[char]) -> (r: Option<Header>)
    ensures
        r == header_kind(key@),
{
    if is_word(key, "前缀") || is_word(key, "prefix") || is_word(key, "Prefix") {
        Some(Header::Prefix)
    } else if is_word(key, "场景") || is_word(key, "scene") || is_word(key, "Scene") {
        Some(Header::Scene)
    } else if is_word(key, "标签") || is_word(key, "tag") || is_word(key, "tags") || is_word(
        key,
        "Tags",
    ) {
        Some(Header::Tags)
    } else {
        None
    }
}

/// Exec `intake_kind`.
pub fn intake_key(key: &[char]) -> (r: Option<IntakeHeader>)
    ensures
        r == intake_kind(key@),
{
    if is_word(key, "参考图") || is_word(key, "参考图片") || is_word(key, "refs") || is_word(
        key,
        "ref",
    ) || is_word(key, "images") {
        Some(IntakeHeader::Refs)
    } else if is_word(key, "比例") || is_word(key, "画幅") || is_word(key, "ratio") || is_word(
        key,
        "aspect",
    ) {
        Some(IntakeHeader::Ratio)
    } else if is_word(key, "尺寸") || is_word(key, "size") {
        Some(IntakeHeader::Size)
    } else if is_word(key, "格式") || is_word(key, "输出格式") || is_word(key, "format") {
        Some(IntakeHeader::Format)
    } else if is_word(key, "抽卡") || is_word(key, "抽卡次数") || is_word(key, "draws") {
        Some(IntakeHeader::Draws)
    } else if is_word(key, "用途") || is_word(key, "purpose") || is_word(key, "purposes") {
        Some(IntakeHeader::Purpose)
    } else {
        None
    }
}

/// Exec `header`.
pub fn header_line<'a>(line: &'a [char]) -> (r: Option<(Header, &'a [char])>)
    ensures
        match r {
            Some(hv) => header(line@) == Some((hv.0, hv.1@)),
            None => header(line@) is None,
        },
{
    match split_key_value(line) {
        None => None,
        Some((k, v)) => match header_key(k) {
            Some(h) => Some((h, v)),
            None => None,
        },
    }
}

/// Exec `intake_header`.
pub fn intake_line<'a>(line: &'a [char]) -> (r: Option<(IntakeHeader, &'a [char])>)
    ensures
        match r {
            Some(hv) => intake_header(line@) == Some((hv.0, hv.1@)),
            None => intake_header(line@) is None,
        },
{
    match split_key_value(line) {
        None => None,
        Some((k, v)) => match intake_key(k) {
            Some(h) => Some((h, v)),
            None => None,
        },
    }
}

/// Exec `is_body`.
pub fn body_line(line: &[char]) -> (r: bool)
    ensures
        r == is_body(line@),
{
    group_name(line).is_none() && header_line(line).is_none() && bracket_block(line).is_none()
}

} // verus!
