//! Character-level helpers shared by the parsers: conversion between `str`
//! and `Vec<char>`, Unicode whitespace, trimming and searching.

use vstd::prelude::*;

verus! {

broadcast use vstd::string::axiom_spec_iter;

/// The characters of `s`, in order.
pub fn chars_of(s: &str) -> (r: Vec<char>)
    ensures
        r@ == s@,
{
    let mut v: Vec<char> = Vec::new();
    for c in it: s.chars()
        invariant
            v@ == it.seq().take(it.index() as int),
    {
        v.push(c);
    }
    v
}

/// Appends one character to a string (`String::push`).
#[verifier::external_body]
pub fn push_char(s: &mut String, c: char)
    ensures
        final(s)@ == old(s)@.push(c),
{
    s.push(c);
}

/// The string made of the characters of `v`.
pub fn string_of(v: &[char]) -> (r: String)
    ensures
        r@ == v@,
{
    let mut s = String::new();
    let mut i: usize = 0;
    while i < v.len()
        invariant
            i <= v@.len(),
            s@ == v@.take(i as int),
        decreases v@.len() - i,
    {
        push_char(&mut s, v[i]);
        assert(v@.take(i + 1) =~= v@.take(i as int).push(v@[i as int]));
        i += 1;
    }
    assert(v@.take(v@.len() as int) =~= v@);
    s
}

/// Equality of two character sequences.
pub fn chars_eq(a: &[char], b: &[char]) -> (r: bool)
    ensures
        r == (a@ == b@),
{
    if a.len() != b.len() {
        return false;
    }
    let mut i: usize = 0;
    while i < a.len()
        invariant
            a@.len() == b@.len(),
            i <= a@.len(),
            forall|j: int| 0 <= j < i ==> a@[j] == b@[j],
        decreases a@.len() - i,
    {
        if a[i] != b[i] {
            return false;
        }
        i += 1;
    }
    assert(a@ =~= b@);
    true
}

/// Whether `s` spells exactly `lit`.
pub fn str_is(s: &[char], lit: &str) -> (r: bool)
    ensures
        r == (s@ == lit@),
{
    let l = chars_of(lit);
    chars_eq(s, l.as_slice())
}


/// Unicode `White_Space` (what `char::is_whitespace` tests).
pub open spec fn is_ws(c: char) -> bool {
    let u = c as u32;
    ||| 0x09 <= u <= 0x0D
    ||| u == 0x20
    ||| u == 0x85
    ||| u == 0xA0
    ||| u == 0x1680
    ||| 0x2000 <= u <= 0x200A
    ||| u == 0x2028
    ||| u == 0x2029
    ||| u == 0x202F
    ||| u == 0x205F
    ||| u == 0x3000
}

/// `char::is_whitespace`.
pub fn is_whitespace(c: char) -> (r: bool)
    ensures
        r == is_ws(c),
{
    let u = c as u32;
    (0x09 <= u && u <= 0x0D) || u == 0x20 || u == 0x85 || u == 0xA0 || u == 0x1680 || (0x2000
        <= u && u <= 0x200A) || u == 0x2028 || u == 0x2029 || u == 0x202F || u == 0x205F || u
        == 0x3000
}

/// `s` without its leading whitespace.
pub open spec fn trim_start(s: Seq<char>) -> Seq<char>
    decreases s.len(),
{
    if s.len() > 0 && is_ws(s[0]) {
        trim_start(s.drop_first())
    } else {
        s
    }
}

/// `s` without its trailing whitespace.
pub open spec fn trim_end(s: Seq<char>) -> Seq<char>
    decreases s.len(),
{
    if s.len() > 0 && is_ws(s.last()) {
        trim_end(s.drop_last())
    } else {
        s
    }
}

/// `s` without leading and trailing whitespace (`str::trim`).
pub open spec fn trim(s: Seq<char>) -> Seq<char> {
    trim_end(trim_start(s))
}

/// `trim_start` keeps a suffix of its input.
pub proof fn lemma_trim_start_suffix(s: Seq<char>)
    ensures
        trim_start(s).len() <= s.len(),
        trim_start(s) =~= s.subrange(s.len() - trim_start(s).len(), s.len() as int),
        trim_start(s).len() > 0 ==> !is_ws(trim_start(s)[0]),
    decreases s.len(),
{
    if s.len() > 0 && is_ws(s[0]) {
        lemma_trim_start_suffix(s.drop_first());
    }
}

/// `trim_end` keeps a prefix of its input.
pub proof fn lemma_trim_end_prefix(s: Seq<char>)
    ensures
        trim_end(s).len() <= s.len(),
        trim_end(s) =~= s.take(trim_end(s).len() as int),
        trim_end(s).len() > 0 ==> !is_ws(trim_end(s).last()),
    decreases s.len(),
{
    if s.len() > 0 && is_ws(s.last()) {
        lemma_trim_end_prefix(s.drop_last());
    }
}

/// The leading-whitespace-free suffix of `s`.
pub fn trim_start_slice(s: &[char]) -> (r: &[char])
    ensures
        r@ == trim_start(s@),
{
    let mut i: usize = 0;
    assert(s@.subrange(0, s@.len() as int) =~= s@);
    while i < s.len() && is_whitespace(s[i])
        invariant
            i <= s@.len(),
            trim_start(s@) == trim_start(s@.subrange(i as int, s@.len() as int)),
        decreases s@.len() - i,
    {
        assert(s@.subrange(i as int, s@.len() as int).drop_first() =~= s@.subrange(
            i + 1,
            s@.len() as int,
        ));
        i += 1;
    }
    let r = &s[i..s.len()];
    assert(r@ =~= s@.subrange(i as int, s@.len() as int));
    r
}

/// The trailing-whitespace-free prefix of `s`.
pub fn trim_end_slice(s: &[char]) -> (r: &[char])
    ensures
        r@ == trim_end(s@),
{
    let mut j: usize = s.len();
    assert(s@.take(s@.len() as int) =~= s@);
    while j > 0 && is_whitespace(s[j - 1])
        invariant
            j <= s@.len(),
            trim_end(s@) == trim_end(s@.take(j as int)),
        decreases j,
    {
        assert(s@.take(j as int).drop_last() =~= s@.take(j - 1));
        j -= 1;
    }
    let r = &s[0..j];
    assert(r@ =~= s@.take(j as int));
    r
}

/// `str::trim` on characters.
pub fn trim_slice(s: &[char]) -> (r: &[char])
    ensures
        r@ == trim(s@),
{
    let a = trim_start_slice(s);
    trim_end_slice(a)
}

/// A copy of a character slice.
pub fn to_vec(s: &[char]) -> (r: Vec<char>)
    ensures
        r@ == s@,
{
    let mut v: Vec<char> = Vec::new();
    let mut i: usize = 0;
    while i < s.len()
        invariant
            i <= s@.len(),
            v@ == s@.take(i as int),
        decreases s@.len() - i,
    {
        v.push(s[i]);
        assert(s@.take(i + 1) =~= s@.take(i as int).push(s@[i as int]));
        i += 1;
    }
    assert(s@.take(s@.len() as int) =~= s@);
    v
}

/// Whether `s` begins with `p`.
pub open spec fn starts_with(s: Seq<char>, p: Seq<char>) -> bool {
    p.len() <= s.len() && s.take(p.len() as int) == p
}

/// Whether `s` ends with `p`.
pub open spec fn ends_with(s: Seq<char>, p: Seq<char>) -> bool {
    p.len() <= s.len() && s.skip(s.len() - p.len()) == p
}

/// Exec `starts_with`.
pub fn has_prefix(s: &[char], p: &[char]) -> (r: bool)
    ensures
        r == starts_with(s@, p@),
{
    if p.len() > s.len() {
        return false;
    }
    let mut i: usize = 0;
    while i < p.len()
        invariant
            p@.len() <= s@.len(),
            i <= p@.len(),
            forall|j: int| 0 <= j < i ==> s@[j] == p@[j],
        decreases p@.len() - i,
    {
        if s[i] != p[i] {
            assert(s@.take(p@.len() as int)[i as int] != p@[i as int]);
            return false;
        }
        i += 1;
    }
    assert(s@.take(p@.len() as int) =~= p@);
    true
}

/// Exec `ends_with`.
pub fn has_suffix(s: &[char], p: &[char]) -> (r: bool)
    ensures
        r == ends_with(s@, p@),
{
    if p.len() > s.len() {
        return false;
    }
    let off = s.len() - p.len();
    let mut i: usize = 0;
    while i < p.len()
        invariant
            p@.len() <= s@.len(),
            off + p@.len() == s@.len(),
            s@.len() <= usize::MAX,
            i <= p@.len(),
            forall|j: int| 0 <= j < i ==> s@[off + j] == p@[j],
        decreases p@.len() - i,
    {
        if s[off + i] != p[i] {
            assert(s@.skip(off as int)[i as int] != p@[i as int]);
            return false;
        }
        i += 1;
    }
    assert(s@.skip(off as int) =~= p@);
    true
}

/// Whether `s` contains the character `c`.
pub open spec fn has_char(s: Seq<char>, c: char) -> bool {
    exists|i: int| 0 <= i < s.len() && s[i] == c
}

/// Exec `has_char`.
pub fn contains_char(s: &[char], c: char) -> (r: bool)
    ensures
        r == has_char(s@, c),
{
    let mut i: usize = 0;
    while i < s.len()
        invariant
            i <= s@.len(),
            forall|j: int| 0 <= j < i ==> s@[j] != c,
        decreases s@.len() - i,
    {
        if s[i] == c {
            return true;
        }
        i += 1;
    }
    false
}

/// Index of the first `c` in `s`, if any.
pub open spec fn first_index(s: Seq<char>, c: char) -> Option<nat>
    decreases s.len(),
{
    if s.len() == 0 {
        None
    } else if s[0] == c {
        Some(0)
    } else {
        match first_index(s.drop_first(), c) {
            Some(i) => Some(i + 1),
            None => None,
        }
    }
}

/// Characterisation of `first_index`.
pub proof fn lemma_first_index(s: Seq<char>, c: char)
    ensures
        match first_index(s, c) {
            Some(i) => i < s.len() && s[i as int] == c && forall|j: int| 0 <= j < i ==> s[j] != c,
            None => forall|j: int| 0 <= j < s.len() ==> s[j] != c,
        },
    decreases s.len(),
{
    if s.len() > 0 && s[0] != c {
        lemma_first_index(s.drop_first(), c);
        match first_index(s.drop_first(), c) {
            Some(i) => {
                assert forall|j: int| 0 <= j < i + 1 implies s[j] != c by {
                    if j > 0 {
                        assert(s[j] == s.drop_first()[j - 1]);
                    }
                }
            },
            None => {
                assert forall|j: int| 0 <= j < s.len() implies s[j] != c by {
                    if j > 0 {
                        assert(s[j] == s.drop_first()[j - 1]);
                    }
                }
            },
        }
    }
}

/// The index found by a left-to-right scan is `first_index`.
pub proof fn lemma_first_index_at(s: Seq<char>, c: char, i: int)
    requires
        0 <= i <= s.len(),
        forall|j: int| 0 <= j < i ==> s[j] != c,
        i == s.len() || s[i] == c,
    ensures
        first_index(s, c) == (if i == s.len() { None } else { Some(i as nat) }),
{
    lemma_first_index(s, c);
}

/// Exec `first_index`.
pub fn find_char(s: &[char], c: char) -> (r: Option<usize>)
    ensures
        r matches Some(i) ==> first_index(s@, c) == Some(i as nat) && i < s@.len() && s@[i as int]
            == c,
        r is None ==> first_index(s@, c) is None,
{
    let mut i: usize = 0;
    while i < s.len()
        invariant
            i <= s@.len(),
            forall|j: int| 0 <= j < i ==> s@[j] != c,
        decreases s@.len() - i,
    {
        if s[i] == c {
            proof {
                lemma_first_index_at(s@, c, i as int);
            }
            return Some(i);
        }
        i += 1;
    }
    proof {
        lemma_first_index_at(s@, c, i as int);
    }
    None
}


/// Separator sets used to cut text into pieces.
#[derive(Clone, Copy, PartialEq, Eq, Debug, Structural)]
pub enum SepKind {
    /// `\n` (line breaks)
    Line,
    /// `, ，、; ；` (lists whose items may contain spaces)
    List,
    /// list separators and whitespace (tag lists)
    Tags,
}

/// The list separators `, ，、; ；`.
pub open spec fn is_list_sep(c: char) -> bool {
    c == ',' || c == '，' || c == '、' || c == ';' || c == '；'
}

/// Whether `c` separates pieces of kind `k`.
pub open spec fn is_sep(c: char, k: SepKind) -> bool {
    match k {
        SepKind::Line => c == '\n',
        SepKind::List => is_list_sep(c),
        SepKind::Tags => is_list_sep(c) || is_ws(c),
    }
}

/// Exec `is_sep`.
pub fn sep_at(c: char, k: SepKind) -> (r: bool)
    ensures
        r == is_sep(c, k),
{
    match k {
        SepKind::Line => c == '\n',
        SepKind::List => c == ',' || c == '，' || c == '、' || c == ';' || c == '；',
        SepKind::Tags => c == ',' || c == '，' || c == '、' || c == ';' || c == '；' || is_whitespace(
            c,
        ),
    }
}

/// Pieces of `s` between separators, the first one starting with `cur`
/// (`str::split` with a character predicate).
pub open spec fn split_from(s: Seq<char>, k: SepKind, cur: Seq<char>) -> Seq<Seq<char>>
    decreases s.len(),
{
    if s.len() == 0 {
        seq![cur]
    } else if is_sep(s[0], k) {
        seq![cur] + split_from(s.drop_first(), k, seq![])
    } else {
        split_from(s.drop_first(), k, cur.push(s[0]))
    }
}

/// `s` split at every separator of kind `k` (empty pieces included).
pub open spec fn split_on(s: Seq<char>, k: SepKind) -> Seq<Seq<char>> {
    split_from(s, k, seq![])
}

/// The trimmed pieces that are not empty, in order.
pub open spec fn trimmed_pieces(pieces: Seq<Seq<char>>) -> Seq<Seq<char>>
    decreases pieces.len(),
{
    if pieces.len() == 0 {
        seq![]
    } else {
        let t = trim(pieces.last());
        trimmed_pieces(pieces.drop_last()) + if t.len() > 0 {
            seq![t]
        } else {
            seq![]
        }
    }
}

/// The trimmed, non-empty pieces, each with its 1-based piece number.
pub open spec fn numbered_pieces(pieces: Seq<Seq<char>>) -> Seq<(nat, Seq<char>)>
    decreases pieces.len(),
{
    if pieces.len() == 0 {
        seq![]
    } else {
        let t = trim(pieces.last());
        numbered_pieces(pieces.drop_last()) + if t.len() > 0 {
            seq![(pieces.len(), t)]
        } else {
            seq![]
        }
    }
}

/// The views of a sequence of strings.
pub open spec fn str_views(v: Seq<String>) -> Seq<Seq<char>> {
    v.map_values(|x: String| x@)
}

/// The views of a sequence of numbered character vectors.
pub open spec fn line_views(v: Seq<(usize, Vec<char>)>) -> Seq<(nat, Seq<char>)> {
    v.map_values(|x: (usize, Vec<char>)| (x.0 as nat, x.1@))
}

proof fn lemma_split_step(s: Seq<char>, k: SepKind, start: int, i: int)
    requires
        0 <= start <= i < s.len(),
    ensures
        is_sep(s[i], k) ==> split_from(s.subrange(i, s.len() as int), k, s.subrange(start, i))
            =~= seq![s.subrange(start, i)] + split_from(
            s.subrange(i + 1, s.len() as int),
            k,
            s.subrange(i + 1, i + 1),
        ),
        !is_sep(s[i], k) ==> split_from(s.subrange(i, s.len() as int), k, s.subrange(start, i))
            =~= split_from(s.subrange(i + 1, s.len() as int), k, s.subrange(start, i + 1)),
{
    let x = s.subrange(i, s.len() as int);
    assert(x.drop_first() =~= s.subrange(i + 1, s.len() as int));
    assert(s.subrange(start, i).push(s[i]) =~= s.subrange(start, i + 1));
    assert(s.subrange(i + 1, i + 1) =~= Seq::<char>::empty());
}

/// `s` cut at separators of kind `k`; pieces trimmed, empty ones dropped.
pub fn split_trimmed(s: &[char], k: SepKind) -> (r: Vec<String>)
    ensures
        str_views(r@) == trimmed_pieces(split_on(s@, k)),
{
    let mut out: Vec<String> = Vec::new();
    let mut start: usize = 0;
    let mut i: usize = 0;
    let ghost mut emitted: Seq<Seq<char>> = seq![];
    assert(s@.subrange(0, s@.len() as int) =~= s@);
    assert(s@.subrange(0, 0) =~= Seq::<char>::empty());
    while i < s.len()
        invariant
            start <= i <= s@.len(),
            emitted + split_from(s@.subrange(i as int, s@.len() as int), k, s@.subrange(
                start as int,
                i as int,
            )) == split_on(s@, k),
            str_views(out@) == trimmed_pieces(emitted),
        decreases s@.len() - i,
    {
        proof {
            lemma_split_step(s@, k, start as int, i as int);
        }
        if sep_at(s[i], k) {
            let piece = &s[start..i];
            let t = trim_slice(piece);
            proof {
                assert(piece@ =~= s@.subrange(start as int, i as int));
                assert(emitted.push(piece@).drop_last() =~= emitted);
            }
            let ghost out0 = out@;
            if t.len() > 0 {
                let st = string_of(t);
                out.push(st);
                assert(out@.drop_last() =~= out0);
                proof {
                    assert(str_views(out@) =~= str_views(out@.drop_last()).push(st@));
                }
            }
            proof {
                assert(emitted + (seq![piece@] + split_from(
                    s@.subrange(i + 1, s@.len() as int),
                    k,
                    s@.subrange(i + 1, i + 1),
                )) =~= emitted.push(piece@) + split_from(
                    s@.subrange(i + 1, s@.len() as int),
                    k,
                    s@.subrange(i + 1, i + 1),
                ));
                emitted = emitted.push(piece@);
            }
            start = i + 1;
        }
        i += 1;
    }
    let piece = &s[start..s.len()];
    let t = trim_slice(piece);
    proof {
        assert(piece@ =~= s@.subrange(start as int, s@.len() as int));
        assert(s@.subrange(s@.len() as int, s@.len() as int) =~= Seq::<char>::empty());
        assert(emitted.push(piece@).drop_last() =~= emitted);
        assert(emitted + seq![piece@] =~= emitted.push(piece@));
    }
    let ghost out0 = out@;
    if t.len() > 0 {
        let st = string_of(t);
        out.push(st);
        assert(out@.drop_last() =~= out0);
        proof {
            assert(str_views(out@) =~= str_views(out@.drop_last()).push(st@));
        }
    }
    out
}


/// The non-empty trimmed lines of `s` with their 1-based line numbers.
pub fn numbered_lines(s: &[char]) -> (r: Vec<(usize, Vec<char>)>)
    ensures
        line_views(r@) == numbered_pieces(split_on(s@, SepKind::Line)),
{
    let mut out: Vec<(usize, Vec<char>)> = Vec::new();
    let mut start: usize = 0;
    let mut i: usize = 0;
    let mut k: usize = 0;
    let ghost mut emitted: Seq<Seq<char>> = seq![];
    assert(s@.subrange(0, s@.len() as int) =~= s@);
    assert(s@.subrange(0, 0) =~= Seq::<char>::empty());
    while i < s.len()
        invariant
            start <= i <= s@.len(),
            k == emitted.len(),
            k <= start,
            emitted + split_from(
                s@.subrange(i as int, s@.len() as int),
                SepKind::Line,
                s@.subrange(start as int, i as int),
            ) == split_on(s@, SepKind::Line),
            line_views(out@) == numbered_pieces(emitted),
        decreases s@.len() - i,
    {
        proof {
            lemma_split_step(s@, SepKind::Line, start as int, i as int);
        }
        if s[i] == '\n' {
            let piece = &s[start..i];
            let t = trim_slice(piece);
            proof {
                assert(piece@ =~= s@.subrange(start as int, i as int));
                assert(emitted.push(piece@).drop_last() =~= emitted);
            }
            let ghost out0 = out@;
            if t.len() > 0 {
                let tv = to_vec(t);
                out.push((k + 1, tv));
                assert(out@.drop_last() =~= out0);
                proof {
                    assert(line_views(out@) =~= line_views(out0).push(((k + 1) as nat, tv@)));
                }
            }
            proof {
                assert(emitted + (seq![piece@] + split_from(
                    s@.subrange(i + 1, s@.len() as int),
                    SepKind::Line,
                    s@.subrange(i + 1, i + 1),
                )) =~= emitted.push(piece@) + split_from(
                    s@.subrange(i + 1, s@.len() as int),
                    SepKind::Line,
                    s@.subrange(i + 1, i + 1),
                ));
                emitted = emitted.push(piece@);
            }
            start = i + 1;
            k = k + 1;
        }
        i += 1;
    }
    let piece = &s[start..s.len()];
    let t = trim_slice(piece);
    proof {
        assert(piece@ =~= s@.subrange(start as int, s@.len() as int));
        assert(s@.subrange(s@.len() as int, s@.len() as int) =~= Seq::<char>::empty());
        assert(emitted.push(piece@).drop_last() =~= emitted);
        assert(emitted + seq![piece@] =~= emitted.push(piece@));
        lemma_trim_start_suffix(piece@);
        lemma_trim_end_prefix(trim_start(piece@));
    }
    let ghost out0 = out@;
    if t.len() > 0 {
        let tv = to_vec(t);
        out.push((k + 1, tv));
        assert(out@.drop_last() =~= out0);
        proof {
            assert(line_views(out@) =~= line_views(out0).push(((k + 1) as nat, tv@)));
        }
    }
    out
}

/// Numeric value of a run of ASCII digits.
pub open spec fn digits_value(s: Seq<char>) -> int
    decreases s.len(),
{
    if s.len() == 0 {
        0
    } else {
        digits_value(s.drop_last()) * 10 + (s.last() as int - '0' as int)
    }
}

/// Whether every character of `s` is an ASCII digit.
pub open spec fn all_digits(s: Seq<char>) -> bool {
    forall|i: int| 0 <= i < s.len() ==> '0' <= #[trigger] s[i] <= '9'
}

/// `str::parse::<i64>`: an optional sign, at least one ASCII digit, and a
/// value within range.
pub open spec fn parse_i64(s: Seq<char>) -> Option<i64> {
    let neg = s.len() > 0 && s[0] == '-';
    let body = if s.len() > 0 && (s[0] == '-' || s[0] == '+') {
        s.drop_first()
    } else {
        s
    };
    let v = if neg {
        -digits_value(body)
    } else {
        digits_value(body)
    };
    if body.len() > 0 && all_digits(body) && i64::MIN <= v <= i64::MAX {
        Some(v as i64)
    } else {
        None
    }
}

proof fn lemma_digits_value_monotone(s: Seq<char>, i: int)
    requires
        0 <= i <= s.len(),
        all_digits(s),
    ensures
        digits_value(s.take(i)) <= digits_value(s),
        0 <= digits_value(s.take(i)),
    decreases s.len() - i,
{
    if i < s.len() {
        lemma_digits_value_monotone(s, i + 1);
        assert(s.take(i + 1).drop_last() =~= s.take(i));
        assert(s.take(i + 1).last() == s[i]);
    } else {
        assert(s.take(i) =~= s);
        lemma_digits_value_nonneg(s);
    }
}

proof fn lemma_digits_value_nonneg(s: Seq<char>)
    requires
        all_digits(s),
    ensures
        0 <= digits_value(s),
    decreases s.len(),
{
    if s.len() > 0 {
        assert(all_digits(s.drop_last()));
        lemma_digits_value_nonneg(s.drop_last());
    }
}

/// The unsigned part of a signed integer literal.
pub open spec fn sign_body(s: Seq<char>) -> Seq<char> {
    if s.len() > 0 && (s[0] == '-' || s[0] == '+') {
        s.drop_first()
    } else {
        s
    }
}

proof fn lemma_parse_none(s: Seq<char>)
    requires
        !all_digits(sign_body(s)) || digits_value(sign_body(s)) > 0x8000_0000_0000_0000,
    ensures
        parse_i64(s) is None,
{
}

/// Exec `parse_i64`.
pub fn parse_int(s: &[char]) -> (r: Option<i64>)
    ensures
        r == parse_i64(s@),
{
    let neg = s.len() > 0 && s[0] == '-';
    let body: &[char] = if s.len() > 0 && (s[0] == '-' || s[0] == '+') {
        &s[1..s.len()]
    } else {
        s
    };
    assert(body@ =~= sign_body(s@));
    if body.len() == 0 {
        return None;
    }
    let mut acc: u64 = 0;
    let mut i: usize = 0;
    while i < body.len()
        invariant
            i <= body@.len(),
            acc == digits_value(body@.take(i as int)),
            acc <= 0x8000_0000_0000_0000u64,
            body@ == sign_body(s@),
            forall|j: int| 0 <= j < i ==> '0' <= #[trigger] body@[j] <= '9',
        decreases body@.len() - i,
    {
        let c = body[i];
        if !('0' <= c && c <= '9') {
            assert(!all_digits(body@)) by {
                assert(!('0' <= body@[i as int] <= '9'));
            }
            proof {
                lemma_parse_none(s@);
            }
            return None;
        }
        let d = (c as u32 - '0' as u32) as u64;
        proof {
            assert(body@.take(i + 1).drop_last() =~= body@.take(i as int));
            assert(body@.take(i + 1).last() == c);
        }
        if acc > (0x8000_0000_0000_0000u64 - d) / 10 {
            proof {
                let m: int = 0x8000_0000_0000_0000;
                assert(acc * 10 + d > m) by (nonlinear_arith)
                    requires
                        acc > (m - d) / 10,
                        0 <= d <= 9,
                ;
                assert(digits_value(body@.take(i + 1)) == acc * 10 + d);
                assert(forall|j: int| 0 <= j < i + 1 ==> '0' <= #[trigger] body@[j] <= '9');
                if all_digits(body@) {
                    lemma_digits_value_monotone(body@, i + 1);
                }
                lemma_parse_none(s@);
            }
            return None;
        }
        acc = acc * 10 + d;
        i += 1;
    }
    assert(body@.take(body@.len() as int) =~= body@);
    if neg {
        if acc == 0x8000_0000_0000_0000u64 {
            Some(i64::MIN)
        } else {
            Some(-(acc as i64))
        }
    } else {
        if acc > 0x7FFF_FFFF_FFFF_FFFFu64 {
            None
        } else {
            Some(acc as i64)
        }
    }
}


/// Upper-cased text as `str::to_uppercase` gives it (full Unicode case
/// mapping, which may change the length).
pub uninterp spec fn uppercase(s: Seq<char>) -> Seq<char>;

/// Whether every character of `s` is ASCII.
pub open spec fn all_ascii(s: Seq<char>) -> bool {
    forall|i: int| 0 <= i < s.len() ==> (#[trigger] s[i] as u32) < 128
}

/// The ASCII upper case of `c`: `a`..`z` become `A`..`Z`, others stay.
pub open spec fn ascii_upper(c: char) -> char {
    if 'a' <= c <= 'z' {
        ((c as u32) - 32) as char
    } else {
        c
    }
}

/// Upper-cased text: the ASCII upper case for ASCII text, `uppercase`
/// otherwise.
pub open spec fn upper_text(s: Seq<char>) -> Seq<char> {
    if all_ascii(s) {
        s.map_values(|c: char| ascii_upper(c))
    } else {
        uppercase(s)
    }
}

/// `str::to_uppercase`. Trusted: the result is `uppercase` of the input,
/// a function of the characters alone; on ASCII text it is the ASCII upper
/// case, character by character (the Unicode upper case of an ASCII letter
/// is its ASCII capital, and other ASCII characters have none).
#[verifier::external_body]
pub(crate) fn to_uppercase(s: &[char]) -> (r: String)
    ensures
        r@ == uppercase(s@),
        all_ascii(s@) ==> r@ == s@.map_values(|c: char| ascii_upper(c)),
{
    let owned: String = s.iter().collect();
    owned.to_uppercase()
}

} // verus!
