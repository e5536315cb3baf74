//! File names as group names: `提示词_20260724 (1) 副本.txt` -> `提示词`.

use vstd::prelude::*;
use crate::text::{
    chars_of, ends_with, has_suffix, is_ws, lemma_trim_end_prefix, lemma_trim_start_suffix, trim,
    trim_end, trim_end_slice, trim_slice, trim_start,
};

verus! {

/// Noise characters dropped from the end of a file stem.
pub open spec fn is_stem_noise(c: char) -> bool {
    c == ' ' || c == '_' || c == '-' || c == '－' || c == '—' || c == '·'
}

/// `s` without trailing noise characters.
pub open spec fn trim_noise(s: Seq<char>) -> Seq<char>
    decreases s.len(),
{
    if s.len() > 0 && is_stem_noise(s.last()) {
        trim_noise(s.drop_last())
    } else {
        s
    }
}

/// `s` without the suffix `suf` (then trailing whitespace), when it ends
/// with it.
pub open spec fn cut_suffix(s: Seq<char>, suf: Seq<char>) -> Seq<char> {
    if ends_with(s, suf) {
        trim_end(s.take(s.len() - suf.len()))
    } else {
        s
    }
}

/// `s` without the copy markers `副本`, `copy`, `Copy`, `COPY`, tried once
/// each in that order.
pub open spec fn cut_copy_markers(s: Seq<char>) -> Seq<char> {
    cut_suffix(cut_suffix(cut_suffix(cut_suffix(s, "副本"@), "copy"@), "Copy"@), "COPY"@)
}

/// Index of the last `(` or `（` in `s`.
pub open spec fn last_open_paren(s: Seq<char>) -> Option<nat>
    decreases s.len(),
{
    if s.len() == 0 {
        None
    } else if s.last() == '(' || s.last() == '（' {
        Some((s.len() - 1) as nat)
    } else {
        last_open_paren(s.drop_last())
    }
}

/// `s` without a trailing `(1)` / `（2）` counter.
pub open spec fn cut_counter(s: Seq<char>) -> Seq<char> {
    if s.len() > 0 && (s.last() == ')' || s.last() == '）') {
        let rest = s.drop_last();
        match last_open_paren(rest) {
            Some(o) => {
                let inner = rest.skip(o as int);
                if inner.len() > 1 && crate::text::all_digits(inner.drop_first()) {
                    trim_end(rest.take(o as int))
                } else {
                    s
                }
            },
            None => s,
        }
    } else {
        s
    }
}

/// Characters that may form a trailing date stamp.
pub open spec fn is_stamp_char(c: char) -> bool {
    ('0' <= c <= '9') || c == '-' || c == '_' || c == '.'
}

/// Length of the trailing run of stamp characters.
pub open spec fn stamp_run(s: Seq<char>) -> nat
    decreases s.len(),
{
    if s.len() > 0 && is_stamp_char(s.last()) {
        1 + stamp_run(s.drop_last())
    } else {
        0
    }
}

/// Number of ASCII digits in `s`.
pub open spec fn digit_count(s: Seq<char>) -> nat
    decreases s.len(),
{
    if s.len() == 0 {
        0
    } else {
        digit_count(s.drop_last()) + if '0' <= s.last() <= '9' {
            1nat
        } else {
            0nat
        }
    }
}

/// `s` without a trailing date stamp (6 to 8 digits among `- _ .`), unless
/// that would leave nothing.
pub open spec fn cut_date_stamp(s: Seq<char>) -> Seq<char> {
    let n = stamp_run(s);
    let cut = s.len() - n;
    let d = digit_count(s.skip(cut));
    if n > 0 && 6 <= d <= 8 && cut > 0 {
        trim_end(s.take(cut))
    } else {
        s
    }
}

/// One cleaning round.
pub open spec fn clean_round(s: Seq<char>) -> Seq<char> {
    cut_date_stamp(cut_counter(cut_copy_markers(trim_end(trim_noise(s)))))
}

/// Cleaning rounds until one changes nothing (every round keeps a prefix,
/// so an unchanged length means an unchanged text).
pub open spec fn clean_rounds(s: Seq<char>) -> Seq<char>
    decreases s.len(),
{
    let s2 = clean_round(s);
    if s2.len() < s.len() {
        clean_rounds(s2)
    } else {
        s
    }
}

/// `s` with every run of whitespace replaced by one space.
pub open spec fn squeeze_ws(s: Seq<char>) -> Seq<char>
    decreases s.len(),
{
    if s.len() == 0 {
        s
    } else if is_ws(s.last()) {
        let p = squeeze_ws(s.drop_last());
        if p.len() > 0 && p.last() == ' ' {
            p
        } else {
            p.push(' ')
        }
    } else {
        squeeze_ws(s.drop_last()).push(s.last())
    }
}

/// Group name made from a file stem: trailing date stamps, `(1)` counters,
/// copy markers and separator noise removed, whitespace compressed; may be
/// empty.
pub open spec fn clean_stem(stem: Seq<char>) -> Seq<char> {
    squeeze_ws(trim(clean_rounds(trim(stem))))
}

/// Exec `squeeze_ws`.
fn squeeze_ws_slice(s: &[char]) -> (r: Vec<char>)
    ensures
        r@ == squeeze_ws(s@),
{
    let mut out: Vec<char> = Vec::new();
    let mut i: usize = 0;
    assert(s@.take(0) =~= Seq::<char>::empty());
    while i < s.len()
        invariant
            i <= s@.len(),
            out@ == squeeze_ws(s@.take(i as int)),
        decreases s@.len() - i,
    {
        assert(s@.take(i + 1).drop_last() =~= s@.take(i as int));
        assert(s@.take(i + 1).last() == s@[i as int]);
        let c = s[i];
        if crate::text::is_whitespace(c) {
            if !(out.len() > 0 && out[out.len() - 1] == ' ') {
                out.push(' ');
            }
        } else {
            out.push(c);
        }
        i += 1;
    }
    assert(s@.take(s@.len() as int) =~= s@);
    out
}

/// Exec `trim_noise`.
fn trim_noise_slice(s: &[char]) -> (r: &[char])
    ensures
        r@ == trim_noise(s@),
{
    let mut j: usize = s.len();
    assert(s@.take(s@.len() as int) =~= s@);
    while j > 0 && (s[j - 1] == ' ' || s[j - 1] == '_' || s[j - 1] == '-' || s[j - 1] == '－'
        || s[j - 1] == '—' || s[j - 1] == '·')
        invariant
            j <= s@.len(),
            trim_noise(s@) == trim_noise(s@.take(j as int)),
        decreases j,
    {
        assert(s@.take(j as int).drop_last() =~= s@.take(j - 1));
        j -= 1;
    }
    let r = &s[0..j];
    assert(r@ =~= s@.take(j as int));
    r
}

/// Exec `cut_suffix`.
fn cut_suffix_slice<'a>(s: &'a [char], suf: &str) -> (r: &'a [char])
    ensures
        r@ == cut_suffix(s@, suf@),
{
    let sv = chars_of(suf);
    if has_suffix(s, sv.as_slice()) {
        let rest = &s[0..s.len() - sv.len()];
        assert(rest@ =~= s@.take(s@.len() - sv@.len()));
        trim_end_slice(rest)
    } else {
        s
    }
}

/// Exec `cut_counter`.
fn cut_counter_slice(s: &[char]) -> (r: &[char])
    ensures
        r@ == cut_counter(s@),
{
    if s.len() == 0 || !(s[s.len() - 1] == ')' || s[s.len() - 1] == '）') {
        return s;
    }
    let rest = &s[0..s.len() - 1];
    assert(rest@ =~= s@.drop_last());
    let mut j: usize = rest.len();
    assert(rest@.take(rest@.len() as int) =~= rest@);
    while j > 0 && !(rest[j - 1] == '(' || rest[j - 1] == '（')
        invariant
            j <= rest@.len(),
            last_open_paren(rest@) == last_open_paren(rest@.take(j as int)),
        decreases j,
    {
        assert(rest@.take(j as int).drop_last() =~= rest@.take(j - 1));
        j -= 1;
    }
    if j == 0 {
        assert(rest@.take(0) =~= Seq::<char>::empty());
        return s;
    }
    let o = j - 1;
    assert(last_open_paren(rest@.take(j as int)) == Some(o as nat));
    let inner = &rest[o..rest.len()];
    assert(inner@ =~= rest@.skip(o as int));
    assert(last_open_paren(rest@) == Some(o as nat));
    if inner.len() <= 1 {
        assert(rest@.skip(o as int).len() <= 1);
        return s;
    }
    let mut k: usize = 1;
    while k < inner.len() && '0' <= inner[k] && inner[k] <= '9'
        invariant
            1 <= k <= inner@.len(),
            forall|x: int| 1 <= x < k ==> '0' <= #[trigger] inner@[x] <= '9',
        decreases inner@.len() - k,
    {
        k += 1;
    }
    if k < inner.len() {
        assert(!crate::text::all_digits(inner@.drop_first())) by {
            assert(inner@.drop_first()[k - 1] == inner@[k as int]);
        }
        return s;
    }
    assert(crate::text::all_digits(inner@.drop_first())) by {
        assert forall|x: int| 0 <= x < inner@.drop_first().len() implies '0'
            <= #[trigger] inner@.drop_first()[x] <= '9' by {
            assert(inner@.drop_first()[x] == inner@[x + 1]);
        }
    }
    let head = &rest[0..o];
    assert(head@ =~= rest@.take(o as int));
    trim_end_slice(head)
}

/// Exec `cut_date_stamp`.
fn cut_date_slice(s: &[char]) -> (r: &[char])
    ensures
        r@ == cut_date_stamp(s@),
{
    let mut j: usize = s.len();
    assert(s@.take(s@.len() as int) =~= s@);
    while j > 0 && (('0' <= s[j - 1] && s[j - 1] <= '9') || s[j - 1] == '-' || s[j - 1] == '_'
        || s[j - 1] == '.')
        invariant
            j <= s@.len(),
            stamp_run(s@) == (s@.len() - j) + stamp_run(s@.take(j as int)),
        decreases j,
    {
        assert(s@.take(j as int).drop_last() =~= s@.take(j - 1));
        j -= 1;
    }
    let cut = j;
    let tail = &s[cut..s.len()];
    assert(tail@ =~= s@.skip(cut as int));
    let mut d: usize = 0;
    let mut k: usize = 0;
    assert(tail@.take(0) =~= Seq::<char>::empty());
    while k < tail.len()
        invariant
            k <= tail@.len(),
            d == digit_count(tail@.take(k as int)),
            d <= k,
        decreases tail@.len() - k,
    {
        assert(tail@.take(k + 1).drop_last() =~= tail@.take(k as int));
        if '0' <= tail[k] && tail[k] <= '9' {
            d += 1;
        }
        k += 1;
    }
    assert(tail@.take(tail@.len() as int) =~= tail@);
    if cut < s.len() && 6 <= d && d <= 8 && cut > 0 {
        let head = &s[0..cut];
        assert(head@ =~= s@.take(cut as int));
        trim_end_slice(head)
    } else {
        s
    }
}

/// Exec `clean_round`.
fn clean_round_slice(s: &[char]) -> (r: &[char])
    ensures
        r@ == clean_round(s@),
{
    let a = trim_end_slice(trim_noise_slice(s));
    let b = cut_suffix_slice(a, "副本");
    let b = cut_suffix_slice(b, "copy");
    let b = cut_suffix_slice(b, "Copy");
    let b = cut_suffix_slice(b, "COPY");
    let c = cut_counter_slice(b);
    cut_date_slice(c)
}

/// Group name made from a file stem (exec `clean_stem`): trailing date
/// stamps, `(1)` counters, copy markers and separator noise removed,
/// whitespace compressed.
pub fn clean_file_stem(stem: &str) -> (r: String)
    ensures
        r@ == clean_stem(stem@),
{
    let chars = chars_of(stem);
    let mut s = trim_slice(chars.as_slice());
    let ghost start = s@;
    loop
        invariant
            clean_rounds(start) == clean_rounds(s@),
        ensures
            clean_rounds(start) == s@,
        decreases s@.len(),
    {
        let s2 = clean_round_slice(s);
        if s2.len() < s.len() {
            s = s2;
        } else {
            assert(clean_rounds(s@) == s@);
            break;
        }
    }
    let squeezed = squeeze_ws_slice(trim_slice(s));
    crate::text::string_of(squeezed.as_slice())
}

/// Whitespace in `s` is compressed: none at either end, and inside only
/// single spaces between other characters.
pub open spec fn compressed(s: Seq<char>) -> bool {
    forall|i: int|
        0 <= i < s.len() && is_ws(#[trigger] s[i]) ==> s[i] == ' ' && 0 < i < s.len() - 1 && !is_ws(
            s[i - 1],
        ) && !is_ws(s[i + 1])
}

proof fn lemma_squeeze(s: Seq<char>)
    ensures
        squeeze_ws(s).len() == 0 <==> s.len() == 0,
        forall|i: int|
            0 <= i < squeeze_ws(s).len() && is_ws(#[trigger] squeeze_ws(s)[i]) ==> squeeze_ws(
                s,
            )[i] == ' ',
        forall|i: int|
            0 < i < squeeze_ws(s).len() && is_ws(#[trigger] squeeze_ws(s)[i]) ==> !is_ws(
                squeeze_ws(s)[i - 1],
            ),
        squeeze_ws(s).len() > 0 ==> (is_ws(squeeze_ws(s)[0]) <==> is_ws(s[0])),
        squeeze_ws(s).len() > 0 ==> (is_ws(squeeze_ws(s).last()) <==> is_ws(s.last())),
    decreases s.len(),
{
    if s.len() > 0 {
        let p = squeeze_ws(s.drop_last());
        lemma_squeeze(s.drop_last());
        assert(is_ws(' '));
        if s.len() > 1 {
            assert(s.drop_last()[0] == s[0]);
            assert(s.drop_last().last() == s[s.len() - 2]);
        }
        let r = squeeze_ws(s);
        if is_ws(s.last()) {
            if p.len() > 0 && p.last() == ' ' {
            } else {
                assert(r == p.push(' '));
                assert forall|i: int| 0 < i < r.len() && is_ws(#[trigger] r[i]) implies !is_ws(
                    r[i - 1],
                ) by {
                    if i < p.len() {
                        assert(r[i] == p[i] && r[i - 1] == p[i - 1]);
                    } else {
                        assert(r[i - 1] == p.last());
                        assert(p.last() != ' ');
                    }
                }
                assert forall|i: int| 0 <= i < r.len() && is_ws(#[trigger] r[i]) implies r[i]
                    == ' ' by {
                    if i < p.len() {
                        assert(r[i] == p[i]);
                    }
                }
            }
        } else {
            assert(r == p.push(s.last()));
            assert forall|i: int| 0 < i < r.len() && is_ws(#[trigger] r[i]) implies !is_ws(
                r[i - 1],
            ) by {
                assert(r[i] == p[i] && r[i - 1] == p[i - 1]);
            }
            assert forall|i: int| 0 <= i < r.len() && is_ws(#[trigger] r[i]) implies r[i]
                == ' ' by {
                assert(r[i] == p[i]);
            }
        }
    }
}

proof fn lemma_trim_ends(s: Seq<char>)
    ensures
        trim(s).len() > 0 ==> !is_ws(trim(s)[0]) && !is_ws(trim(s).last()),
{
    lemma_trim_start_suffix(s);
    lemma_trim_end_prefix(trim_start(s));
}

/// A group name made from a file stem has its whitespace compressed: none
/// at either end, and inside only single spaces between other characters.
pub proof fn law_clean_stem_is_compressed(stem: Seq<char>)
    ensures
        compressed(clean_stem(stem)),
{
    let t = trim(clean_rounds(trim(stem)));
    lemma_trim_ends(clean_rounds(trim(stem)));
    lemma_squeeze(t);
    let r = squeeze_ws(t);
    assert forall|i: int| 0 <= i < r.len() && is_ws(#[trigger] r[i]) implies r[i] == ' ' && 0 < i
        < r.len() - 1 && !is_ws(r[i - 1]) && !is_ws(r[i + 1]) by {
        if i + 1 < r.len() && is_ws(r[i + 1]) {
            assert(!is_ws(r[(i + 1) - 1]));
        }
    }
}

proof fn lemma_trim_noise_len(s: Seq<char>)
    ensures
        trim_noise(s).len() <= s.len(),
        s.len() > 0 && is_stem_noise(s.last()) ==> trim_noise(s).len() < s.len(),
    decreases s.len(),
{
    if s.len() > 0 && is_stem_noise(s.last()) {
        lemma_trim_noise_len(s.drop_last());
    }
}

proof fn lemma_cut_suffix_len(s: Seq<char>, suf: Seq<char>)
    requires
        suf.len() > 0,
    ensures
        cut_suffix(s, suf).len() <= s.len(),
        ends_with(s, suf) ==> cut_suffix(s, suf).len() < s.len(),
{
    if ends_with(s, suf) {
        lemma_trim_end_prefix(s.take(s.len() - suf.len()));
    }
}

proof fn lemma_cut_counter_len(s: Seq<char>)
    ensures
        cut_counter(s).len() <= s.len(),
        cut_counter(s) != s ==> cut_counter(s).len() < s.len(),
{
    if s.len() > 0 && (s.last() == ')' || s.last() == '）') {
        let rest = s.drop_last();
        match last_open_paren(rest) {
            Some(o) => {
                lemma_last_open_paren_range(rest);
                lemma_trim_end_prefix(rest.take(o as int));
            },
            None => {},
        }
    }
}

proof fn lemma_last_open_paren_range(s: Seq<char>)
    ensures
        last_open_paren(s) matches Some(o) ==> o < s.len() && (s[o as int] == '(' || s[o
            as int] == '（'),
    decreases s.len(),
{
    if s.len() > 0 && !(s.last() == '(' || s.last() == '（') {
        lemma_last_open_paren_range(s.drop_last());
        if last_open_paren(s.drop_last()) is Some {
            let o = last_open_paren(s.drop_last())->0;
            assert(s[o as int] == s.drop_last()[o as int]);
        }
    }
}

proof fn lemma_stamp_run_le(s: Seq<char>)
    ensures
        stamp_run(s) <= s.len(),
    decreases s.len(),
{
    if s.len() > 0 && is_stamp_char(s.last()) {
        lemma_stamp_run_le(s.drop_last());
    }
}

proof fn lemma_cut_date_len(s: Seq<char>)
    ensures
        cut_date_stamp(s).len() <= s.len(),
        cut_date_stamp(s) != s ==> cut_date_stamp(s).len() < s.len(),
{
    lemma_stamp_run_le(s);
    let n = stamp_run(s);
    if n > 0 {
        lemma_trim_end_prefix(s.take(s.len() - n));
    }
}

/// What a stem that a cleaning round leaves at its length looks like: no
/// noise or whitespace at its end, no copy marker, counter or date stamp.
pub open spec fn round_clean(s: Seq<char>) -> bool {
    &&& s.len() > 0 ==> !is_stem_noise(s.last()) && !is_ws(s.last())
    &&& !ends_with(s, "副本"@)
    &&& !ends_with(s, "copy"@)
    &&& !ends_with(s, "Copy"@)
    &&& !ends_with(s, "COPY"@)
    &&& cut_counter(s) == s
    &&& cut_date_stamp(s) == s
}

proof fn lemma_markers_nonempty()
    ensures
        "副本"@.len() == 2,
        "copy"@.len() == 4,
        "Copy"@.len() == 4,
        "COPY"@.len() == 4,
{
    reveal_strlit("副本");
    reveal_strlit("copy");
    reveal_strlit("Copy");
    reveal_strlit("COPY");
}

proof fn lemma_round_len(s: Seq<char>)
    ensures
        clean_round(s).len() <= s.len(),
        clean_round(s).len() == s.len() ==> round_clean(s),
{
    lemma_markers_nonempty();
    let a = trim_noise(s);
    lemma_trim_noise_len(s);
    let b = trim_end(a);
    lemma_trim_end_prefix(a);
    let c1 = cut_suffix(b, "副本"@);
    lemma_cut_suffix_len(b, "副本"@);
    let c2 = cut_suffix(c1, "copy"@);
    lemma_cut_suffix_len(c1, "copy"@);
    let c3 = cut_suffix(c2, "Copy"@);
    lemma_cut_suffix_len(c2, "Copy"@);
    let c4 = cut_suffix(c3, "COPY"@);
    lemma_cut_suffix_len(c3, "COPY"@);
    let d = cut_counter(c4);
    lemma_cut_counter_len(c4);
    lemma_cut_date_len(d);
    if clean_round(s).len() == s.len() {
        assert(a.len() == s.len());
        assert(a == s) by {
            if s.len() > 0 && is_stem_noise(s.last()) {
            } else {
            }
        }
        if s.len() > 0 && is_ws(s.last()) {
            lemma_trim_end_prefix(s.drop_last());
        }
        assert(b == s);
        assert(c1 == s);
        assert(c2 == s);
        assert(c3 == s);
        assert(c4 == s);
        assert(d == s);
    }
}

/// The stem that the cleaning rounds settle on is left at its length by
/// one more round.
proof fn lemma_rounds_settle(s: Seq<char>)
    ensures
        clean_round(clean_rounds(s)).len() >= clean_rounds(s).len(),
    decreases s.len(),
{
    let s2 = clean_round(s);
    if s2.len() < s.len() {
        lemma_rounds_settle(s2);
    }
}

/// No whitespace in `s`.
pub open spec fn ws_free(s: Seq<char>) -> bool {
    forall|i: int| 0 <= i < s.len() ==> !is_ws(#[trigger] s[i])
}

/// `p` is empty or ends in whitespace.
pub open spec fn ws_bounded(p: Seq<char>) -> bool {
    p.len() == 0 || is_ws(p.last())
}

proof fn lemma_ends_with_transfer(x: Seq<char>, y: Seq<char>, sx: Seq<char>, sy: Seq<char>, t: Seq<char>, suf: Seq<char>)
    requires
        x == sx + t,
        y == sy + t,
        ws_bounded(sx),
        ws_free(suf),
        ends_with(x, suf),
    ensures
        ends_with(y, suf),
{
    if suf.len() <= t.len() {
        assert(x.skip(x.len() - suf.len()) =~= t.skip(t.len() - suf.len()));
        assert(y.skip(y.len() - suf.len()) =~= t.skip(t.len() - suf.len()));
    } else {
        let k = suf.len() - t.len() - 1;
        assert(x.skip(x.len() - suf.len())[k] == x[x.len() - t.len() - 1]);
        assert(x[x.len() - t.len() - 1] == sx.last());
        assert(!is_ws(suf[k]));
    }
}

proof fn lemma_markers_ws_free()
    ensures
        ws_free("副本"@),
        ws_free("copy"@),
        ws_free("Copy"@),
        ws_free("COPY"@),
{
    reveal_strlit("副本");
    reveal_strlit("copy");
    reveal_strlit("Copy");
    reveal_strlit("COPY");
}

proof fn lemma_last_open_paren_concat(p: Seq<char>, z: Seq<char>)
    ensures
        last_open_paren(p + z) == match last_open_paren(z) {
            Some(j) => Some(p.len() + j),
            None => last_open_paren(p),
        },
    decreases z.len(),
{
    if z.len() == 0 {
        assert(p + z =~= p);
    } else {
        assert((p + z).drop_last() =~= p + z.drop_last());
        lemma_last_open_paren_concat(p, z.drop_last());
    }
}

proof fn lemma_stamp_run_concat(p: Seq<char>, t: Seq<char>)
    requires
        ws_bounded(p),
    ensures
        stamp_run(p + t) == stamp_run(t),
    decreases t.len(),
{
    if t.len() == 0 {
        assert(p + t =~= p);
    } else {
        assert((p + t).drop_last() =~= p + t.drop_last());
        assert((p + t).last() == t.last());
        lemma_stamp_run_concat(p, t.drop_last());
    }
}

proof fn lemma_cut_counter_transfer(x: Seq<char>, y: Seq<char>, sx: Seq<char>, sy: Seq<char>, t: Seq<char>)
    requires
        x == sx + t,
        y == sy + t,
        t.len() > 0,
        ws_bounded(sx),
        cut_counter(y) == y,
    ensures
        cut_counter(x) == x,
{
    if x.last() == ')' || x.last() == '）' {
        let z = t.drop_last();
        let rx = x.drop_last();
        let ry = y.drop_last();
        assert(rx =~= sx + z);
        assert(ry =~= sy + z);
        assert(x.last() == t.last() && y.last() == t.last());
        lemma_last_open_paren_concat(sx, z);
        lemma_last_open_paren_concat(sy, z);
        if last_open_paren(rx) is Some {
            let o = last_open_paren(rx)->0;
            let inner = rx.skip(o as int);
            lemma_last_open_paren_range(rx);
            if inner.len() > 1 && crate::text::all_digits(inner.drop_first()) {
                if o < sx.len() {
                    let k = sx.len() - 1 - o;
                    assert(inner[k] == sx.last());
                    if k > 0 {
                        assert(inner.drop_first()[k - 1] == inner[k]);
                    }
                    assert(false);
                }
                lemma_last_open_paren_range(sx);
                assert(last_open_paren(z) is Some);
                let j = last_open_paren(z)->0;
                assert(o == sx.len() + j);
                assert(inner =~= z.skip(j as int));
                assert(ry.skip(sy.len() + j as int) =~= z.skip(j as int));
                lemma_cut_counter_len(y);
                lemma_trim_end_prefix(ry.take(sy.len() + j as int));
                assert(cut_counter(y).len() < y.len());
            }
        }
    }
}

proof fn lemma_cut_date_transfer(x: Seq<char>, y: Seq<char>, sx: Seq<char>, sy: Seq<char>, t: Seq<char>)
    requires
        x == sx + t,
        y == sy + t,
        ws_bounded(sx),
        ws_bounded(sy),
        sx.len() > 0 ==> sy.len() > 0,
        cut_date_stamp(y) == y,
    ensures
        cut_date_stamp(x) == x,
{
    lemma_stamp_run_concat(sx, t);
    lemma_stamp_run_concat(sy, t);
    lemma_stamp_run_le(t);
    let n = stamp_run(t);
    assert(x.skip(x.len() - n) =~= t.skip(t.len() - n));
    assert(y.skip(y.len() - n) =~= t.skip(t.len() - n));
    if n > 0 && 6 <= digit_count(x.skip(x.len() - n)) <= 8 && x.len() - n > 0 {
        lemma_trim_end_prefix(y.take(y.len() - n));
        assert(cut_date_stamp(y).len() < y.len());
    }
}

/// Two stems that end in the same whitespace-free tail, each preceded by
/// nothing or by whitespace (the first one only if the second one is):
/// when a round leaves the second one alone, it leaves the first alone.
proof fn lemma_round_clean_transfer(x: Seq<char>, y: Seq<char>, sx: Seq<char>, sy: Seq<char>, t: Seq<char>)
    requires
        x == sx + t,
        y == sy + t,
        t.len() > 0,
        ws_free(t),
        ws_bounded(sx),
        ws_bounded(sy),
        sx.len() > 0 ==> sy.len() > 0,
        round_clean(y),
    ensures
        round_clean(x),
{
    assert(x.last() == t.last() && y.last() == t.last());
    lemma_markers_ws_free();
    if ends_with(x, "副本"@) {
        lemma_ends_with_transfer(x, y, sx, sy, t, "副本"@);
    }
    if ends_with(x, "copy"@) {
        lemma_ends_with_transfer(x, y, sx, sy, t, "copy"@);
    }
    if ends_with(x, "Copy"@) {
        lemma_ends_with_transfer(x, y, sx, sy, t, "Copy"@);
    }
    if ends_with(x, "COPY"@) {
        lemma_ends_with_transfer(x, y, sx, sy, t, "COPY"@);
    }
    lemma_cut_counter_transfer(x, y, sx, sy, t);
    lemma_cut_date_transfer(x, y, sx, sy, t);
}

/// The longest whitespace-free tail of `s`.
pub open spec fn ws_tail(s: Seq<char>) -> Seq<char>
    decreases s.len(),
{
    if s.len() == 0 || is_ws(s.last()) {
        seq![]
    } else {
        ws_tail(s.drop_last()).push(s.last())
    }
}

proof fn lemma_ws_tail(s: Seq<char>)
    ensures
        ws_tail(s).len() <= s.len(),
        ws_free(ws_tail(s)),
        s =~= s.take(s.len() - ws_tail(s).len()) + ws_tail(s),
        ws_bounded(s.take(s.len() - ws_tail(s).len())),
        s.len() > 0 && !is_ws(s.last()) ==> ws_tail(s).len() > 0,
    decreases s.len(),
{
    if s.len() == 0 || is_ws(s.last()) {
        assert(s.take(s.len() as int) =~= s);
        assert(s.take(s.len() as int) + Seq::<char>::empty() =~= s);
    } else {
        let p = s.drop_last();
        lemma_ws_tail(p);
        let t = ws_tail(p);
        assert(s.take(s.len() - ws_tail(s).len()) =~= p.take(p.len() - t.len()));
        assert(ws_tail(s) == t.push(s.last()));
        assert(s =~= p.push(s.last()));
        assert(p.take(p.len() - t.len()) + t.push(s.last()) =~= (p.take(p.len() - t.len()) + t).push(
            s.last(),
        ));
        assert forall|i: int| 0 <= i < ws_tail(s).len() implies !is_ws(#[trigger] ws_tail(s)[i]) by {
            if i < t.len() {
                assert(ws_tail(s)[i] == t[i]);
            }
        }
    }
}

proof fn lemma_squeeze_concat(p: Seq<char>, t: Seq<char>)
    requires
        ws_free(t),
    ensures
        squeeze_ws(p + t) == squeeze_ws(p) + t,
    decreases t.len(),
{
    if t.len() == 0 {
        assert(p + t =~= p);
        assert(squeeze_ws(p) + t =~= squeeze_ws(p));
    } else {
        assert((p + t).drop_last() =~= p + t.drop_last());
        assert((p + t).last() == t.last());
        assert(!is_ws(t[t.len() - 1]));
        lemma_squeeze_concat(p, t.drop_last());
        assert(squeeze_ws(p) + t =~= (squeeze_ws(p) + t.drop_last()).push(t.last()));
    }
}

proof fn lemma_squeeze_fixed(s: Seq<char>)
    requires
        forall|i: int| 0 <= i < s.len() && is_ws(#[trigger] s[i]) ==> s[i] == ' ',
        forall|i: int| 0 < i < s.len() && is_ws(#[trigger] s[i]) ==> !is_ws(s[i - 1]),
    ensures
        squeeze_ws(s) == s,
    decreases s.len(),
{
    if s.len() > 0 {
        let p = s.drop_last();
        assert forall|i: int| 0 <= i < p.len() && is_ws(#[trigger] p[i]) implies p[i] == ' ' by {
            assert(p[i] == s[i]);
        }
        assert forall|i: int| 0 < i < p.len() && is_ws(#[trigger] p[i]) implies !is_ws(p[i - 1]) by {
            assert(p[i] == s[i] && p[i - 1] == s[i - 1]);
        }
        lemma_squeeze_fixed(p);
        if is_ws(s.last()) {
            assert(s.last() == s[s.len() - 1]);
            if p.len() > 0 {
                assert(!is_ws(s[s.len() - 2]));
                assert(p.last() == s[s.len() - 2]);
            }
            assert(p.push(' ') =~= s);
        } else {
            assert(p.push(s.last()) =~= s);
        }
    }
}

pub(crate) proof fn lemma_trim_start_prefix_ws(s: Seq<char>)
    ensures
        forall|i: int| 0 <= i < s.len() - trim_start(s).len() ==> is_ws(#[trigger] s[i]),
    decreases s.len(),
{
    lemma_trim_start_suffix(s);
    if s.len() > 0 && is_ws(s[0]) {
        lemma_trim_start_prefix_ws(s.drop_first());
        lemma_trim_start_suffix(s.drop_first());
        assert forall|i: int| 0 <= i < s.len() - trim_start(s).len() implies is_ws(#[trigger] s[i]) by {
            if i > 0 {
                assert(s[i] == s.drop_first()[i - 1]);
            }
        }
    }
}

proof fn lemma_round_clean_fixed(s: Seq<char>)
    requires
        round_clean(s),
    ensures
        clean_round(s) == s,
{
    if s.len() > 0 {
        assert(!is_stem_noise(s.last()));
        assert(!is_ws(s.last()));
    }
    assert(trim_noise(s) == s);
    assert(trim_end(s) == s);
}

/// Cleaning a group name made from a file stem changes nothing more: the
/// name is a fixed point of the cleaning.
pub proof fn law_clean_stem_is_settled(stem: Seq<char>)
    ensures
        clean_stem(clean_stem(stem)) == clean_stem(stem),
{
    let r = clean_rounds(trim(stem));
    lemma_rounds_settle(trim(stem));
    lemma_round_len(r);
    let t = trim(r);
    let c = clean_stem(stem);
    lemma_squeeze(t);
    law_clean_stem_is_compressed(stem);
    if c.len() == 0 {
        assert(trim(c) =~= c);
        assert(clean_round(c).len() >= c.len());
        assert(clean_rounds(c) == c);
        assert(squeeze_ws(c) == c);
    } else {
        // the settled stem, its trimmed form and their common tail
        assert(r.len() > 0) by {
            lemma_trim_start_suffix(r);
            lemma_trim_end_prefix(trim_start(r));
        }
        lemma_trim_start_suffix(r);
        lemma_trim_start_prefix_ws(r);
        let ts = trim_start(r);
        assert(ts.last() == r.last());
        assert(trim_end(ts) == ts);
        assert(t == ts);
        let lead = r.take(r.len() - ts.len());
        assert(r =~= lead + t);
        assert(ws_bounded(lead)) by {
            if lead.len() > 0 {
                assert(lead.last() == r[lead.len() - 1]);
            }
        }
        lemma_ws_tail(t);
        let b = ws_tail(t);
        let tp = t.take(t.len() - b.len());
        lemma_squeeze_concat(tp, b);
        lemma_squeeze(tp);
        let x = squeeze_ws(tp);
        let y = lead + tp;
        assert(c == x + b);
        assert(r =~= y + b);
        assert(ws_bounded(x));
        assert(ws_bounded(y)) by {
            if tp.len() > 0 {
                assert(y.last() == tp.last());
            }
        }
        lemma_round_clean_transfer(c, r, x, y, b);
        lemma_round_clean_fixed(c);
        assert(clean_rounds(c) == c);
        assert(!is_ws(c[0]) && !is_ws(c.last())) by {
            if is_ws(c[0]) {
                assert(false);
            }
            if is_ws(c[c.len() - 1]) {
                assert(false);
            }
        }
        assert(trim_start(c) == c);
        assert(trim_end(c) == c);
        assert(trim(c) == c);
        lemma_squeeze_fixed(c);
    }
}

/// `a` is a prefix of `b`.
pub open spec fn is_prefix(a: Seq<char>, b: Seq<char>) -> bool {
    a.len() <= b.len() && b.take(a.len() as int) == a
}

proof fn lemma_prefix_trans(a: Seq<char>, b: Seq<char>, c: Seq<char>)
    requires
        is_prefix(a, b),
        is_prefix(b, c),
    ensures
        is_prefix(a, c),
{
    assert(c.take(a.len() as int) =~= c.take(b.len() as int).take(a.len() as int));
}

proof fn lemma_trim_noise_prefix(s: Seq<char>)
    ensures
        is_prefix(trim_noise(s), s),
    decreases s.len(),
{
    if s.len() > 0 && is_stem_noise(s.last()) {
        lemma_trim_noise_prefix(s.drop_last());
        assert(is_prefix(s.drop_last(), s)) by {
            assert(s.take(s.len() - 1) =~= s.drop_last());
        }
        lemma_prefix_trans(trim_noise(s), s.drop_last(), s);
    } else {
        assert(s.take(s.len() as int) =~= s);
    }
}

proof fn lemma_trim_end_is_prefix(s: Seq<char>)
    ensures
        is_prefix(trim_end(s), s),
{
    lemma_trim_end_prefix(s);
}

proof fn lemma_take_trim_end_prefix(s: Seq<char>, k: int)
    requires
        0 <= k <= s.len(),
    ensures
        is_prefix(trim_end(s.take(k)), s),
{
    lemma_trim_end_is_prefix(s.take(k));
    assert(is_prefix(s.take(k), s)) by {
        assert(s.take(s.take(k).len() as int) =~= s.take(k));
    }
    lemma_prefix_trans(trim_end(s.take(k)), s.take(k), s);
}

proof fn lemma_self_prefix(s: Seq<char>)
    ensures
        is_prefix(s, s),
{
    assert(s.take(s.len() as int) =~= s);
}

proof fn lemma_round_prefix(s: Seq<char>)
    ensures
        is_prefix(clean_round(s), s),
{
    lemma_markers_nonempty();
    let a = trim_noise(s);
    lemma_trim_noise_prefix(s);
    let b = trim_end(a);
    lemma_trim_end_is_prefix(a);
    lemma_prefix_trans(b, a, s);
    let c1 = cut_suffix(b, "副本"@);
    let c2 = cut_suffix(c1, "copy"@);
    let c3 = cut_suffix(c2, "Copy"@);
    let c4 = cut_suffix(c3, "COPY"@);
    lemma_cut_suffix_prefix(b, "副本"@);
    lemma_cut_suffix_prefix(c1, "copy"@);
    lemma_cut_suffix_prefix(c2, "Copy"@);
    lemma_cut_suffix_prefix(c3, "COPY"@);
    lemma_prefix_trans(c1, b, s);
    lemma_prefix_trans(c2, c1, s);
    lemma_prefix_trans(c3, c2, s);
    lemma_prefix_trans(c4, c3, s);
    let d = cut_counter(c4);
    lemma_cut_counter_prefix(c4);
    lemma_prefix_trans(d, c4, s);
    lemma_cut_date_prefix(d);
    lemma_prefix_trans(cut_date_stamp(d), d, s);
}

proof fn lemma_cut_suffix_prefix(s: Seq<char>, suf: Seq<char>)
    ensures
        is_prefix(cut_suffix(s, suf), s),
{
    if ends_with(s, suf) {
        lemma_take_trim_end_prefix(s, s.len() - suf.len());
    } else {
        lemma_self_prefix(s);
    }
}

proof fn lemma_cut_counter_prefix(s: Seq<char>)
    ensures
        is_prefix(cut_counter(s), s),
{
    lemma_self_prefix(s);
    if s.len() > 0 && (s.last() == ')' || s.last() == '）') {
        let rest = s.drop_last();
        match last_open_paren(rest) {
            Some(o) => {
                lemma_last_open_paren_range(rest);
                assert(rest.take(o as int) =~= s.take(o as int));
                lemma_take_trim_end_prefix(s, o as int);
            },
            None => {},
        }
    }
}

proof fn lemma_cut_date_prefix(s: Seq<char>)
    ensures
        is_prefix(cut_date_stamp(s), s),
{
    lemma_self_prefix(s);
    lemma_stamp_run_le(s);
    let n = stamp_run(s);
    if n > 0 {
        lemma_take_trim_end_prefix(s, s.len() - n);
    }
}

proof fn lemma_rounds_prefix(s: Seq<char>)
    ensures
        is_prefix(clean_rounds(s), s),
    decreases s.len(),
{
    let s2 = clean_round(s);
    lemma_round_prefix(s);
    if s2.len() < s.len() {
        lemma_rounds_prefix(s2);
        lemma_prefix_trans(clean_rounds(s2), s2, s);
    } else {
        lemma_self_prefix(s);
    }
}

proof fn lemma_squeeze_prefix(p: Seq<char>, q: Seq<char>)
    ensures
        is_prefix(squeeze_ws(p), squeeze_ws(p + q)),
    decreases q.len(),
{
    if q.len() == 0 {
        assert(p + q =~= p);
        lemma_self_prefix(squeeze_ws(p));
    } else {
        assert((p + q).drop_last() =~= p + q.drop_last());
        lemma_squeeze_prefix(p, q.drop_last());
        let a = squeeze_ws(p + q.drop_last());
        let b = squeeze_ws(p + q);
        assert(b == a || b == a.push(' ') || b == a.push(q.last()));
        assert(is_prefix(a, b)) by {
            assert(b.take(a.len() as int) =~= a);
        }
        lemma_prefix_trans(squeeze_ws(p), a, b);
    }
}

/// A group name made from a file stem only loses trailing noise: it is a
/// prefix of the trimmed stem once the stem's inner whitespace is
/// compressed.
pub proof fn law_clean_stem_is_a_prefix(stem: Seq<char>)
    ensures
        is_prefix(clean_stem(stem), squeeze_ws(trim(stem))),
{
    let t0 = trim(stem);
    let r = clean_rounds(t0);
    lemma_rounds_prefix(t0);
    lemma_trim_ends(stem);
    if r.len() > 0 {
        assert(r[0] == t0[0]);
        assert(trim_start(r) == r);
    } else {
        assert(trim_start(r) == r);
    }
    let t = trim(r);
    lemma_trim_end_is_prefix(r);
    lemma_prefix_trans(t, r, t0);
    assert(t0 =~= t + t0.skip(t.len() as int));
    lemma_squeeze_prefix(t, t0.skip(t.len() as int));
}

} // verus!
