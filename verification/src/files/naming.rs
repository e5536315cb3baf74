//! Output file naming: file-system-safe names, extensions, and the
//! `name_YYMMDD_CODE_draw.EXT` pattern of exported results.

use vstd::prelude::*;

use crate::format::{
    dec, digits, law_digits_injective, lemma_div_smaller, signed_dec, signed_decimal,
};
use crate::text::{chars_of, has_char, string_of, to_uppercase, trim, trim_slice, upper_text};

verus! {

/// Control characters (general category `Cc`: C0 and C1), what
/// `char::is_control` tests.
pub open spec fn is_control(c: char) -> bool {
    (c as u32) <= 0x1F || (0x7F <= (c as u32) && (c as u32) <= 0x9F)
}

/// Characters that no file name may hold on any desktop file system.
pub open spec fn is_illegal(c: char) -> bool {
    c == '/' || c == '\\' || c == ':' || c == '*' || c == '?' || c == '"' || c == '<' || c
        == '>' || c == '|'
}

/// The character that stands for `c` in a safe file name.
pub open spec fn safe_char(c: char) -> char {
    if is_illegal(c) || is_control(c) {
        '_'
    } else {
        c
    }
}

/// `s` without its trailing dots and whitespace, in any mix.
pub open spec fn trim_end_dots(s: Seq<char>) -> Seq<char>
    decreases s.len(),
{
    if s.len() > 0 && (s.last() == '.' || crate::text::is_ws(s.last())) {
        trim_end_dots(s.drop_last())
    } else {
        s
    }
}

/// `s` without its leading dots.
pub open spec fn trim_start_dots(s: Seq<char>) -> Seq<char>
    decreases s.len(),
{
    if s.len() > 0 && s[0] == '.' {
        trim_start_dots(s.drop_first())
    } else {
        s
    }
}

/// A file-system-safe name: illegal and control characters become `_`,
/// leading whitespace and any trailing mix of dots and whitespace go (a
/// name may not end in a dot or a space), and an empty result is `_`.
pub open spec fn sanitized(name: Seq<char>) -> Seq<char> {
    let t = trim_end_dots(trim(name.map_values(|c: char| safe_char(c))));
    if t.len() == 0 {
        seq!['_']
    } else {
        t
    }
}

proof fn lemma_trim_end_dots_end(s: Seq<char>)
    ensures
        trim_end_dots(s).len() > 0 ==> trim_end_dots(s).last() != '.' && !crate::text::is_ws(
            trim_end_dots(s).last(),
        ),
    decreases s.len(),
{
    if s.len() > 0 && (s.last() == '.' || crate::text::is_ws(s.last())) {
        lemma_trim_end_dots_end(s.drop_last());
    }
}

/// A sanitized name is never empty and never ends in a dot or in
/// whitespace, which Windows does not allow.
pub proof fn law_sanitized_has_no_trailing_dot_or_space(name: Seq<char>)
    ensures
        sanitized(name).len() > 0,
        sanitized(name).last() != '.',
        !crate::text::is_ws(sanitized(name).last()),
{
    lemma_trim_end_dots_end(trim(name.map_values(|c: char| safe_char(c))));
}

/// The upper-case extension written for `ext`: trimmed, leading dots removed,
/// upper-cased, and `JPG` when nothing is left.
pub open spec fn ext_label(ext: Seq<char>) -> Seq<char> {
    let u = upper_text(trim_start_dots(trim(ext)));
    if u.len() == 0 {
        "JPG"@
    } else {
        u
    }
}

/// `s` with every `c` removed.
pub open spec fn without_char(s: Seq<char>, c: char) -> Seq<char>
    decreases s.len(),
{
    if s.len() == 0 {
        s
    } else {
        let r = without_char(s.drop_last(), c);
        if s.last() == c {
            r
        } else {
            r.push(s.last())
        }
    }
}

/// The exported file name `name_DATE_CODE_draw.EXT`, with the name
/// sanitized, the code without hyphens and the extension normalized.
pub open spec fn output_name(
    ref_name: Seq<char>,
    code: Seq<char>,
    date: Seq<char>,
    draw_index: int,
    ext: Seq<char>,
) -> Seq<char> {
    sanitized(ref_name) + seq!['_'] + date + seq!['_'] + without_char(code, '-') + seq!['_']
        + signed_dec(draw_index) + seq!['.'] + ext_label(ext)
}

/// `char::is_control`.
fn is_control_char(c: char) -> (r: bool)
    ensures
        r == is_control(c),
{
    let u = c as u32;
    u <= 0x1F || (0x7F <= u && u <= 0x9F)
}

fn safe(c: char) -> (r: char)
    ensures
        r == safe_char(c),
{
    if c == '/' || c == '\\' || c == ':' || c == '*' || c == '?' || c == '"' || c == '<' || c
        == '>' || c == '|' || is_control_char(c) {
        '_'
    } else {
        c
    }
}

fn trim_end_dots_slice(s: &[char]) -> (r: &[char])
    ensures
        r@ == trim_end_dots(s@),
{
    let mut j: usize = s.len();
    assert(s@.take(s@.len() as int) =~= s@);
    while j > 0 && (s[j - 1] == '.' || crate::text::is_whitespace(s[j - 1]))
        invariant
            j <= s@.len(),
            trim_end_dots(s@) == trim_end_dots(s@.take(j as int)),
        decreases j,
    {
        assert(s@.take(j as int).drop_last() =~= s@.take(j - 1));
        j -= 1;
    }
    let r = &s[0..j];
    assert(r@ =~= s@.take(j as int));
    r
}

fn trim_start_dots_slice(s: &[char]) -> (r: &[char])
    ensures
        r@ == trim_start_dots(s@),
{
    let mut i: usize = 0;
    assert(s@.subrange(0, s@.len() as int) =~= s@);
    while i < s.len() && s[i] == '.'
        invariant
            i <= s@.len(),
            trim_start_dots(s@) == trim_start_dots(s@.subrange(i as int, s@.len() as int)),
        decreases s@.len() - i,
    {
        assert(s@.subrange(i as int, s@.len() as int).drop_first() =~= s@.subrange(
            i + 1,
            s@.len() as int,
        ));
        i += 1;
    }
    let r = &s[i..s.len()];
    assert(r@ =~= s@.subrange(i as int, s@.len() as int));
    r
}

fn sanitized_chars(name: &str) -> (r: Vec<char>)
    ensures
        r@ == sanitized(name@),
{
    let cs = chars_of(name);
    let mut mapped: Vec<char> = Vec::new();
    let mut i: usize = 0;
    while i < cs.len()
        invariant
            i <= cs@.len(),
            cs@ == name@,
            mapped@ =~= cs@.take(i as int).map_values(|c: char| safe_char(c)),
        decreases cs@.len() - i,
    {
        mapped.push(safe(cs[i]));
        i += 1;
    }
    assert(cs@.take(cs@.len() as int) =~= cs@);
    let t = trim_end_dots_slice(trim_slice(mapped.as_slice()));
    if t.len() == 0 {
        let mut v: Vec<char> = Vec::new();
        v.push('_');
        assert(v@ =~= seq!['_']);
        v
    } else {
        let mut v: Vec<char> = Vec::new();
        let mut k: usize = 0;
        while k < t.len()
            invariant
                k <= t@.len(),
                v@ =~= t@.take(k as int),
            decreases t@.len() - k,
        {
            v.push(t[k]);
            k += 1;
        }
        assert(t@.take(t@.len() as int) =~= t@);
        v
    }
}

/// Makes `name` safe as a file name: `/ \ : * ? " < > |` and control
/// characters become `_`, leading whitespace and any trailing mix of dots
/// and whitespace are removed, and an empty result becomes `_`. Other
/// characters (Chinese included) stay.
pub fn sanitize_filename(name: &str) -> (r: String)
    ensures
        r@ == sanitized(name@),
{
    let v = sanitized_chars(name);
    string_of(v.as_slice())
}

fn ext_label_chars(ext: &str) -> (r: Vec<char>)
    ensures
        r@ == ext_label(ext@),
{
    let cs = chars_of(ext);
    let core = trim_start_dots_slice(trim_slice(cs.as_slice()));
    let up = to_uppercase(core);
    let u = chars_of(up.as_str());
    if u.len() == 0 {
        let jpg = "JPG";
        proof {
            reveal_strlit("JPG");
        }
        chars_of(jpg)
    } else {
        u
    }
}

/// Normalizes an extension: trimmed, leading dots removed, upper-cased;
/// `JPG` when nothing is left.
pub fn normalize_ext(ext: &str) -> (r: String)
    ensures
        r@ == ext_label(ext@),
{
    let v = ext_label_chars(ext);
    string_of(v.as_slice())
}

fn without_hyphens(code: &str) -> (r: Vec<char>)
    ensures
        r@ == without_char(code@, '-'),
{
    let cs = chars_of(code);
    let mut v: Vec<char> = Vec::new();
    let mut i: usize = 0;
    while i < cs.len()
        invariant
            i <= cs@.len(),
            cs@ == code@,
            v@ == without_char(cs@.take(i as int), '-'),
        decreases cs@.len() - i,
    {
        assert(cs@.take(i + 1).drop_last() =~= cs@.take(i as int));
        if cs[i] != '-' {
            v.push(cs[i]);
        }
        i += 1;
    }
    assert(cs@.take(cs@.len() as int) =~= cs@);
    v
}

fn append_chars(v: &mut Vec<char>, s: &[char])
    ensures
        final(v)@ == old(v)@ + s@,
{
    let ghost v0 = v@;
    let mut i: usize = 0;
    while i < s.len()
        invariant
            i <= s@.len(),
            v@ =~= v0 + s@.take(i as int),
        decreases s@.len() - i,
    {
        v.push(s[i]);
        i += 1;
    }
    assert(s@.take(s@.len() as int) =~= s@);
}

/// The exported file name `name_YYMMDD_CODE_draw.EXT`, e.g.
/// `productA_260708_DZ0001_2.JPG`: the reference image's name made
/// file-system safe (Chinese kept), the date as given, the code without
/// hyphens, the draw index (so that several accepted draws of one
/// combination never collide), and the normalized upper-case extension.
pub fn output_filename(
    ref_name: &str,
    code: &str,
    date_yymmdd: &str,
    draw_index: i64,
    ext: &str,
) -> (r: String)
    ensures
        r@ == output_name(ref_name@, code@, date_yymmdd@, draw_index as int, ext@),
{
    let mut v = sanitized_chars(ref_name);
    v.push('_');
    let date = chars_of(date_yymmdd);
    append_chars(&mut v, date.as_slice());
    v.push('_');
    let code_chars = without_hyphens(code);
    append_chars(&mut v, code_chars.as_slice());
    v.push('_');
    let draw = signed_decimal(draw_index);
    append_chars(&mut v, draw.as_slice());
    v.push('.');
    let e = ext_label_chars(ext);
    append_chars(&mut v, e.as_slice());
    string_of(v.as_slice())
}

/// `e` is an extension of `path`: it follows a dot that is not the path's
/// first character, and holds neither a dot nor a slash.
pub open spec fn is_extension_of(path: Seq<char>, e: Seq<char>) -> bool {
    &&& !has_char(e, '.')
    &&& !has_char(e, '/')
    &&& exists|i: int|
        #![trigger path.subrange(i, i + e.len())]
        1 <= i && i + e.len() <= path.len() && path[i - 1] == '.' && path.subrange(i, i + e.len())
            == e
}

/// Index of the last `c` in `s`.
pub open spec fn last_index(s: Seq<char>, c: char) -> Option<nat>
    decreases s.len(),
{
    if s.len() == 0 {
        None
    } else if s.last() == c {
        Some((s.len() - 1) as nat)
    } else {
        last_index(s.drop_last(), c)
    }
}

/// The final component of a `/`-separated path: what follows its last `/`.
pub open spec fn final_component(path: Seq<char>) -> Seq<char> {
    match last_index(path, '/') {
        Some(i) => path.skip(i + 1 as int),
        None => path,
    }
}

/// A path whose final component is read the same way on every platform:
/// no `\` or `:` (Windows separators and drive prefixes), and a final
/// component after the last `/` that is neither empty, `.` nor `..`.
pub open spec fn plain_path(path: Seq<char>) -> bool {
    &&& !has_char(path, '\\')
    &&& !has_char(path, ':')
    &&& final_component(path).len() > 0
    &&& final_component(path) != "."@
    &&& final_component(path) != ".."@
}

/// The extension of a file name: the text after its last dot, when that
/// dot is not the name's first character.
pub open spec fn name_extension(name: Seq<char>) -> Option<Seq<char>> {
    match last_index(name, '.') {
        Some(i) => if i >= 1 {
            Some(name.skip(i + 1 as int))
        } else {
            None
        },
        None => None,
    }
}

/// `Path::extension` of `path` as text. Trusted: for a plain path it is
/// `name_extension` of the final component, as std documents it (the text
/// after the last dot of the file name, none when the name has no dot or
/// only a leading one); for any path, an extension it gives follows a dot
/// inside `path` and holds no dot and no `/`, and a path without a dot has
/// none.
#[verifier::external_body]
fn path_extension(path: &str) -> (r: Option<String>)
    ensures
        plain_path(path@) ==> match r {
            Some(e) => name_extension(final_component(path@)) == Some(e@),
            None => name_extension(final_component(path@)) is None,
        },
        r matches Some(e) ==> is_extension_of(path@, e@),
        !has_char(path@, '.') ==> r is None,
{
    std::path::Path::new(path).extension().and_then(|s| s.to_str()).map(|s| s.to_owned())
}

/// The output extension for an extension found on a result file, `jpg`
/// when there was none, normalized as `normalize_ext` does.
pub fn ext_label_for(ext: Option<&str>) -> (r: String)
    ensures
        r@ == ext_label(
            match ext {
                Some(e) => e@,
                None => "jpg"@,
            },
        ),
{
    match ext {
        Some(e) => normalize_ext(e),
        None => normalize_ext("jpg"),
    }
}

/// The output extension (upper case) of a result file's path: the file
/// name's extension normalized, `JPG` when it has none.
pub fn output_ext_from_path(path: &str) -> (r: String)
    ensures
        plain_path(path@) ==> r@ == ext_label(
            match name_extension(final_component(path@)) {
                Some(e) => e,
                None => "jpg"@,
            },
        ),
        !has_char(path@, '.') ==> r@ == ext_label("jpg"@),
        r@ == ext_label("jpg"@) || exists|e: Seq<char>|
            is_extension_of(path@, e) && r@ == #[trigger] ext_label(e),
{
    let found = path_extension(path);
    match found {
        Some(e) => ext_label_for(Some(e.as_str())),
        None => ext_label_for(None),
    }
}

proof fn lemma_digits_first_not_minus(n: nat, b: nat)
    requires
        2 <= b <= 16,
    ensures
        digits(n, b).len() >= 1,
        digits(n, b)[0] != '-',
    decreases n,
{
    if n >= b {
        lemma_div_smaller(n, b);
        lemma_digits_first_not_minus(n / b, b);
    }
}

/// Different integers have different decimal renderings.
pub proof fn lemma_signed_dec_injective(a: int, b: int)
    requires
        signed_dec(a) == signed_dec(b),
    ensures
        a == b,
{
    if a < 0 {
        lemma_digits_first_not_minus((-a) as nat, 10);
    } else {
        lemma_digits_first_not_minus(a as nat, 10);
    }
    if b < 0 {
        lemma_digits_first_not_minus((-b) as nat, 10);
    } else {
        lemma_digits_first_not_minus(b as nat, 10);
    }
    if a < 0 && b < 0 {
        assert(signed_dec(a).drop_first() =~= dec((-a) as nat));
        assert(signed_dec(b).drop_first() =~= dec((-b) as nat));
        law_digits_injective((-a) as nat, (-b) as nat, 10);
    } else if a >= 0 && b >= 0 {
        law_digits_injective(a as nat, b as nat, 10);
    } else {
        assert(signed_dec(a)[0] != signed_dec(b)[0]);
    }
}

/// Two accepted draws of the same combination never get the same file
/// name: output names that differ only in the draw index are different.
pub proof fn law_draw_index_keeps_names_apart(
    ref_name: Seq<char>,
    code: Seq<char>,
    date: Seq<char>,
    a: int,
    b: int,
    ext: Seq<char>,
)
    requires
        a != b,
    ensures
        output_name(ref_name, code, date, a, ext) != output_name(ref_name, code, date, b, ext),
{
    let p = sanitized(ref_name) + seq!['_'] + date + seq!['_'] + without_char(code, '-') + seq![
        '_',
    ];
    let tail = seq!['.'] + ext_label(ext);
    let na = output_name(ref_name, code, date, a, ext);
    let nb = output_name(ref_name, code, date, b, ext);
    assert(na =~= p + signed_dec(a) + tail);
    assert(nb =~= p + signed_dec(b) + tail);
    if na == nb {
        let la = signed_dec(a).len();
        let lb = signed_dec(b).len();
        assert(la == lb);
        assert(na.subrange(p.len() as int, (p.len() + la) as int) =~= signed_dec(a));
        assert(nb.subrange(p.len() as int, (p.len() + lb) as int) =~= signed_dec(b));
        lemma_signed_dec_injective(a, b);
    }
}

/// The name tried for a file moved into the trash when its own name is
/// taken: `stem_n.ext`, or `stem_n` without an extension.
pub open spec fn trash_name(stem: Seq<char>, ext: Seq<char>, n: nat) -> Seq<char> {
    if ext.len() == 0 {
        stem + seq!['_'] + dec(n)
    } else {
        stem + seq!['_'] + dec(n) + seq!['.'] + ext
    }
}

/// The `n`-th alternative name of a file moved into the trash; the stem
/// defaults to `file` and the extension to none.
pub fn trash_candidate(stem: Option<&str>, ext: Option<&str>, n: u64) -> (r: String)
    ensures
        r@ == trash_name(
            match stem {
                Some(s) => s@,
                None => "file"@,
            },
            match ext {
                Some(e) => e@,
                None => Seq::empty(),
            },
            n as nat,
        ),
{
    let mut v = match stem {
        Some(s) => chars_of(s),
        None => chars_of("file"),
    };
    v.push('_');
    let digits = crate::format::decimal(n as u128);
    append_chars(&mut v, digits.as_slice());
    let e = match ext {
        Some(e) => chars_of(e),
        None => Vec::new(),
    };
    if e.len() > 0 {
        v.push('.');
        append_chars(&mut v, e.as_slice());
    }
    string_of(v.as_slice())
}

/// Alternative trash names with different numbers never coincide, so the
/// search for a free name always moves on.
pub proof fn law_trash_names_differ(stem: Seq<char>, ext: Seq<char>, a: nat, b: nat)
    requires
        a != b,
    ensures
        trash_name(stem, ext, a) != trash_name(stem, ext, b),
{
    let p = stem + seq!['_'];
    let tail = if ext.len() == 0 {
        Seq::<char>::empty()
    } else {
        seq!['.'] + ext
    };
    let na = trash_name(stem, ext, a);
    let nb = trash_name(stem, ext, b);
    assert(na =~= p + dec(a) + tail);
    assert(nb =~= p + dec(b) + tail);
    if na == nb {
        let la = dec(a).len();
        let lb = dec(b).len();
        assert(la == lb);
        assert(na.subrange(p.len() as int, (p.len() + la) as int) =~= dec(a));
        assert(nb.subrange(p.len() as int, (p.len() + lb) as int) =~= dec(b));
        law_digits_injective(a, b, 10);
    }
}

} // verus!
