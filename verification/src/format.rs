//! Decimal and hexadecimal rendering of integers (what `format!` prints for
//! `{}`, `{:0N}`, `{:x}` and `{:0Nx}`).

use vstd::prelude::*;

verus! {

/// The digit character for `d < 16` (lower-case hexadecimal letters).
pub open spec fn digit_char(d: nat) -> char {
    if d == 0 {
        '0'
    } else if d == 1 {
        '1'
    } else if d == 2 {
        '2'
    } else if d == 3 {
        '3'
    } else if d == 4 {
        '4'
    } else if d == 5 {
        '5'
    } else if d == 6 {
        '6'
    } else if d == 7 {
        '7'
    } else if d == 8 {
        '8'
    } else if d == 9 {
        '9'
    } else if d == 10 {
        'a'
    } else if d == 11 {
        'b'
    } else if d == 12 {
        'c'
    } else if d == 13 {
        'd'
    } else if d == 14 {
        'e'
    } else {
        'f'
    }
}

fn digit(d: u128) -> (c: char)
    requires
        d < 16,
    ensures
        c == digit_char(d as nat),
{
    if d == 0 {
        '0'
    } else if d == 1 {
        '1'
    } else if d == 2 {
        '2'
    } else if d == 3 {
        '3'
    } else if d == 4 {
        '4'
    } else if d == 5 {
        '5'
    } else if d == 6 {
        '6'
    } else if d == 7 {
        '7'
    } else if d == 8 {
        '8'
    } else if d == 9 {
        '9'
    } else if d == 10 {
        'a'
    } else if d == 11 {
        'b'
    } else if d == 12 {
        'c'
    } else if d == 13 {
        'd'
    } else if d == 14 {
        'e'
    } else {
        'f'
    }
}

/// Digits of `n` in base `b` (2..=16), most significant first, no leading
/// zeros (`0` for zero).
pub open spec fn digits(n: nat, b: nat) -> Seq<char>
    recommends
        2 <= b <= 16,
    decreases n,
{
    if n < b || b < 2 {
        seq![digit_char(n % 16)]
    } else {
        proof {
            lemma_div_smaller(n, b);
        }
        digits(n / b, b).push(digit_char(n % b))
    }
}

/// Decimal rendering.
pub open spec fn dec(n: nat) -> Seq<char> {
    digits(n, 10)
}

/// Lower-case hexadecimal rendering.
pub open spec fn hex(n: nat) -> Seq<char> {
    digits(n, 16)
}

/// Decimal rendering of a signed integer.
pub open spec fn signed_dec(n: int) -> Seq<char> {
    if n < 0 {
        seq!['-'] + dec((-n) as nat)
    } else {
        dec(n as nat)
    }
}

/// `k` zero characters.
pub open spec fn zeros(k: nat) -> Seq<char> {
    Seq::new(k, |i: int| '0')
}

/// `s` left-padded with zeros to at least `w` characters.
pub open spec fn zero_pad(s: Seq<char>, w: nat) -> Seq<char> {
    if s.len() < w {
        zeros((w - s.len()) as nat) + s
    } else {
        s
    }
}

/// Base-`b` digits of `n` (exec `digits`).
pub fn digits_of(n: u128, b: u128) -> (r: Vec<char>)
    requires
        2 <= b <= 16,
    ensures
        r@ == digits(n as nat, b as nat),
        r@.len() >= 1,
    decreases n,
{
    if n < b {
        let mut v = Vec::new();
        v.push(digit(n % 16));
        v
    } else {
        proof {
            lemma_div_smaller(n as nat, b as nat);
        }
        let mut v = digits_of(n / b, b);
        v.push(digit(n % b));
        v
    }
}

/// Decimal rendering of `n`.
pub fn decimal(n: u128) -> (r: Vec<char>)
    ensures
        r@ == dec(n as nat),
{
    digits_of(n, 10)
}

/// Hexadecimal rendering of `n`.
pub fn hexadecimal(n: u128) -> (r: Vec<char>)
    ensures
        r@ == hex(n as nat),
{
    digits_of(n, 16)
}

/// Decimal rendering of a signed integer.
pub fn signed_decimal(n: i64) -> (r: Vec<char>)
    ensures
        r@ == signed_dec(n as int),
{
    if n < 0 {
        let m: u128 = if n == i64::MIN {
            0x8000_0000_0000_0000u128
        } else {
            (-n) as u128
        };
        let d = decimal(m);
        let mut v: Vec<char> = Vec::new();
        v.push('-');
        let ghost v0 = v@;
        let mut dd = d;
        v.append(&mut dd);
        assert(v@ =~= seq!['-'] + dec((-(n as int)) as nat));
        v
    } else {
        decimal(n as u128)
    }
}

/// `s` left-padded with zeros to at least `w` characters.
pub fn pad_zeros(s: Vec<char>, w: usize) -> (r: Vec<char>)
    ensures
        r@ == zero_pad(s@, w as nat),
{
    if s.len() >= w {
        return s;
    }
    let k = w - s.len();
    let mut v: Vec<char> = Vec::new();
    let mut i: usize = 0;
    while i < k
        invariant
            i <= k,
            v@ == zeros(i as nat),
        decreases k - i,
    {
        v.push('0');
        assert(v@ =~= zeros((i + 1) as nat));
        i += 1;
    }
    let mut s2 = s;
    let ghost sv = s2@;
    v.append(&mut s2);
    assert(v@ =~= zeros(k as nat) + sv);
    v
}

proof fn lemma_digits_len(n: nat, b: nat)
    requires
        2 <= b <= 16,
    ensures
        digits(n, b).len() >= 1,
        n >= b ==> digits(n, b).len() >= 2,
    decreases n,
{
    if n >= b {
        lemma_div_smaller(n, b);
        lemma_digits_len(n / b, b);
    }
}

/// Base-`b` renderings of different numbers differ.
pub proof fn law_digits_injective(x: nat, y: nat, b: nat)
    requires
        2 <= b <= 16,
        digits(x, b) == digits(y, b),
    ensures
        x == y,
    decreases x,
{
    lemma_digits_len(x, b);
    lemma_digits_len(y, b);
    if x < b && y < b {
        assert(digits(x, b)[0] == digit_char(x % 16));
        assert(x % 16 == x && y % 16 == y);
        lemma_digit_char_injective(x, y);
    } else if x >= b && y >= b {
        let dx = digits(x, b);
        let dy = digits(y, b);
        assert(dx.last() == digit_char(x % b));
        assert(dy.last() == digit_char(y % b));
        assert(dx.drop_last() =~= digits(x / b, b));
        assert(dy.drop_last() =~= digits(y / b, b));
        lemma_digit_char_injective(x % b, y % b);
        lemma_div_smaller(x, b);
        law_digits_injective(x / b, y / b, b);
        assert(x == (x / b) * b + x % b) by (nonlinear_arith)
            requires
                b > 0,
        ;
        assert(y == (y / b) * b + y % b) by (nonlinear_arith)
            requires
                b > 0,
        ;
    } else {
        assert(digits(x, b).len() != digits(y, b).len());
    }
}

pub proof fn lemma_div_smaller(n: nat, b: nat)
    requires
        n >= b,
        b >= 2,
    ensures
        n / b < n,
{
    assert(n / b < n) by (nonlinear_arith)
        requires
            n >= b,
            b >= 2,
    ;
}

proof fn lemma_digit_char_injective(a: nat, b: nat)
    requires
        a < 16,
        b < 16,
        digit_char(a) == digit_char(b),
    ensures
        a == b,
{
}

} // verus!
