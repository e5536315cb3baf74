//! Public codes of numbered items: `PREFIX-0001`.

use vstd::prelude::*;

use crate::format::{dec, decimal, pad_zeros, zero_pad};
use crate::text::{chars_of, string_of};

verus! {

/// `{:04}` of an integer: at least four characters, zero-padded after the
/// sign.
pub open spec fn four_digits(n: int) -> Seq<char> {
    if n < 0 {
        seq!['-'] + zero_pad(dec((-n) as nat), 3)
    } else {
        zero_pad(dec(n as nat), 4)
    }
}

/// The public code `PREFIX-NNNN` of number `number` under `prefix`.
pub open spec fn code_text(prefix: Seq<char>, number: int) -> Seq<char> {
    prefix + seq!['-'] + four_digits(number)
}

/// Formats a number as its public code, e.g. `DZ-0001`; numbers of five
/// digits and more are written in full.
pub fn format_code(prefix: &str, number: i64) -> (r: String)
    ensures
        r@ == code_text(prefix@, number as int),
{
    let mut v = chars_of(prefix);
    v.push('-');
    let mut digits = if number < 0 {
        let m: u128 = if number == i64::MIN {
            0x8000_0000_0000_0000u128
        } else {
            (-number) as u128
        };
        let mut s: Vec<char> = Vec::new();
        s.push('-');
        let mut body = pad_zeros(decimal(m), 3);
        let ghost b = body@;
        s.append(&mut body);
        assert(s@ =~= seq!['-'] + b);
        s
    } else {
        pad_zeros(decimal(number as u128), 4)
    };
    v.append(&mut digits);
    string_of(v.as_slice())
}

} // verus!
