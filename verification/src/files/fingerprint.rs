//! The content fingerprint that tells "the same file" apart when images are
//! imported: the byte count in hexadecimal, a dash, and the 64-bit SipHash
//! of the bytes as sixteen hexadecimal digits.

use std::collections::hash_map::DefaultHasher;
use std::hash::{Hash, Hasher};
use vstd::prelude::*;

use crate::format::{
    digit_char, digits, hex, hexadecimal, law_digits_injective, lemma_div_smaller, pad_zeros,
    zero_pad,
};
use crate::text::string_of;

verus! {

/// What `DefaultHasher::new()` gives for the byte slice `bytes` after
/// hashing it and calling `finish`.
pub uninterp spec fn default_hash(bytes: Seq<u8>) -> u64;

/// SipHash of a byte slice with `DefaultHasher::new()`. Trusted: a fresh
/// `DefaultHasher` always starts from the same keys, so the result is a
/// function of the bytes alone.
#[verifier::external_body]
fn hash_of_bytes(bytes: &[u8]) -> (h: u64)
    ensures
        h == default_hash(bytes@),
{
    let mut hasher = DefaultHasher::new();
    bytes.hash(&mut hasher);
    hasher.finish()
}

/// `{len:x}-{hash:016x}`.
pub open spec fn fingerprint_text(len: nat, hash: u64) -> Seq<char> {
    hex(len) + seq!['-'] + zero_pad(hex(hash as nat), 16)
}

/// The fingerprint of a byte sequence.
pub open spec fn fingerprint(bytes: Seq<u8>) -> Seq<char> {
    fingerprint_text(bytes.len(), default_hash(bytes))
}

/// Renders a fingerprint from a byte count and a hash value.
pub fn fingerprint_from(len: usize, hash: u64) -> (r: String)
    ensures
        r@ == fingerprint_text(len as nat, hash),
{
    let mut v = hexadecimal(len as u128);
    v.push('-');
    let mut h = pad_zeros(hexadecimal(hash as u128), 16);
    v.append(&mut h);
    string_of(v.as_slice())
}

/// The content fingerprint of `bytes` (same value as fingerprinting the
/// file they were read from).
pub fn content_hash_bytes(bytes: &[u8]) -> (r: String)
    ensures
        r@ == fingerprint(bytes@),
{
    let h = hash_of_bytes(bytes);
    fingerprint_from(bytes.len(), h)
}

proof fn lemma_digits_have_no_dash(n: nat, b: nat)
    requires
        2 <= b <= 16,
    ensures
        forall|i: int| 0 <= i < digits(n, b).len() ==> digits(n, b)[i] != '-',
    decreases n,
{
    if n >= b {
        lemma_div_smaller(n, b);
        lemma_digits_have_no_dash(n / b, b);
        let p = digits(n / b, b);
        assert(digits(n, b) == p.push(digit_char(n % b)));
        assert forall|i: int| 0 <= i < digits(n, b).len() implies digits(n, b)[i] != '-' by {
            if i < p.len() {
                assert(digits(n, b)[i] == p[i]);
            }
        }
    }
}

/// Equal contents always give equal fingerprints.
pub proof fn law_same_bytes_same_fingerprint(a: Seq<u8>, b: Seq<u8>)
    requires
        a == b,
    ensures
        fingerprint(a) == fingerprint(b),
{
}

/// Contents of different lengths never share a fingerprint.
pub proof fn law_fingerprint_separates_lengths(a: Seq<u8>, b: Seq<u8>)
    requires
        a.len() != b.len(),
    ensures
        fingerprint(a) != fingerprint(b),
{
    let ha = hex(a.len());
    let hb = hex(b.len());
    let fa = fingerprint(a);
    let fb = fingerprint(b);
    lemma_digits_have_no_dash(a.len(), 16);
    lemma_digits_have_no_dash(b.len(), 16);
    if fa == fb {
        assert(fa[ha.len() as int] == '-');
        assert(fb[hb.len() as int] == '-');
        if ha.len() < hb.len() {
            assert(fb[ha.len() as int] == hb[ha.len() as int]);
        } else if hb.len() < ha.len() {
            assert(fa[hb.len() as int] == ha[hb.len() as int]);
        } else {
            assert(fa.take(ha.len() as int) =~= ha);
            assert(fb.take(hb.len() as int) =~= hb);
            law_digits_injective(a.len(), b.len(), 16);
        }
    }
}

} // verus!
