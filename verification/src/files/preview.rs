//! Names of cached preview thumbnails.

use std::collections::hash_map::DefaultHasher;
use std::hash::{Hash, Hasher};
use vstd::prelude::*;

use crate::format::{hex, hexadecimal, pad_zeros, zero_pad};
use crate::text::{chars_of, string_of};

verus! {

/// What `DefaultHasher::new()` gives after hashing the path text, the
/// modification time in nanoseconds and the size, in that order.
pub uninterp spec fn cache_hash(path: Seq<char>, mtime_nanos: u128, len: u64) -> u64;

/// Hashes the three parts of a cache key. Trusted: the result is
/// `cache_hash` of them (a fresh `DefaultHasher` always starts from the
/// same keys).
#[verifier::external_body]
fn hash_cache_parts(path: &str, mtime_nanos: u128, len: u64) -> (h: u64)
    ensures
        h == cache_hash(path@, mtime_nanos, len),
{
    let mut hasher = DefaultHasher::new();
    path.hash(&mut hasher);
    mtime_nanos.hash(&mut hasher);
    len.hash(&mut hasher);
    hasher.finish()
}

/// `{hash:016x}.jpg`.
pub open spec fn cache_name(hash: u64) -> Seq<char> {
    zero_pad(hex(hash as nat), 16) + ".jpg"@
}

/// The cache file name of a source image, from its (canonical) path, its
/// modification time in nanoseconds and its size: a file rewritten within
/// the same second with the same size still gets a new name.
pub fn cache_file_name(path: &str, mtime_nanos: u128, len: u64) -> (r: String)
    ensures
        r@ == cache_name(cache_hash(path@, mtime_nanos, len)),
{
    let h = hash_cache_parts(path, mtime_nanos, len);
    let mut v = pad_zeros(hexadecimal(h as u128), 16);
    let ghost a = v@;
    let mut tail = chars_of(".jpg");
    let ghost b = tail@;
    v.append(&mut tail);
    assert(v@ =~= a + b);
    string_of(v.as_slice())
}

} // verus!
