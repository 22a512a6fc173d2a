//! Identifiers derived from paths and from random bytes.
use vstd::prelude::*;
use std::hash::BuildHasher;
use crate::text::{hex_fixed, push_hex_fixed, string_from_chars, chars_of};

verus! {

/// The hash that `std::collections::hash_map::DefaultHasher::new()` gives a string.
pub uninterp spec fn default_str_hash(s: Seq<char>) -> u64;

/// Hashes `s` with a fresh `DefaultHasher` (fixed keys, so the same string always gives the
/// same value within one standard library).
#[verifier::external_body]
fn hash_str(s: &str) -> (h: u64)
    ensures
        h == default_str_hash(s@),
{
    std::hash::BuildHasherDefault::<std::collections::hash_map::DefaultHasher>::default().hash_one(s)
}

/// `"{prefix}-{hash:016x}"`.
pub open spec fn hashed_id(prefix: Seq<char>, key: Seq<char>) -> Seq<char> {
    prefix + seq!['-'] + hex_fixed(default_str_hash(key) as nat, 16)
}

/// `prefix`, a dash, and the 16-digit lower-case hexadecimal `DefaultHasher` hash of `key`.
pub fn hashed_id_for(prefix: &str, key: &str) -> (id: String)
    ensures
        id@ == hashed_id(prefix@, key@),
{
    let hash = hash_str(key);
    let mut out = chars_of(prefix);
    out.push('-');
    push_hex_fixed(&mut out, hash, 16);
    proof {
        assert(out@ =~= hashed_id(prefix@, key@));
    }
    string_from_chars(out.as_slice())
}

} // verus!
