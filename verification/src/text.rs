//! Text conversions at the boundary of the verified logic: UTF-8 decoding,
//! Unicode uppercasing, and the little-endian byte image of a signed word.
use vstd::prelude::*;
use vstd::utf8::{decode_utf8, valid_utf8};

verus! {

/// What Unicode uppercasing yields for a character sequence.
pub uninterp spec fn upper_of(s: Seq<char>) -> Seq<char>;

/// Relies on `str::to_uppercase`: its result is a function of the characters
/// alone, given here the name `upper_of`.
#[verifier::external_body]
pub fn to_upper(s: &str) -> (r: String)
    ensures
        r@ == upper_of(s@),
{
    s.to_uppercase()
}

/// Relies on `String::from_utf8` by way of `str::from_utf8`: it succeeds
/// exactly on valid UTF-8 and yields the decoded characters.
#[verifier::external_body]
pub fn utf8_to_string(bytes: &[u8]) -> (r: Option<String>)
    ensures
        (match r {
            Some(s) => valid_utf8(bytes@) && s@ == decode_utf8(bytes@),
            None => !valid_utf8(bytes@),
        }),
{
    match std::str::from_utf8(bytes) {
        Ok(s) => Some(s.to_string()),
        Err(_) => None,
    }
}

/// The unsigned word with the same two's-complement bit pattern as `x`.
pub open spec fn two_complement_u64(x: i64) -> u64 {
    if x >= 0 {
        x as u64
    } else {
        (x + 0x1_0000_0000_0000_0000) as u64
    }
}

/// The little-endian byte image of a signed 64-bit word.
pub open spec fn i64_le_bytes(x: i64) -> Seq<u8> {
    vstd::bytes::spec_u64_to_le_bytes(two_complement_u64(x))
}

/// Relies on `i64::to_le_bytes`: the little-endian bytes of the value's
/// two's-complement memory representation.
#[verifier::external_body]
pub fn le_bytes_of_i64(x: i64) -> (r: Vec<u8>)
    ensures
        r@ == i64_le_bytes(x),
{
    x.to_le_bytes().to_vec()
}

} // verus!
