//! Trusted boundary around the SHA-256 primitive and hex decoding.
//!
//! The digest itself is named, not restated: [`sha_hex_of`] stands for the
//! lowercase hex form of the SHA-256 digest of a string, and the decoding
//! of hex digit pairs back into bytes is specified exactly.

use vstd::prelude::*;

verus! {

/// The 64-character lowercase hex encoding of the SHA-256 digest of the
/// UTF-8 bytes of a string: a function of the characters alone.
pub uninterp spec fn sha_hex_of(s: Seq<char>) -> Seq<char>;

/// The value of one lowercase hex digit; 16 marks a non-digit.
pub open spec fn hex_digit_val(c: char) -> nat {
    if c == '0' {
        0
    } else if c == '1' {
        1
    } else if c == '2' {
        2
    } else if c == '3' {
        3
    } else if c == '4' {
        4
    } else if c == '5' {
        5
    } else if c == '6' {
        6
    } else if c == '7' {
        7
    } else if c == '8' {
        8
    } else if c == '9' {
        9
    } else if c == 'a' {
        10
    } else if c == 'b' {
        11
    } else if c == 'c' {
        12
    } else if c == 'd' {
        13
    } else if c == 'e' {
        14
    } else if c == 'f' {
        15
    } else {
        16
    }
}

/// Whether `c` is a lowercase hex digit.
pub open spec fn is_hex_digit(c: char) -> bool {
    hex_digit_val(c) < 16
}

/// Whether a string is an even-length run of lowercase hex digits.
pub open spec fn valid_lower_hex(s: Seq<char>) -> bool {
    s.len() % 2 == 0 && (forall|i: int| 0 <= i < s.len() ==> is_hex_digit(#[trigger] s[i]))
}

/// The bytes spelled by consecutive pairs of hex digits.
pub open spec fn hex_pair_bytes(s: Seq<char>) -> Seq<u8> {
    Seq::new(s.len() / 2, |i: int| (hex_digit_val(s[2 * i]) * 16 + hex_digit_val(s[2 * i + 1])) as u8)
}

/// Relies on `sha256::digest` for `&str`: the result is the hex encoding
/// of the 32-byte SHA-256 digest of the string's UTF-8 bytes, so it is 64
/// lowercase hex characters and depends on the input characters alone.
#[verifier::external_body]
pub fn sha_hex(message: &str) -> (r: String)
    ensures
        r@ == sha_hex_of(message@),
        r@.len() == 64,
        forall|i: int| 0 <= i < r@.len() ==> is_hex_digit(#[trigger] r@[i]),
{
    sha256::digest(message)
}

/// Relies on `hex::decode`: an even-length string of hex digits decodes to
/// the bytes its digit pairs spell; other inputs are rejected.
#[verifier::external_body]
pub fn decode_hex(s: &str) -> (r: Option<Vec<u8>>)
    ensures
        r matches Some(v) ==> (valid_lower_hex(s@) ==> v@ == hex_pair_bytes(s@)),
        r is None ==> !valid_lower_hex(s@),
{
    match hex::decode(s) {
        Ok(v) => Some(v),
        Err(_) => None,
    }
}

} // verus!
