//! The digest as text: lowercase hexadecimal, two digits per byte.
use vstd::prelude::*;
use crate::hasher::{digest, EvanHash};
use crate::HASH_SIZE;

verus! {

/// The lowercase hexadecimal digit of `v`, for `v < 16`.
pub open spec fn hex_digit(v: u8) -> char
    recommends
        v < 16,
{
    seq!['0', '1', '2', '3', '4', '5', '6', '7', '8', '9', 'a', 'b', 'c', 'd', 'e', 'f'][v as int]
}

/// `b` written as lowercase hexadecimal: byte `i` becomes the digits at
/// positions `2i` (high four bits) and `2i + 1` (low four bits).
pub open spec fn hex_of(b: Seq<u8>) -> Seq<char> {
    Seq::new(
        2 * b.len(),
        |i: int|
            if i % 2 == 0 {
                hex_digit(b[i / 2] >> 4u8)
            } else {
                hex_digit(b[i / 2] & 0x0fu8)
            },
    )
}

/// Relies on hex::encode: each byte becomes two lowercase hexadecimal
/// digits, the high four bits first.
#[verifier::external_body]
fn encode_hex(b: &[u8; HASH_SIZE]) -> (r: String)
    ensures
        r@ == hex_of(b@),
{
    hex::encode(b)
}

/// A digest as sixteen lowercase hexadecimal digits.
pub fn digest_hex(d: &[u8; HASH_SIZE]) -> (r: String)
    ensures
        r@ == hex_of(d@),
        r@.len() == 2 * HASH_SIZE,
{
    encode_hex(d)
}

/// The digest of `data` as sixteen lowercase hexadecimal digits.
pub fn hash_hex(data: &[u8]) -> (r: String)
    ensures
        r@ == hex_of(digest(data@)),
        r@.len() == 2 * HASH_SIZE,
{
    let d = EvanHash::hash(data);
    digest_hex(&d)
}

} // verus!
