//! Lowercase hex encoding of byte strings, as used for addresses.
//!
//! Addresses arrive as raw bytes and are keyed throughout the library by
//! their lowercase hex form. `hex_of` is the mathematical statement of that
//! encoding; the executable encoding is done by the `hex` crate.
use vstd::prelude::*;

verus! {

/// The lowercase hex digit for a nibble value.
pub open spec fn hex_digit(n: u8) -> char
    recommends
        n < 16,
{
    if n < 10 {
        ((n + 48) as u8) as char
    } else {
        ((n + 87) as u8) as char
    }
}

/// The two hex digits of one byte, high nibble first.
pub open spec fn byte_hex(b: u8) -> Seq<char> {
    seq![hex_digit(b / 16), hex_digit(b % 16)]
}

/// Lowercase hex encoding of a byte string: two digits per byte, in order.
pub open spec fn hex_of(bs: Seq<u8>) -> Seq<char>
    decreases bs.len(),
{
    if bs.len() == 0 {
        Seq::empty()
    } else {
        byte_hex(bs[0]) + hex_of(bs.drop_first())
    }
}

/// Relies on `hex::encode`: each input byte becomes two lowercase hex
/// digits, high nibble first, from the table "0123456789abcdef".
#[verifier::external_body]
pub(crate) fn encode_hex(bytes: &Vec<u8>) -> (r: String)
    ensures
        r@ == hex_of(bytes@),
{
    hex::encode(bytes)
}

} // verus!
