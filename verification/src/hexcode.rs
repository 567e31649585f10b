//! The textual boundary of the pipeline: every ciphertext byte is written as
//! two lowercase hexadecimal digits, and read back case-insensitively.
//! Encoding and decoding call the `hex` crate; their behaviour is stated
//! exactly over the spec functions below, and the round-trip law is proved
//! from those statements alone.

use vstd::prelude::*;

verus! {

/// Why a stream of text could not be decoded back into bytes.
#[derive(Debug, Clone, Copy, PartialEq, Eq, Structural)]
pub enum DecodeError {
    /// The text has an odd number of characters: two digits make one byte.
    OddLength,
    /// A character that is not a hexadecimal digit, with the first position
    /// at which one occurs.
    InvalidHexCharacter { c: u8, index: usize },
}

/// A byte that is an ASCII hexadecimal digit, either case.
pub open spec fn is_hex_digit(c: u8) -> bool {
    (48 <= c <= 57) || (97 <= c <= 102) || (65 <= c <= 70)
}

/// A byte that is a lowercase ASCII hexadecimal digit.
pub open spec fn is_lower_hex_digit(c: u8) -> bool {
    (48 <= c <= 57) || (97 <= c <= 102)
}

/// The value, 0 to 15, of a hexadecimal digit.
pub open spec fn hex_digit_value(c: u8) -> u8
    recommends
        is_hex_digit(c),
{
    if 48 <= c <= 57 {
        (c - 48) as u8
    } else if 97 <= c <= 102 {
        (c - 87) as u8
    } else {
        (c - 55) as u8
    }
}

/// The lowercase digit that stands for a value 0 to 15.
pub open spec fn hex_digit_of(n: u8) -> u8
    recommends
        n < 16,
{
    if n < 10 {
        (48 + n) as u8
    } else {
        (87 + n) as u8
    }
}

/// Text that decodes without error: even length, hexadecimal digits only.
pub open spec fn hex_valid(s: Seq<u8>) -> bool {
    s.len() % 2 == 0 && forall|i: int| 0 <= i < s.len() ==> is_hex_digit(#[trigger] s[i])
}

/// The two-digits-per-byte encoding of a byte stream, high nibble first,
/// lowercase.
pub open spec fn spec_hex_encode(b: Seq<u8>) -> Seq<u8> {
    Seq::new(
        b.len() * 2,
        |k: int|
            if k % 2 == 0 {
                hex_digit_of((b[k / 2] / 16) as u8)
            } else {
                hex_digit_of((b[k / 2] % 16) as u8)
            },
    )
}

/// The byte stream that a stream of hexadecimal digits stands for: each pair
/// of digits, high nibble first, makes one byte.
pub open spec fn spec_hex_decode(s: Seq<u8>) -> Seq<u8>
    recommends
        hex_valid(s),
{
    Seq::new(
        s.len() / 2,
        |i: int| (hex_digit_value(s[2 * i]) * 16 + hex_digit_value(s[2 * i + 1])) as u8,
    )
}

/// Encoding and decoding are mutually inverse on the byte domain, and the
/// encoded text is always valid: even-length, lowercase hexadecimal digits
/// only, two per input byte.
pub proof fn lemma_hex_round_trip(b: Seq<u8>)
    ensures
        spec_hex_encode(b).len() == b.len() * 2,
        hex_valid(spec_hex_encode(b)),
        forall|k: int|
            0 <= k < spec_hex_encode(b).len() ==> is_lower_hex_digit(#[trigger] spec_hex_encode(b)[k]),
        spec_hex_decode(spec_hex_encode(b)) == b,
{
    let e = spec_hex_encode(b);
    assert forall|k: int| 0 <= k < e.len() implies is_lower_hex_digit(#[trigger] e[k]) by {
        assert(0 <= b[k / 2] / 16 < 16);
        assert(0 <= b[k / 2] % 16 < 16);
    }
    assert forall|i: int| 0 <= i < b.len() implies spec_hex_decode(e)[i] == b[i] by {
        assert(e[2 * i] == hex_digit_of((b[i] / 16) as u8));
        assert(e[2 * i + 1] == hex_digit_of((b[i] % 16) as u8));
        assert(hex_digit_value(hex_digit_of((b[i] / 16) as u8)) == b[i] / 16);
        assert(hex_digit_value(hex_digit_of((b[i] % 16) as u8)) == b[i] % 16);
        assert((b[i] / 16) * 16 + b[i] % 16 == b[i]) by (nonlinear_arith);
    }
    assert(spec_hex_decode(e) =~= b);
}

/// Relies on `hex::encode`: each input byte becomes exactly two lowercase
/// hexadecimal digits, high nibble first, concatenated in input order.
#[verifier::external_body]
fn hex_encode_bytes(data: &[u8]) -> (text: Vec<u8>)
    requires
        data@.len() * 2 <= usize::MAX,
    ensures
        text@ == spec_hex_encode(data@),
{
    hex::encode(data).into_bytes()
}

/// Relies on `hex::decode` (`FromHex for Vec<u8>`): an odd-length input is
/// refused outright; otherwise each two-digit pair, either case, makes one
/// byte, and the first byte that is not a hexadecimal digit is reported with
/// its position.  Its error is mapped variant by variant onto [`DecodeError`];
/// `hex::decode` never reports `InvalidStringLength`, which only concerns
/// decoding into fixed-size buffers.
#[verifier::external_body]
fn hex_decode_bytes(text: &[u8]) -> (r: Result<Vec<u8>, DecodeError>)
    ensures
        match r {
            Ok(data) => hex_valid(text@) && data@ == spec_hex_decode(text@),
            Err(DecodeError::OddLength) => text@.len() % 2 != 0,
            Err(DecodeError::InvalidHexCharacter { c, index }) => {
                &&& text@.len() % 2 == 0
                &&& index < text@.len()
                &&& !is_hex_digit(text@[index as int])
                &&& forall|j: int| 0 <= j < index ==> is_hex_digit(#[trigger] text@[j])
                &&& c == text@[index as int]
            },
        },
        r is Ok <==> hex_valid(text@),
{
    match hex::decode(text) {
        Ok(data) => Ok(data),
        Err(hex::FromHexError::OddLength) => Err(DecodeError::OddLength),
        Err(hex::FromHexError::InvalidHexCharacter { c, index }) => Err(
            DecodeError::InvalidHexCharacter { c: c as u8, index },
        ),
        Err(hex::FromHexError::InvalidStringLength) => Err(DecodeError::OddLength),
    }
}

/// Encodes a byte stream as lowercase hexadecimal text.
pub fn encode_hex(data: &[u8]) -> (text: Vec<u8>)
    requires
        data@.len() * 2 <= usize::MAX,
    ensures
        text@ == spec_hex_encode(data@),
        hex_valid(text@),
        spec_hex_decode(text@) == data@,
{
    let text = hex_encode_bytes(data);
    proof {
        lemma_hex_round_trip(data@);
    }
    text
}

/// Decodes hexadecimal text back into bytes, reporting exactly why invalid
/// text is refused.
pub fn decode_hex(text: &[u8]) -> (r: Result<Vec<u8>, DecodeError>)
    ensures
        r is Ok <==> hex_valid(text@),
        match r {
            Ok(data) => hex_valid(text@) && data@ == spec_hex_decode(text@),
            Err(DecodeError::OddLength) => text@.len() % 2 != 0,
            Err(DecodeError::InvalidHexCharacter { c, index }) => {
                &&& text@.len() % 2 == 0
                &&& index < text@.len()
                &&& !is_hex_digit(text@[index as int])
                &&& forall|j: int| 0 <= j < index ==> is_hex_digit(#[trigger] text@[j])
                &&& c == text@[index as int]
            },
        },
{
    hex_decode_bytes(text)
}

} // verus!
