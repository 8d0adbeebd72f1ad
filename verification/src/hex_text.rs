//! Hexadecimal text: what it means for a string to spell bytes in base 16,
//! and the conversions in both directions.

use vstd::prelude::*;

verus! {

/// Whether `c` is one of the characters `0`-`9`, `a`-`f` or `A`-`F`.
pub open spec fn is_hex_digit(c: char) -> bool {
    ('0' <= c && c <= '9') || ('a' <= c && c <= 'f') || ('A' <= c && c <= 'F')
}

/// The number, from 0 to 15, that the hex digit `c` stands for.
pub open spec fn hex_digit_value(c: char) -> int {
    if '0' <= c && c <= '9' {
        c as u32 - '0' as u32
    } else if 'a' <= c && c <= 'f' {
        c as u32 - 'a' as u32 + 10
    } else {
        c as u32 - 'A' as u32 + 10
    }
}

/// The lower-case hex digit for a number from 0 to 15.
pub open spec fn lower_hex_digit(v: int) -> char {
    if v < 10 {
        (('0' as u8) + v) as u8 as char
    } else {
        (('a' as u8) + v - 10) as u8 as char
    }
}

/// A text spells bytes when it has an even number of characters, all of them
/// hex digits.
pub open spec fn is_hex_text(text: Seq<char>) -> bool {
    &&& text.len() % 2 == 0
    &&& forall|i: int| 0 <= i < text.len() ==> is_hex_digit(#[trigger] text[i])
}

/// The bytes that a hex text spells: each pair of digits gives one byte, the
/// first digit its upper half.
pub open spec fn decoded_bytes(text: Seq<char>) -> Seq<u8> {
    Seq::new(
        text.len() / 2,
        |i: int| (hex_digit_value(text[2 * i]) * 16 + hex_digit_value(text[2 * i + 1])) as u8,
    )
}

/// The canonical text of `bytes`: two lower-case hex digits per byte.
pub open spec fn encoded_text(bytes: Seq<u8>) -> Seq<char> {
    Seq::new(
        2 * bytes.len(),
        |i: int|
            if i % 2 == 0 {
                lower_hex_digit(bytes[i / 2] as int / 16)
            } else {
                lower_hex_digit(bytes[i / 2] as int % 16)
            },
    )
}

/// A lower-case hex digit is a hex digit and stands for the number it was
/// made from.
pub proof fn lemma_lower_hex_digit(v: int)
    requires
        0 <= v < 16,
    ensures
        is_hex_digit(lower_hex_digit(v)),
        hex_digit_value(lower_hex_digit(v)) == v,
        !('A' <= lower_hex_digit(v) && lower_hex_digit(v) <= 'Z'),
{
}

/// Encoding never fails to be readable: the canonical text of any bytes is
/// a hex text, twice as long as the bytes, and decodes to the same bytes.
pub proof fn lemma_decode_encode(bytes: Seq<u8>)
    ensures
        encoded_text(bytes).len() == 2 * bytes.len(),
        is_hex_text(encoded_text(bytes)),
        decoded_bytes(encoded_text(bytes)) == bytes,
{
    let text = encoded_text(bytes);
    assert forall|i: int| 0 <= i < text.len() implies is_hex_digit(#[trigger] text[i]) by {
        let b = bytes[i / 2] as int;
        lemma_lower_hex_digit(b / 16);
        lemma_lower_hex_digit(b % 16);
    }
    assert forall|k: int| 0 <= k < bytes.len() implies decoded_bytes(text)[k] == bytes[k] by {
        let b = bytes[k] as int;
        lemma_lower_hex_digit(b / 16);
        lemma_lower_hex_digit(b % 16);
        assert((2 * k) / 2 == k && (2 * k) % 2 == 0);
        assert((2 * k + 1) / 2 == k && (2 * k + 1) % 2 == 1);
        assert(text[2 * k] == lower_hex_digit(b / 16));
        assert(text[2 * k + 1] == lower_hex_digit(b % 16));
        assert((b / 16) * 16 + b % 16 == b);
    }
    assert(decoded_bytes(text) =~= bytes);
}

/// Different bytes have different canonical texts.
pub proof fn lemma_encoded_text_injective(a: Seq<u8>, b: Seq<u8>)
    requires
        encoded_text(a) == encoded_text(b),
    ensures
        a == b,
{
    lemma_decode_encode(a);
    lemma_decode_encode(b);
}

/// The error of the `hex` crate's decoder, carried through unread.
#[verifier::external_type_specification]
#[verifier::external_body]
pub struct ExFromHexError(hex::FromHexError);

/// Calls `hex::encode`, which writes each byte as two lower-case hex digits,
/// the upper half first.
#[verifier::external_body]
fn hex_encode(data: &[u8]) -> (text: String)
    ensures
        text@ == encoded_text(data@),
{
    hex::encode(data)
}

/// Calls `hex::decode`. It reads the text byte by byte, refuses an odd number
/// of bytes and any byte that is no hex digit, and otherwise builds each
/// output byte from two digits, the first one shifted left by four. A
/// character beyond ASCII is stored as bytes of 0x80 and above, none of them a
/// hex digit, so the text is accepted exactly when all its characters are hex
/// digits and their number is even.
#[verifier::external_body]
fn hex_decode(text: &str) -> (r: Result<Vec<u8>, hex::FromHexError>)
    ensures
        r is Ok <==> is_hex_text(text@),
        r matches Ok(bytes) ==> bytes@ == decoded_bytes(text@),
{
    hex::decode(text)
}

/// Writes `data` as lower-case hex text.
pub fn encode(data: &[u8]) -> (text: String)
    ensures
        text@ == encoded_text(data@),
        text@.len() == 2 * data@.len(),
        is_hex_text(text@),
        decoded_bytes(text@) == data@,
{
    proof {
        lemma_decode_encode(data@);
    }
    hex_encode(data)
}

/// Reads hex text, in either case of letters. `None` for a text that is not
/// hex: one of odd length or with a character that is no hex digit.
pub fn decode(text: &str) -> (bytes: Option<Vec<u8>>)
    ensures
        bytes is Some <==> is_hex_text(text@),
        bytes matches Some(b) ==> b@ == decoded_bytes(text@) && 2 * b@.len() == text@.len(),
{
    match hex_decode(text) {
        Ok(b) => Some(b),
        Err(_) => None,
    }
}

} // verus!
