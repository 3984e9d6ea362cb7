//! Hexadecimal text: what it denotes, and the calls into the `hex` crate that
//! read and write it.

use vstd::prelude::*;

verus! {

/// One of the characters `0`-`9`, `a`-`f` and `A`-`F`.
pub open spec fn is_hex_digit(c: char) -> bool {
    ||| '0' <= c <= '9'
    ||| 'a' <= c <= 'f'
    ||| 'A' <= c <= 'F'
}

/// One of the characters `0`-`9` and `a`-`f`.
pub open spec fn is_lower_hex_digit(c: char) -> bool {
    ||| '0' <= c <= '9'
    ||| 'a' <= c <= 'f'
}

/// The number from 0 to 15 that a hexadecimal digit stands for, in either case.
pub open spec fn hex_digit_value(c: char) -> nat {
    if '0' <= c <= '9' {
        (c as nat - '0' as nat) as nat
    } else if 'a' <= c <= 'f' {
        (c as nat - 'a' as nat + 10) as nat
    } else {
        (c as nat - 'A' as nat + 10) as nat
    }
}

/// The lower case hexadecimal digit that stands for a number from 0 to 15.
pub open spec fn hex_digit(n: nat) -> char {
    if n < 10 {
        ('0' as nat + n) as char
    } else {
        ('a' as nat + n - 10) as char
    }
}

/// Text that denotes bytes: an even number of hexadecimal digits.
pub open spec fn is_hex_text(text: Seq<char>) -> bool {
    &&& text.len() % 2 == 0
    &&& forall|i: int| 0 <= i < text.len() ==> is_hex_digit(#[trigger] text[i])
}

/// Hexadecimal text without upper case digits.
pub open spec fn is_lower_hex_text(text: Seq<char>) -> bool {
    &&& text.len() % 2 == 0
    &&& forall|i: int| 0 <= i < text.len() ==> is_lower_hex_digit(#[trigger] text[i])
}

/// The byte that two hexadecimal digits denote, the first digit being the
/// more significant.
pub open spec fn hex_pair_value(high: char, low: char) -> u8 {
    (16 * hex_digit_value(high) + hex_digit_value(low)) as u8
}

/// The bytes that hexadecimal text denotes: one byte for each pair of digits.
pub open spec fn hex_decoded(text: Seq<char>) -> Seq<u8> {
    Seq::new(text.len() / 2, |i: int| hex_pair_value(text[2 * i], text[2 * i + 1]))
}

/// The lower case hexadecimal text of a byte sequence: two digits for each
/// byte, the more significant digit first.
pub open spec fn hex_encoded(bytes: Seq<u8>) -> Seq<char> {
    Seq::new(
        2 * bytes.len(),
        |i: int|
            if i % 2 == 0 {
                hex_digit(bytes[i / 2] as nat / 16)
            } else {
                hex_digit(bytes[i / 2] as nat % 16)
            },
    )
}

/// The text of a byte sequence is lower case hexadecimal text, twice as long
/// as the sequence, and denotes that sequence.
pub proof fn lemma_hex_decoded_of_encoded(bytes: Seq<u8>)
    ensures
        hex_encoded(bytes).len() == 2 * bytes.len(),
        is_lower_hex_text(hex_encoded(bytes)),
        is_hex_text(hex_encoded(bytes)),
        hex_decoded(hex_encoded(bytes)) == bytes,
{
    let text = hex_encoded(bytes);
    assert forall|i: int| 0 <= i < text.len() implies is_lower_hex_digit(#[trigger] text[i])
        && is_hex_digit(text[i]) by {
        lemma_hex_digit_value_of_digit(bytes[i / 2] as nat / 16);
        lemma_hex_digit_value_of_digit(bytes[i / 2] as nat % 16);
    }
    assert forall|k: int| 0 <= k < bytes.len() implies #[trigger] hex_decoded(text)[k]
        == bytes[k] by {
        lemma_hex_digit_value_of_digit(bytes[k] as nat / 16);
        lemma_hex_digit_value_of_digit(bytes[k] as nat % 16);
    }
}

/// A digit written for a number below 16 is a lower case digit that stands
/// for that number.
pub proof fn lemma_hex_digit_value_of_digit(n: nat)
    requires
        n < 16,
    ensures
        is_lower_hex_digit(hex_digit(n)),
        is_hex_digit(hex_digit(n)),
        hex_digit_value(hex_digit(n)) == n,
{
}

/// Writing the bytes that lower case hexadecimal text denotes gives the text
/// back.
pub proof fn lemma_hex_encoded_of_decoded(text: Seq<char>)
    requires
        is_lower_hex_text(text),
    ensures
        is_hex_text(text),
        hex_decoded(text).len() * 2 == text.len(),
        hex_encoded(hex_decoded(text)) == text,
{
}

/// The error of the `hex` crate's decoder. Nothing is read from it here but
/// its message.
#[verifier::external_type_specification]
#[verifier::external_body]
pub struct ExFromHexError(hex::FromHexError);

/// Calls `hex::decode`, which is not verified here. Taken on trust: it
/// succeeds exactly on an even number of hexadecimal digits of either case,
/// and then returns one byte for each pair of digits, sixteen times the first
/// digit plus the second. The decoder reads the text byte by byte; a
/// character beyond ASCII is made of bytes that are no digits, so a text that
/// holds one is refused, as it is here.
#[verifier::external_body]
pub(crate) fn hex_decode(text: &str) -> (decoded: Result<Vec<u8>, hex::FromHexError>)
    ensures
        decoded is Ok <==> is_hex_text(text@),
        decoded matches Ok(bytes) ==> bytes@ == hex_decoded(text@),
{
    hex::decode(text)
}

/// Calls `hex::encode`, which is not verified here. Taken on trust: it writes
/// each byte as two lower case hexadecimal digits, the more significant digit
/// first, in the order of the bytes.
#[verifier::external_body]
pub(crate) fn hex_encode(bytes: &[u8]) -> (text: String)
    ensures
        text@ == hex_encoded(bytes@),
{
    hex::encode(bytes)
}

/// Whether a byte is the ASCII code of a hexadecimal digit.
pub fn is_hex_digit_code(code: u8) -> (r: bool)
    ensures
        r == is_hex_digit(code as char),
{
    (0x30 <= code && code <= 0x39) || (0x61 <= code && code <= 0x66) || (0x41 <= code && code
        <= 0x46)
}

/// Calls the `Display` of `hex::FromHexError`, which is not verified here:
/// the decoder's own account of why it refused its input. Nothing is claimed
/// of the text.
#[verifier::external_body]
pub(crate) fn hex_error_text(error: &hex::FromHexError) -> (message: String) {
    error.to_string()
}

} // verus!
