//! The fixed-width codec, which packs byte buffers into fields of declared
//! widths and splits them again, and the checks on hexadecimal text that
//! guard decoding.

use vstd::prelude::*;
use vstd::slice::slice_subrange;
use vstd::slice::slice_to_vec;
use vstd::string::is_ascii_spec_bytes;
use vstd::utf8::is_ascii_chars;
use crate::error::OcrError;
use crate::hex_text::{hex_decode, hex_pair_value, is_hex_digit, is_hex_digit_code};
use crate::ocr_id::OCR_PROTOCOL_ID;

verus! {

/// The sum of the widths: the length of what they describe.
pub open spec fn total_width(widths: Seq<usize>) -> nat
    decreases widths.len(),
{
    if widths.len() == 0 {
        0
    } else {
        total_width(widths.drop_last()) + widths.last() as nat
    }
}

/// The contents of each buffer, in order.
pub open spec fn byte_views(buffers: Seq<Vec<u8>>) -> Seq<Seq<u8>> {
    Seq::new(buffers.len(), |i: int| buffers[i]@)
}

/// There is one buffer for each width, and none is longer than its width.
pub open spec fn buffers_fit(buffers: Seq<Seq<u8>>, widths: Seq<usize>) -> bool {
    &&& buffers.len() == widths.len()
    &&& forall|i: int| 0 <= i < buffers.len() ==> (#[trigger] buffers[i]).len() <= widths[i]
}

/// A buffer brought to `width` bytes by zero bytes in front of it.
pub open spec fn front_padded(buffer: Seq<u8>, width: nat) -> Seq<u8> {
    Seq::new((width - buffer.len()) as nat, |i: int| 0u8) + buffer
}

/// The buffers, each front-padded to its width, one after the other.
pub open spec fn fixed_encoding(buffers: Seq<Seq<u8>>, widths: Seq<usize>) -> Seq<u8>
    decreases widths.len(),
{
    if widths.len() == 0 {
        Seq::empty()
    } else {
        fixed_encoding(buffers.drop_last(), widths.drop_last()) + front_padded(
            buffers.last(),
            widths.last() as nat,
        )
    }
}

/// Where field `index` starts among fields of the given widths.
pub open spec fn field_start(widths: Seq<usize>, index: int) -> nat {
    total_width(widths.take(index))
}

/// The fields that consecutive widths cut out of `bytes`, starting at `offset`.
pub open spec fn fixed_slices(bytes: Seq<u8>, widths: Seq<usize>, offset: nat) -> Seq<Seq<u8>> {
    Seq::new(
        widths.len(),
        |i: int|
            bytes.subrange(
                (offset + field_start(widths, i)) as int,
                (offset + field_start(widths, i) + widths[i]) as int,
            ),
    )
}

/// A number of bytes as a `usize`: itself where it fits, `usize::MAX` beyond.
pub open spec fn saturated(n: nat) -> usize {
    if n <= usize::MAX {
        n as usize
    } else {
        usize::MAX
    }
}

/// The fields before `index` are no wider together than all the fields, and
/// field `index` ends where the next one starts.
pub proof fn lemma_field_start(widths: Seq<usize>, index: int)
    requires
        0 <= index < widths.len(),
    ensures
        field_start(widths, index + 1) == field_start(widths, index) + widths[index],
        field_start(widths, index + 1) <= total_width(widths),
        field_start(widths, widths.len() as int) == total_width(widths),
    decreases widths.len() - index,
{
    assert(widths.take(index + 1).drop_last() =~= widths.take(index));
    if index + 1 < widths.len() {
        lemma_field_start(widths, index + 1);
    }
}

/// An encoding is as long as the sum of its widths.
pub proof fn lemma_fixed_encoding_len(buffers: Seq<Seq<u8>>, widths: Seq<usize>)
    requires
        buffers_fit(buffers, widths),
    ensures
        fixed_encoding(buffers, widths).len() == total_width(widths),
    decreases widths.len(),
{
    if widths.len() > 0 {
        lemma_fixed_encoding_len(buffers.drop_last(), widths.drop_last());
    }
}

/// Splitting an encoding by its own widths gives each buffer back,
/// front-padded to its width.
pub proof fn lemma_field_of_encoding(buffers: Seq<Seq<u8>>, widths: Seq<usize>, index: int)
    requires
        buffers_fit(buffers, widths),
        0 <= index < widths.len(),
    ensures
        fixed_slices(fixed_encoding(buffers, widths), widths, 0)[index] == front_padded(
            buffers[index],
            widths[index] as nat,
        ),
    decreases widths.len(),
{
    lemma_fixed_encoding_len(buffers.drop_last(), widths.drop_last());
    lemma_field_start(widths, index);
    if index < widths.len() - 1 {
        lemma_field_of_encoding(buffers.drop_last(), widths.drop_last(), index);
        lemma_field_start(widths.drop_last(), index);
        assert(widths.drop_last().take(index) =~= widths.take(index));
    }
}

/// Encode an array of buffers into a single, flattened buffer.
/// Each buffer is front-padded with zeros up to its corresponding length.
///
/// There must be one buffer for each length, and no buffer may be longer
/// than its length.
pub fn encode_fixed_bytes(array_of_bytes: &Vec<Vec<u8>>, lengths: &Vec<usize>) -> (encoded: Vec<u8>)
    requires
        buffers_fit(byte_views(array_of_bytes@), lengths@),
    ensures
        encoded@ == fixed_encoding(byte_views(array_of_bytes@), lengths@),
        encoded@.len() == total_width(lengths@),
{
    let ghost buffers = byte_views(array_of_bytes@);
    let mut all_encoded_bytes: Vec<u8> = Vec::new();
    let mut i: usize = 0;
    while i < lengths.len()
        invariant
            i <= lengths@.len(),
            buffers == byte_views(array_of_bytes@),
            buffers_fit(buffers, lengths@),
            all_encoded_bytes@ == fixed_encoding(buffers.take(i as int), lengths@.take(i as int)),
        decreases lengths@.len() - i,
    {
        let bytes = &array_of_bytes[i];
        let length = lengths[i];
        let ghost done = all_encoded_bytes@;
        assert(bytes@ == buffers[i as int]);
        let padding: usize = length - bytes.len();
        let mut j: usize = 0;
        while j < padding
            invariant
                j <= padding,
                all_encoded_bytes@ == done + Seq::new(j as nat, |k: int| 0u8),
            decreases padding - j,
        {
            all_encoded_bytes.push(0);
            j = j + 1;
        }
        let mut j: usize = 0;
        while j < bytes.len()
            invariant
                j <= bytes@.len(),
                all_encoded_bytes@ == done + Seq::new(padding as nat, |k: int| 0u8) + bytes@.take(
                    j as int,
                ),
            decreases bytes@.len() - j,
        {
            all_encoded_bytes.push(bytes[j]);
            j = j + 1;
        }
        proof {
            assert(buffers.take(i + 1).drop_last() =~= buffers.take(i as int));
            assert(lengths@.take(i + 1).drop_last() =~= lengths@.take(i as int));
        }
        i = i + 1;
    }
    proof {
        assert(buffers.take(i as int) =~= buffers);
        assert(lengths@.take(i as int) =~= lengths@);
        lemma_fixed_encoding_len(buffers, lengths@);
    }
    all_encoded_bytes
}

/// The buffer at `index` is longer than its width, and none before it is.
pub open spec fn is_first_overlong(buffers: Seq<Seq<u8>>, widths: Seq<usize>, index: int) -> bool {
    &&& 0 <= index < buffers.len()
    &&& buffers[index].len() > widths[index]
    &&& forall|k: int| 0 <= k < index ==> (#[trigger] buffers[k]).len() <= widths[k]
}

/// Encode an array of buffers as `encode_fixed_bytes` does, after testing
/// what that function asks of its caller: where there is not one buffer for
/// each length the result is `FieldCountMismatch`, and where a buffer is
/// longer than its length it is `OverlongField`, for the first such buffer.
pub fn try_encode_fixed_bytes(array_of_bytes: &Vec<Vec<u8>>, lengths: &Vec<usize>) -> (encoded:
    Result<Vec<u8>, OcrError>)
    ensures
        match encoded {
            Ok(bytes) => {
                &&& buffers_fit(byte_views(array_of_bytes@), lengths@)
                &&& bytes@ == fixed_encoding(byte_views(array_of_bytes@), lengths@)
            },
            Err(error) => if array_of_bytes@.len() != lengths@.len() {
                error == (OcrError::FieldCountMismatch {
                    buffers: array_of_bytes.len(),
                    widths: lengths.len(),
                })
            } else {
                &&& error matches OcrError::OverlongField { index, width, length }
                &&& is_first_overlong(byte_views(array_of_bytes@), lengths@, index as int)
                &&& width == lengths@[index as int]
                &&& length == array_of_bytes@[index as int]@.len()
            },
        },
{
    if array_of_bytes.len() != lengths.len() {
        return Err(
            OcrError::FieldCountMismatch { buffers: array_of_bytes.len(), widths: lengths.len() },
        );
    }
    let mut i: usize = 0;
    while i < lengths.len()
        invariant
            i <= lengths@.len(),
            array_of_bytes@.len() == lengths@.len(),
            forall|k: int|
                0 <= k < i ==> (#[trigger] byte_views(array_of_bytes@)[k]).len() <= lengths@[k],
        decreases lengths@.len() - i,
    {
        if array_of_bytes[i].len() > lengths[i] {
            return Err(
                OcrError::OverlongField {
                    index: i,
                    width: lengths[i],
                    length: array_of_bytes[i].len(),
                },
            );
        }
        i = i + 1;
    }
    Ok(encode_fixed_bytes(array_of_bytes, lengths))
}

/// Decode a buffer into an array of buffers with lengths corresponding to the
/// provided target lengths. The first `offset` bytes of the input are passed
/// over. What is left must be exactly as long as the sum of the lengths.
pub fn decode_fixed_bytes(bytes: &Vec<u8>, lengths: &Vec<usize>, offset: usize) -> (decoded: Result<
    Vec<Vec<u8>>,
    OcrError,
>)
    ensures
        match decoded {
            Ok(array_of_bytes) => {
                &&& bytes@.len() - offset == total_width(lengths@)
                &&& byte_views(array_of_bytes@) == fixed_slices(bytes@, lengths@, offset as nat)
            },
            Err(error) => {
                &&& bytes@.len() - offset != total_width(lengths@)
                &&& error == (OcrError::LengthMismatch {
                    expected: saturated(total_width(lengths@)),
                    actual: bytes.len(),
                })
            },
        },
{
    let mut length_sum: usize = 0;
    let mut exceeded: bool = false;
    let mut i: usize = 0;
    while i < lengths.len()
        invariant
            i <= lengths@.len(),
            exceeded <==> field_start(lengths@, i as int) > usize::MAX,
            length_sum == saturated(field_start(lengths@, i as int)),
        decreases lengths@.len() - i,
    {
        proof {
            lemma_field_start(lengths@, i as int);
        }
        match length_sum.checked_add(lengths[i]) {
            Some(sum) => {
                length_sum = sum;
            },
            None => {
                length_sum = usize::MAX;
                exceeded = true;
            },
        }
        i = i + 1;
    }
    proof {
        assert(lengths@.take(i as int) =~= lengths@);
    }
    if exceeded || offset > bytes.len() || bytes.len() - offset != length_sum {
        return Err(OcrError::LengthMismatch { expected: length_sum, actual: bytes.len() });
    }
    let mut array_of_bytes: Vec<Vec<u8>> = Vec::new();
    let mut start: usize = offset;
    let mut i: usize = 0;
    while i < lengths.len()
        invariant
            i <= lengths@.len(),
            offset + total_width(lengths@) == bytes@.len() <= usize::MAX,
            start == offset + field_start(lengths@, i as int),
            array_of_bytes@.len() == i,
            forall|k: int|
                0 <= k < i ==> (#[trigger] array_of_bytes@[k])@ == fixed_slices(
                    bytes@,
                    lengths@,
                    offset as nat,
                )[k],
        decreases lengths@.len() - i,
    {
        let length = lengths[i];
        proof {
            lemma_field_start(lengths@, i as int);
        }
        let buffer = slice_subrange(bytes.as_slice(), start, start + length);
        array_of_bytes.push(slice_to_vec(buffer));
        start = start + length;
        i = i + 1;
    }
    Ok(array_of_bytes)
}

/// Calls std's conversion of a `Vec` into an array (`TryFrom<Vec<T>>` for
/// `[T; N]`), which is not verified here. Taken on trust: it succeeds exactly
/// when the vector holds `N` items, the array then holds the same items in
/// the same order, and otherwise the vector comes back unchanged.
#[verifier::external_body]
fn vec_into_array<T, const N: usize>(v: Vec<T>) -> (converted: Result<[T; N], Vec<T>>)
    ensures
        converted is Ok <==> v@.len() == N,
        match converted {
            Ok(array) => array@ == v@,
            Err(vec) => vec@ == v@,
        },
{
    v.try_into()
}

/// Turns a vector of exactly `N` items into an array of them.
pub fn vec_to_array<T, const N: usize>(v: Vec<T>) -> (converted: Result<[T; N], OcrError>)
    ensures
        match converted {
            Ok(array) => v@.len() == N && array@ == v@,
            Err(error) => {
                &&& v@.len() != N
                &&& error == (OcrError::ArityMismatch { expected: N, received: v.len() })
            },
        },
{
    match vec_into_array::<T, N>(v) {
        Ok(array) => Ok(array),
        Err(vec) => Err(OcrError::ArityMismatch { expected: N, received: vec.len() }),
    }
}

/// Text made of `0x` and then exactly `2 * length` hexadecimal digits: the
/// hexadecimal form of `length` bytes.
pub open spec fn is_prefixed_hex(value: Seq<char>, length: int) -> bool {
    &&& value.len() >= 2
    &&& value.len() == 2 + 2 * length
    &&& value[0] == '0'
    &&& value[1] == 'x'
    &&& forall|i: int| 2 <= i < value.len() ==> is_hex_digit(#[trigger] value[i])
}

/// Prefixed hexadecimal text holds ASCII characters only.
pub proof fn lemma_prefixed_hex_is_ascii(value: Seq<char>, length: int)
    requires
        is_prefixed_hex(value, length),
    ensures
        is_ascii_chars(value),
{
}

/// Returns true if value is a valid hex byte string that is prefixed with '0x'
/// and stands for exactly `length` bytes.
pub fn is_hex_string(value: &str, length: i32) -> (r: bool)
    ensures
        r == is_prefixed_hex(value@, length as int),
{
    if !value.is_ascii() {
        proof {
            if is_prefixed_hex(value@, length as int) {
                lemma_prefixed_hex_is_ascii(value@, length as int);
            }
        }
        return false;
    }
    let bytes = value.as_bytes();
    proof {
        is_ascii_spec_bytes(value);
    }
    let count: usize = bytes.len();
    if count < 2 || bytes[0] != 0x30 || bytes[1] != 0x78 {
        return false;
    }
    let mut i: usize = 2;
    while i < count
        invariant
            2 <= i <= count,
            count == value@.len(),
            bytes@.len() == count,
            is_ascii_chars(value@),
            forall|k: int| 0 <= k < count ==> bytes@[k] == value@[k] as u8,
            forall|k: int| 2 <= k < i ==> is_hex_digit(#[trigger] value@[k]),
        decreases count - i,
    {
        if !is_hex_digit_code(bytes[i]) {
            return false;
        }
        i = i + 1;
    }
    length >= 0 && count as u128 == 2 + 2 * (length as u128)
}

/// The tag that a contenthash is held against: the one asked for, or else
/// `OCR_PROTOCOL_ID`.
pub open spec fn tag_or_default(ocr_protocol_id: Option<u8>) -> u8 {
    match ocr_protocol_id {
        Some(tag) => tag,
        None => OCR_PROTOCOL_ID,
    }
}

/// Text in the form of a contenthash with the given tag: `0x`, then 110
/// hexadecimal digits, of which the first two denote the tag.
pub open spec fn is_contenthash(value: Seq<char>, tag: u8) -> bool {
    &&& is_prefixed_hex(value, 55)
    &&& hex_pair_value(value[2], value[3]) == tag
}

/// Returns true if value is a valid hex byte string that is prefixed with '0x'
/// and contains a valid OCR protocol ID.
pub fn is_ocr_contenthash_format(value: &str, ocr_protocol_id: Option<u8>) -> (r: bool)
    ensures
        r == is_contenthash(value@, tag_or_default(ocr_protocol_id)),
{
    if !is_hex_string(value, 55) {
        return false;
    }
    let valid_protocol_id = match ocr_protocol_id {
        Some(tag) => tag,
        None => OCR_PROTOCOL_ID,
    };
    proof {
        lemma_prefixed_hex_is_ascii(value@, 55);
    }
    let tag_text = value.substring_ascii(2, 4);
    match hex_decode(tag_text) {
        Ok(tag_bytes) => tag_bytes[0] == valid_protocol_id,
        Err(_) => false,
    }
}

} // verus!
