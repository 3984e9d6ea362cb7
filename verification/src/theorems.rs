//! What holds of encoding and decoding together, for every identifier and
//! every text.

use vstd::prelude::*;
use crate::big_endian::{
    be_bytes,
    be_value,
    lemma_be_bytes_of_be_value,
    lemma_be_bytes_of_max,
    lemma_be_bytes_of_zero,
    lemma_be_value_bound,
    lemma_be_value_of_be_bytes,
    lemma_pow256_of_eight,
};
use crate::error::OcrError;
use crate::hex_text::{
    hex_decoded,
    hex_encoded,
    hex_pair_value,
    is_hex_digit,
    is_lower_hex_text,
    lemma_hex_decoded_of_encoded,
    lemma_hex_encoded_of_decoded,
};
use crate::ocr_id::{
    contenthash_bytes,
    contenthash_len,
    decoded,
    encoded_text,
    is_contract_address,
    lemma_contenthash_layout,
    prefixed_hex,
    record_of,
    OcrIdView,
};
use crate::util::is_contenthash;

verus! {

/// An identifier with its address brought to the form in which decoding
/// gives it: `0x` and lower case digits.
pub open spec fn normalized(id: OcrIdView) -> OcrIdView {
    OcrIdView {
        contract_address: prefixed_hex(hex_decoded(id.contract_address.skip(2))),
        ..id
    }
}

/// A numeric field that is zero is encoded as zero bytes over its whole
/// width, and one that holds the largest value of its width as bytes with
/// every bit set.
pub proof fn lemma_field_padding(id: OcrIdView, tag: u8)
    requires
        is_contract_address(id.contract_address),
    ensures
        id.protocol_version == 0 ==> contenthash_bytes(id, tag).subrange(1, 3) == Seq::new(
            2,
            |i: int| 0u8,
        ),
        id.protocol_version == u16::MAX ==> contenthash_bytes(id, tag).subrange(1, 3) == Seq::new(
            2,
            |i: int| 0xffu8,
        ),
        id.chain_id == 0 ==> contenthash_bytes(id, tag).subrange(3, 11) == Seq::new(
            8,
            |i: int| 0u8,
        ),
        id.chain_id == u64::MAX ==> contenthash_bytes(id, tag).subrange(3, 11) == Seq::new(
            8,
            |i: int| 0xffu8,
        ),
        id.package_index == 0 ==> contenthash_bytes(id, tag).subrange(31, 39) == Seq::new(
            8,
            |i: int| 0u8,
        ),
        id.package_index == u64::MAX ==> contenthash_bytes(id, tag).subrange(31, 39) == Seq::new(
            8,
            |i: int| 0xffu8,
        ),
        id.start_block == 0 ==> contenthash_bytes(id, tag).subrange(39, 47) == Seq::new(
            8,
            |i: int| 0u8,
        ),
        id.start_block == u64::MAX ==> contenthash_bytes(id, tag).subrange(39, 47) == Seq::new(
            8,
            |i: int| 0xffu8,
        ),
        id.end_block == 0 ==> contenthash_bytes(id, tag).subrange(47, 55) == Seq::new(
            8,
            |i: int| 0u8,
        ),
        id.end_block == u64::MAX ==> contenthash_bytes(id, tag).subrange(47, 55) == Seq::new(
            8,
            |i: int| 0xffu8,
        ),
{
    lemma_contenthash_layout(id, tag);
    lemma_pow256_of_eight();
    lemma_be_bytes_of_zero(2);
    lemma_be_bytes_of_zero(8);
    lemma_be_bytes_of_max(2);
    lemma_be_bytes_of_max(8);
}

/// A text is a contenthash with the given tag exactly when it starts with
/// `0x`, holds only hexadecimal digits after that, is 112 characters long,
/// and its first two digits denote the tag. A text that fails any one of
/// these is not decoded: the result is `InvalidFormat`.
pub proof fn lemma_format_rejection(text: Seq<char>, tag: u8)
    ensures
        is_contenthash(text, tag) <==> {
            &&& text.len() == 112
            &&& text[0] == '0'
            &&& text[1] == 'x'
            &&& forall|i: int| 2 <= i < text.len() ==> is_hex_digit(#[trigger] text[i])
            &&& hex_pair_value(text[2], text[3]) == tag
        },
        !is_contenthash(text, tag) ==> decoded(text, tag) == Err::<OcrIdView, OcrError>(
            OcrError::InvalidFormat,
        ),
        is_contenthash(text, tag) ==> decoded(text, tag) is Ok,
{
}

/// Encoding an identifier with a well-formed address as text and decoding
/// the text gives the identifier back, with the digits of its address in
/// lower case.
pub proof fn lemma_decode_of_encode(id: OcrIdView, tag: u8)
    requires
        is_contract_address(id.contract_address),
    ensures
        encoded_text(id, tag) == Ok::<Seq<char>, OcrError>(
            prefixed_hex(contenthash_bytes(id, tag)),
        ),
        is_contenthash(prefixed_hex(contenthash_bytes(id, tag)), tag),
        decoded(prefixed_hex(contenthash_bytes(id, tag)), tag) == Ok::<OcrIdView, OcrError>(
            normalized(id),
        ),
{
    let bytes = contenthash_bytes(id, tag);
    let text = prefixed_hex(bytes);
    lemma_contenthash_layout(id, tag);
    lemma_hex_decoded_of_encoded(bytes);
    assert(text.skip(2) =~= hex_encoded(bytes));
    assert forall|i: int| 2 <= i < text.len() implies is_hex_digit(#[trigger] text[i]) by {
        assert(text[i] == hex_encoded(bytes)[i - 2]);
    }
    assert(hex_pair_value(text[2], text[3]) == tag) by {
        assert(text[2] == hex_encoded(bytes)[0]);
    }
    lemma_pow256_of_eight();
    lemma_be_value_of_be_bytes(id.protocol_version as nat, 2);
    lemma_be_value_of_be_bytes(id.chain_id as nat, 8);
    lemma_be_value_of_be_bytes(id.package_index as nat, 8);
    lemma_be_value_of_be_bytes(id.start_block as nat, 8);
    lemma_be_value_of_be_bytes(id.end_block as nat, 8);
}

/// For an identifier whose address is `0x` and 40 lower case hexadecimal
/// digits, decoding the encoded text gives exactly the identifier.
pub proof fn lemma_round_trip(id: OcrIdView, tag: u8)
    requires
        is_contract_address(id.contract_address),
        is_lower_hex_text(id.contract_address.skip(2)),
    ensures
        encoded_text(id, tag) matches Ok(text) && decoded(text, tag) == Ok::<OcrIdView, OcrError>(
            id,
        ),
{
    lemma_decode_of_encode(id, tag);
    lemma_prefixed_hex_of_decoded(id.contract_address);
}

/// The text of 20 bytes is a contract address in lower case, and denotes
/// those bytes.
pub proof fn lemma_address_of_bytes(bytes: Seq<u8>)
    requires
        bytes.len() == 20,
    ensures
        is_contract_address(prefixed_hex(bytes)),
        is_lower_hex_text(prefixed_hex(bytes).skip(2)),
        hex_decoded(prefixed_hex(bytes).skip(2)) == bytes,
{
    let address = prefixed_hex(bytes);
    lemma_hex_decoded_of_encoded(bytes);
    assert(address.skip(2) =~= hex_encoded(bytes));
    assert forall|i: int| 2 <= i < address.len() implies is_hex_digit(#[trigger] address[i]) by {
        assert(address[i] == hex_encoded(bytes)[i - 2]);
    }
}

/// A field of at most eight bytes is written back by the number that it
/// denotes.
proof fn lemma_field_of_value(field: Seq<u8>)
    requires
        field.len() == 2 || field.len() == 8,
    ensures
        field.len() == 2 ==> be_bytes(be_value(field) as u16 as nat, 2) == field,
        field.len() == 8 ==> be_bytes(be_value(field) as u64 as nat, 8) == field,
{
    lemma_pow256_of_eight();
    lemma_be_value_bound(field);
    lemma_be_bytes_of_be_value(field);
}

/// The bytes of a contenthash are the bytes of the identifier that they
/// hold, under the tag that they start with.
pub proof fn lemma_bytes_of_record(bytes: Seq<u8>)
    requires
        bytes.len() == contenthash_len(),
    ensures
        is_contract_address(record_of(bytes).contract_address),
        is_lower_hex_text(record_of(bytes).contract_address.skip(2)),
        contenthash_bytes(record_of(bytes), bytes[0]) == bytes,
{
    let version = bytes.subrange(1, 3);
    let chain = bytes.subrange(3, 11);
    let address = bytes.subrange(11, 31);
    let package = bytes.subrange(31, 39);
    let start = bytes.subrange(39, 47);
    let end = bytes.subrange(47, 55);
    lemma_field_of_value(version);
    lemma_field_of_value(chain);
    lemma_address_of_bytes(address);
    lemma_field_of_value(package);
    lemma_field_of_value(start);
    lemma_field_of_value(end);
    assert(seq![bytes[0]] + version + chain + address + package + start + end =~= bytes);
}

/// The address of a decoded identifier is always `0x` and the 40 lower case
/// hexadecimal digits of 20 bytes.
pub proof fn lemma_decoded_address(text: Seq<char>, tag: u8)
    requires
        is_contenthash(text, tag),
    ensures
        decoded(text, tag) matches Ok(id) && is_contract_address(id.contract_address)
            && is_lower_hex_text(id.contract_address.skip(2)),
{
    lemma_contenthash_denotes(text, tag);
    lemma_bytes_of_record(hex_decoded(text.skip(2)));
}

/// The digits of a contenthash denote 55 bytes, of which the first is the tag.
pub proof fn lemma_contenthash_denotes(text: Seq<char>, tag: u8)
    requires
        is_contenthash(text, tag),
    ensures
        hex_decoded(text.skip(2)).len() == contenthash_len(),
        hex_decoded(text.skip(2))[0] == tag,
{
}

/// Writing the bytes that the lower case digits of a prefixed text denote
/// gives the text back.
pub proof fn lemma_prefixed_hex_of_decoded(text: Seq<char>)
    requires
        text.len() >= 2,
        text[0] == '0',
        text[1] == 'x',
        is_lower_hex_text(text.skip(2)),
    ensures
        prefixed_hex(hex_decoded(text.skip(2))) == text,
{
    lemma_hex_encoded_of_decoded(text.skip(2));
    assert(prefixed_hex(hex_decoded(text.skip(2))) =~= text);
}

/// Decoding a contenthash and encoding the identifier with the same tag
/// gives the text back with its digits in lower case: the very text, where
/// it had no upper case digit.
pub proof fn lemma_encode_of_decode(text: Seq<char>, tag: u8)
    requires
        is_contenthash(text, tag),
    ensures
        decoded(text, tag) matches Ok(id) && encoded_text(id, tag) == Ok::<Seq<char>, OcrError>(
            prefixed_hex(hex_decoded(text.skip(2))),
        ),
        is_lower_hex_text(text.skip(2)) ==> prefixed_hex(hex_decoded(text.skip(2))) == text,
{
    lemma_contenthash_denotes(text, tag);
    lemma_bytes_of_record(hex_decoded(text.skip(2)));
    if is_lower_hex_text(text.skip(2)) {
        lemma_prefixed_hex_of_decoded(text);
    }
}

} // verus!
