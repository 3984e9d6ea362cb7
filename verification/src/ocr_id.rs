//! The OCR identifier and its contenthash encoding.

use vstd::prelude::*;
use crate::big_endian::{
    be_bytes,
    be_value,
    lemma_be_bytes_len,
    to_be_bytes,
    u16_from_be_bytes,
    u64_from_be_bytes,
};
use crate::error::OcrError;
use crate::hex_text::{
    hex_decode,
    hex_decoded,
    hex_encode,
    hex_encoded,
    hex_error_text,
};
use crate::util::{
    byte_views,
    decode_fixed_bytes,
    encode_fixed_bytes,
    fixed_encoding,
    fixed_slices,
    is_contenthash,
    is_hex_string,
    is_ocr_contenthash_format,
    is_prefixed_hex,
    lemma_field_start,
    lemma_prefixed_hex_is_ascii,
    tag_or_default,
    vec_to_array,
};

verus! {

/// OCR Protocol ID: the tag byte that opens every contenthash of this family.
pub const OCR_PROTOCOL_ID: u8 = 77;

/// OCR package ID in struct data representation
#[derive(PartialEq, Eq, Debug, Clone)]
pub struct OcrId {
    pub protocol_version: u16,
    pub chain_id: u64,
    pub package_index: u64,
    pub contract_address: String,
    pub start_block: u64,
    pub end_block: u64,
}

/// An identifier as a mathematical value: the address is a sequence of
/// characters.
pub ghost struct OcrIdView {
    pub protocol_version: u16,
    pub chain_id: u64,
    pub package_index: u64,
    pub contract_address: Seq<char>,
    pub start_block: u64,
    pub end_block: u64,
}

impl View for OcrId {
    type V = OcrIdView;

    open spec fn view(&self) -> OcrIdView {
        OcrIdView {
            protocol_version: self.protocol_version,
            chain_id: self.chain_id,
            package_index: self.package_index,
            contract_address: self.contract_address@,
            start_block: self.start_block,
            end_block: self.end_block,
        }
    }
}

/// The number of bytes of a contenthash: the tag and the six fields.
pub open spec fn contenthash_len() -> nat {
    55
}

/// A contract address: `0x` and then the 40 hexadecimal digits of 20 bytes.
pub open spec fn is_contract_address(address: Seq<char>) -> bool {
    is_prefixed_hex(address, 20)
}

/// The 55 bytes of an identifier whose address is well formed: the tag, then
/// the protocol version on 2 bytes, the chain on 8, the 20 bytes of the
/// address, and the package index, the start block and the end block on 8
/// bytes each, every number most significant byte first.
pub open spec fn contenthash_bytes(id: OcrIdView, tag: u8) -> Seq<u8> {
    seq![tag] + be_bytes(id.protocol_version as nat, 2) + be_bytes(id.chain_id as nat, 8)
        + hex_decoded(id.contract_address.skip(2)) + be_bytes(id.package_index as nat, 8)
        + be_bytes(id.start_block as nat, 8) + be_bytes(id.end_block as nat, 8)
}

/// What encoding an identifier gives: its bytes, or `InvalidAddress` where
/// the address is not well formed.
pub open spec fn encoded(id: OcrIdView, tag: u8) -> Result<Seq<u8>, OcrError> {
    if is_contract_address(id.contract_address) {
        Ok(contenthash_bytes(id, tag))
    } else {
        Err(OcrError::InvalidAddress)
    }
}

/// The text of a byte sequence: `0x` and then two lower case hexadecimal
/// digits for each byte.
pub open spec fn prefixed_hex(bytes: Seq<u8>) -> Seq<char> {
    seq!['0', 'x'] + hex_encoded(bytes)
}

/// What encoding an identifier as text gives: the text of its bytes, or
/// `InvalidAddress` where the address is not well formed.
pub open spec fn encoded_text(id: OcrIdView, tag: u8) -> Result<Seq<char>, OcrError> {
    match encoded(id, tag) {
        Ok(bytes) => Ok(prefixed_hex(bytes)),
        Err(error) => Err(error),
    }
}

/// A result of decoding agrees with what was to be decoded: the same
/// identifier, or the same error.
pub open spec fn is_decoded(
    r: Result<OcrId, OcrError>,
    expected: Result<OcrIdView, OcrError>,
) -> bool {
    match r {
        Ok(ocr_id) => expected == Ok::<OcrIdView, OcrError>(ocr_id@),
        Err(error) => expected == Err::<OcrIdView, OcrError>(error),
    }
}

/// A result of encoding as bytes agrees with what was to be encoded.
pub open spec fn is_encoded(
    r: Result<Vec<u8>, OcrError>,
    expected: Result<Seq<u8>, OcrError>,
) -> bool {
    match r {
        Ok(bytes) => expected == Ok::<Seq<u8>, OcrError>(bytes@),
        Err(error) => expected == Err::<Seq<u8>, OcrError>(error),
    }
}

/// A result of encoding as text agrees with what was to be encoded.
pub open spec fn is_encoded_text(
    r: Result<String, OcrError>,
    expected: Result<Seq<char>, OcrError>,
) -> bool {
    match r {
        Ok(text) => expected == Ok::<Seq<char>, OcrError>(text@),
        Err(error) => expected == Err::<Seq<char>, OcrError>(error),
    }
}

/// Seven buffers that each have their field's width are packed one after the
/// other, with no padding.
proof fn lemma_encoding_of_exact_fields(buffers: Seq<Seq<u8>>, widths: Seq<usize>)
    requires
        widths.len() == 7,
        buffers.len() == 7,
        forall|i: int| 0 <= i < 7 ==> (#[trigger] buffers[i]).len() == widths[i],
    ensures
        fixed_encoding(buffers, widths) == buffers[0] + buffers[1] + buffers[2] + buffers[3]
            + buffers[4] + buffers[5] + buffers[6],
{
    reveal_with_fuel(fixed_encoding, 8);
}

/// Encode an OCR ID to its contenthash byte representation
pub fn encode_ocr_id_as_contenthash(ocr_id: &OcrId, ocr_protocol_id: Option<u8>) -> (r: Result<
    Vec<u8>,
    OcrError,
>)
    ensures
        is_encoded(r, encoded(ocr_id@, tag_or_default(ocr_protocol_id))),
        r matches Ok(bytes) ==> bytes@.len() == contenthash_len(),
{
    let protocol_id = match ocr_protocol_id {
        Some(tag) => tag,
        None => OCR_PROTOCOL_ID,
    };
    let address = ocr_id.contract_address.as_str();
    if !is_hex_string(address, 20) {
        return Err(OcrError::InvalidAddress);
    }
    proof {
        lemma_prefixed_hex_is_ascii(address@, 20);
    }
    let digits = address.substring_ascii(2, 42);
    let contract_address: Vec<u8> = match hex_decode(digits) {
        Ok(bytes) => bytes,
        Err(error) => {
            return Err(OcrError::HexDecode { message: hex_error_text(&error) });
        },
    };
    let bytes: Vec<Vec<u8>> = vec![
        to_be_bytes(protocol_id as u64, 1),
        to_be_bytes(ocr_id.protocol_version as u64, 2),
        to_be_bytes(ocr_id.chain_id, 8),
        contract_address,
        to_be_bytes(ocr_id.package_index, 8),
        to_be_bytes(ocr_id.start_block, 8),
        to_be_bytes(ocr_id.end_block, 8),
    ];
    let lengths: Vec<usize> = vec![1usize, 2, 8, 20, 8, 8, 8];
    proof {
        lemma_be_bytes_len(protocol_id as nat, 1);
        lemma_be_bytes_len(ocr_id.protocol_version as nat, 2);
        lemma_be_bytes_len(ocr_id.chain_id as nat, 8);
        lemma_be_bytes_len(ocr_id.package_index as nat, 8);
        lemma_be_bytes_len(ocr_id.start_block as nat, 8);
        lemma_be_bytes_len(ocr_id.end_block as nat, 8);
        lemma_encoding_of_exact_fields(byte_views(bytes@), lengths@);
        assert(be_bytes(protocol_id as nat, 1) =~= seq![protocol_id]) by {
            reveal_with_fuel(be_bytes, 2);
        }
    }
    let encoded_bytes = encode_fixed_bytes(&bytes, &lengths);
    proof {
        lemma_contenthash_layout(ocr_id@, protocol_id);
    }
    Ok(encoded_bytes)
}

/// Encode an OCR ID to its contenthash hex string representation
pub fn encode_ocr_id_as_contenthash_string(ocr_id: &OcrId, ocr_protocol_id: Option<u8>) -> (r:
    Result<String, OcrError>)
    ensures
        is_encoded_text(r, encoded_text(ocr_id@, tag_or_default(ocr_protocol_id))),
        r matches Ok(text) ==> text@.len() == 2 + 2 * contenthash_len(),
{
    let encoded_bytes = match encode_ocr_id_as_contenthash(ocr_id, ocr_protocol_id) {
        Ok(bytes) => bytes,
        Err(error) => {
            return Err(error);
        },
    };
    Ok(prefixed_hex_string(&encoded_bytes))
}

/// Writes bytes as `0x` and two lower case hexadecimal digits for each byte.
fn prefixed_hex_string(bytes: &Vec<u8>) -> (text: String)
    ensures
        text@ == prefixed_hex(bytes@),
{
    let digits = hex_encode(bytes.as_slice());
    proof {
        reveal_strlit("0x");
    }
    String::from_str("0x").concat(digits.as_str())
}

/// The identifier that the 55 bytes of a contenthash hold. The tag, in the
/// first byte, is no part of it.
pub open spec fn record_of(bytes: Seq<u8>) -> OcrIdView {
    OcrIdView {
        protocol_version: be_value(bytes.subrange(1, 3)) as u16,
        chain_id: be_value(bytes.subrange(3, 11)) as u64,
        contract_address: prefixed_hex(bytes.subrange(11, 31)),
        package_index: be_value(bytes.subrange(31, 39)) as u64,
        start_block: be_value(bytes.subrange(39, 47)) as u64,
        end_block: be_value(bytes.subrange(47, 55)) as u64,
    }
}

/// What decoding a text gives: the identifier in the bytes that it denotes,
/// or `InvalidFormat` where it is no contenthash with the given tag.
pub open spec fn decoded(text: Seq<char>, tag: u8) -> Result<OcrIdView, OcrError> {
    if is_contenthash(text, tag) {
        Ok(record_of(hex_decoded(text.skip(2))))
    } else {
        Err(OcrError::InvalidFormat)
    }
}

/// The six fields that follow the tag lie at fixed places among the 55 bytes.
proof fn lemma_record_slices(bytes: Seq<u8>, widths: Seq<usize>)
    requires
        widths =~= seq![2usize, 8, 20, 8, 8, 8],
    ensures
        fixed_slices(bytes, widths, 1) =~= seq![
            bytes.subrange(1, 3),
            bytes.subrange(3, 11),
            bytes.subrange(11, 31),
            bytes.subrange(31, 39),
            bytes.subrange(39, 47),
            bytes.subrange(47, 55),
        ],
{
    lemma_field_start(widths, 0);
    lemma_field_start(widths, 1);
    lemma_field_start(widths, 2);
    lemma_field_start(widths, 3);
    lemma_field_start(widths, 4);
    lemma_field_start(widths, 5);
}

/// Decode an OCR ID from its contenthash hex string representation
pub fn decode_ocr_id_from_contenthash(contenthash: &str, ocr_protocol_id: Option<u8>) -> (r: Result<
    OcrId,
    OcrError,
>)
    ensures
        is_decoded(r, decoded(contenthash@, tag_or_default(ocr_protocol_id))),
{
    if !is_ocr_contenthash_format(contenthash, ocr_protocol_id) {
        return Err(OcrError::InvalidFormat);
    }
    proof {
        lemma_prefixed_hex_is_ascii(contenthash@, 55);
    }
    let digits = contenthash.substring_ascii(2, 112);
    let contenthash_bytes: Vec<u8> = match hex_decode(digits) {
        Ok(bytes) => bytes,
        Err(error) => {
            return Err(OcrError::HexDecode { message: hex_error_text(&error) });
        },
    };
    let lengths: Vec<usize> = vec![2usize, 8, 20, 8, 8, 8];
    proof {
        reveal_with_fuel(crate::util::total_width, 7);
        lemma_record_slices(contenthash_bytes@, lengths@);
    }
    let mut ocr_id_data = match decode_fixed_bytes(&contenthash_bytes, &lengths, 1) {
        Ok(fields) => fields,
        Err(error) => {
            return Err(error);
        },
    };
    let end_block_bytes = ocr_id_data.pop().unwrap();
    let start_block_bytes = ocr_id_data.pop().unwrap();
    let package_index_bytes = ocr_id_data.pop().unwrap();
    let contract_address_bytes = ocr_id_data.pop().unwrap();
    let chain_id_bytes = ocr_id_data.pop().unwrap();
    let protocol_version_bytes = ocr_id_data.pop().unwrap();

    let protocol_version: u16 = match vec_to_array::<u8, 2>(protocol_version_bytes) {
        Ok(array) => u16_from_be_bytes(array),
        Err(error) => {
            return Err(error);
        },
    };
    let chain_id: u64 = match vec_to_array::<u8, 8>(chain_id_bytes) {
        Ok(array) => u64_from_be_bytes(array),
        Err(error) => {
            return Err(error);
        },
    };
    let contract_address: String = prefixed_hex_string(&contract_address_bytes);
    let package_index: u64 = match vec_to_array::<u8, 8>(package_index_bytes) {
        Ok(array) => u64_from_be_bytes(array),
        Err(error) => {
            return Err(error);
        },
    };
    let start_block: u64 = match vec_to_array::<u8, 8>(start_block_bytes) {
        Ok(array) => u64_from_be_bytes(array),
        Err(error) => {
            return Err(error);
        },
    };
    let end_block: u64 = match vec_to_array::<u8, 8>(end_block_bytes) {
        Ok(array) => u64_from_be_bytes(array),
        Err(error) => {
            return Err(error);
        },
    };

    Ok(OcrId { protocol_version, chain_id, package_index, contract_address, start_block, end_block })
}

/// In the bytes of an identifier with a well-formed address, each field
/// stands at its place, in its own width.
pub proof fn lemma_contenthash_layout(id: OcrIdView, tag: u8)
    requires
        is_contract_address(id.contract_address),
    ensures
        contenthash_bytes(id, tag).len() == contenthash_len(),
        contenthash_bytes(id, tag)[0] == tag,
        contenthash_bytes(id, tag).subrange(1, 3) == be_bytes(id.protocol_version as nat, 2),
        contenthash_bytes(id, tag).subrange(3, 11) == be_bytes(id.chain_id as nat, 8),
        contenthash_bytes(id, tag).subrange(11, 31) == hex_decoded(id.contract_address.skip(2)),
        contenthash_bytes(id, tag).subrange(31, 39) == be_bytes(id.package_index as nat, 8),
        contenthash_bytes(id, tag).subrange(39, 47) == be_bytes(id.start_block as nat, 8),
        contenthash_bytes(id, tag).subrange(47, 55) == be_bytes(id.end_block as nat, 8),
{
    lemma_be_bytes_len(id.protocol_version as nat, 2);
    lemma_be_bytes_len(id.chain_id as nat, 8);
    lemma_be_bytes_len(id.package_index as nat, 8);
    lemma_be_bytes_len(id.start_block as nat, 8);
    lemma_be_bytes_len(id.end_block as nat, 8);
}

impl TryFrom<&str> for OcrId {
    type Error = OcrError;

    /// Decodes a contenthash that carries the tag `OCR_PROTOCOL_ID`.
    fn try_from(value: &str) -> (r: Result<OcrId, OcrError>)
        ensures
            is_decoded(r, decoded(value@, OCR_PROTOCOL_ID)),
    {
        decode_ocr_id_from_contenthash(value, None)
    }
}

/// What `try_from` returns is stated by its own `ensures`, over views: no
/// value is named for it here.
impl vstd::std_specs::convert::TryFromSpecImpl<&str> for OcrId {
    open spec fn obeys_try_from_spec() -> bool {
        false
    }

    open spec fn try_from_spec(v: &str) -> Result<OcrId, OcrError> {
        arbitrary()
    }
}

impl TryInto<String> for OcrId {
    type Error = OcrError;

    /// Encodes the identifier as text with the tag `OCR_PROTOCOL_ID`.
    fn try_into(self) -> (r: Result<String, OcrError>)
        ensures
            is_encoded_text(r, encoded_text(self@, OCR_PROTOCOL_ID)),
    {
        encode_ocr_id_as_contenthash_string(&self, None)
    }
}

/// What `try_into` returns is stated by its own `ensures`, over views: no
/// value is named for it here.
impl vstd::std_specs::convert::TryIntoSpecImpl<String> for OcrId {
    open spec fn obeys_try_into_spec() -> bool {
        false
    }

    open spec fn try_into_spec(self) -> Result<String, OcrError> {
        arbitrary()
    }
}

impl TryInto<Vec<u8>> for OcrId {
    type Error = OcrError;

    /// Encodes the identifier as bytes with the tag `OCR_PROTOCOL_ID`.
    fn try_into(self) -> (r: Result<Vec<u8>, OcrError>)
        ensures
            is_encoded(r, encoded(self@, OCR_PROTOCOL_ID)),
    {
        encode_ocr_id_as_contenthash(&self, None)
    }
}

/// What `try_into` returns is stated by its own `ensures`, over views: no
/// value is named for it here.
impl vstd::std_specs::convert::TryIntoSpecImpl<Vec<u8>> for OcrId {
    open spec fn obeys_try_into_spec() -> bool {
        false
    }

    open spec fn try_into_spec(self) -> Result<Vec<u8>, OcrError> {
        arbitrary()
    }
}

} // verus!
