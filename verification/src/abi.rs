//! The signatures of the OCR contract's functions and events, by protocol
//! version.

use vstd::prelude::*;

verus! {

/// The part of the contract that every protocol version has.
pub const OCR_CONTRACT_CORE_ABI: [&'static str; 1] = [
    "function protocolVersion() external view returns (uint256)",
];

/// The contract of protocol version 1.
pub const OCR_CONTRACT_ABI_V1: [&'static str; 7] = [
    "event StartPublish(uint256 indexed packageIndex, address indexed author)",
    "event EndPublish(uint256 indexed packageIndex, uint64 partCount)",
    "event PackagePart(uint256 indexed packageIndex, uint64 partIndex, bytes data)",
    "function protocolVersion() external view returns (uint256)",
    "function startPublish(bytes memory data, bool end) external returns(uint256)",
    "function publishPart(uint256 packageIndex, bytes memory data, bool end) external",
    "function package(uint256 packageIndex) public view returns(tuple(uint256 startBlock, uint256 endBlock, address author, uint64 partCount))",
];

/// The signatures of the contract of the given protocol version, in their
/// order, or `None` for a version that is not known. Version 1 is the only
/// one known.
pub fn build_ocr_contract_abi(protocol_version: i32) -> (abi: Option<Vec<&'static str>>)
    ensures
        abi is Some <==> protocol_version == 1,
        abi matches Some(signatures) ==> signatures@ == OCR_CONTRACT_ABI_V1@,
{
    match protocol_version {
        1 => {
            let mut signatures: Vec<&'static str> = Vec::new();
            let mut i: usize = 0;
            while i < 7
                invariant
                    i <= 7,
                    signatures@ == OCR_CONTRACT_ABI_V1@.take(i as int),
                decreases 7 - i,
            {
                signatures.push(OCR_CONTRACT_ABI_V1[i]);
                i = i + 1;
            }
            Some(signatures)
        },
        _ => None,
    }
}

} // verus!
