//! Encoding and decoding of OCR identifiers as fixed-width contenthash records.
//!
//! An identifier is packed into 55 bytes (a protocol tag followed by six
//! big-endian fields of fixed width) and exchanged as a `0x`-prefixed
//! hexadecimal string of 112 characters.

pub mod abi;
pub mod big_endian;
pub mod error;
pub mod hex_text;
pub mod ocr_id;
pub mod theorems;
pub mod util;
