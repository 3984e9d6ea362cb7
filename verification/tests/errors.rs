use ocr_core::error::{decimal_string, OcrError};

#[test]
fn messages_of_fixed_text() {
    assert_eq!(
        OcrError::InvalidAddress.message(),
        "Contract address is not a valid hex string"
    );
    assert_eq!(
        OcrError::InvalidFormat.message(),
        "Contenthash is an invalid hex string or has an invalid OCR protocol ID"
    );
}

#[test]
fn message_of_length_mismatch() {
    let error = OcrError::LengthMismatch { expected: 54, actual: 60 };
    assert_eq!(
        error.message(),
        "Sum of lengths 54 does not match the number of bytes 60"
    );
}

#[test]
fn message_of_arity_mismatch() {
    let error = OcrError::ArityMismatch { expected: 8, received: 3 };
    assert_eq!(
        error.message(),
        "Expected Vec of length 8. Received Vec of length 3."
    );
}

#[test]
fn message_of_hex_failure() {
    let error = OcrError::HexDecode { message: "Odd number of digits".to_string() };
    assert_eq!(error.message(), "Odd number of digits");
}

#[test]
fn decimal_notation() {
    assert_eq!(decimal_string(0), "0");
    assert_eq!(decimal_string(9), "9");
    assert_eq!(decimal_string(10), "10");
    assert_eq!(decimal_string(1_123_323), "1123323");
    assert_eq!(decimal_string(usize::MAX), usize::MAX.to_string());
}

#[test]
fn message_of_field_count_mismatch() {
    let error = OcrError::FieldCountMismatch { buffers: 2, widths: 7 };
    assert_eq!(error.message(), "Expected 7 buffers. Received 2 buffers.");
}

#[test]
fn message_of_overlong_field() {
    let error = OcrError::OverlongField { index: 3, width: 20, length: 32 };
    assert_eq!(
        error.message(),
        "Buffer 3 holds 32 bytes, more than its length 20"
    );
}

#[test]
fn messages_of_codec_failures() {
    let short = ocr_core::util::decode_fixed_bytes(&vec![0u8; 54], &vec![2, 8, 20, 8, 8, 8], 1);
    assert_eq!(
        short.unwrap_err().message(),
        "Sum of lengths 54 does not match the number of bytes 54"
    );
    let array: Result<[u8; 8], OcrError> = ocr_core::util::vec_to_array(vec![0u8; 2]);
    assert_eq!(
        array.unwrap_err().message(),
        "Expected Vec of length 8. Received Vec of length 2."
    );
}
