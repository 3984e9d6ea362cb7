use ocr_core::error::OcrError;
use ocr_core::util::{
    decode_fixed_bytes, encode_fixed_bytes, try_encode_fixed_bytes, vec_to_array,
};

#[test]
fn encode_pads_in_front() {
    let buffers = vec![vec![1u8], vec![2u8, 3], vec![], vec![4u8, 5, 6]];
    let widths = vec![2usize, 2, 3, 5];
    let encoded = encode_fixed_bytes(&buffers, &widths);
    assert_eq!(encoded, vec![0, 1, 2, 3, 0, 0, 0, 0, 0, 4, 5, 6]);
}

#[test]
fn encode_of_nothing_is_empty() {
    let buffers: Vec<Vec<u8>> = Vec::new();
    let widths: Vec<usize> = Vec::new();
    assert_eq!(encode_fixed_bytes(&buffers, &widths), Vec::<u8>::new());
}

#[test]
fn encode_keeps_buffers_of_full_width() {
    let buffers = vec![vec![0xffu8], vec![0xaa, 0xbb]];
    let widths = vec![1usize, 2];
    assert_eq!(encode_fixed_bytes(&buffers, &widths), vec![0xff, 0xaa, 0xbb]);
}

#[test]
fn decode_splits_by_width() {
    let bytes = vec![9u8, 0, 1, 2, 3, 0, 0, 0, 0, 0, 4, 5, 6];
    let widths = vec![2usize, 2, 3, 5];
    let decoded = decode_fixed_bytes(&bytes, &widths, 1).unwrap();
    assert_eq!(
        decoded,
        vec![vec![0u8, 1], vec![2, 3], vec![0, 0, 0], vec![0, 0, 4, 5, 6]]
    );
}

#[test]
fn decode_of_encode_gives_the_padded_buffers() {
    let buffers = vec![vec![7u8], vec![], vec![1u8, 2, 3]];
    let widths = vec![3usize, 0, 3];
    let encoded = encode_fixed_bytes(&buffers, &widths);
    let decoded = decode_fixed_bytes(&encoded, &widths, 0).unwrap();
    assert_eq!(decoded, vec![vec![0u8, 0, 7], vec![], vec![1, 2, 3]]);
}

#[test]
fn decode_with_zero_width_field() {
    let bytes = vec![1u8, 2];
    let widths = vec![1usize, 0, 1];
    let decoded = decode_fixed_bytes(&bytes, &widths, 0).unwrap();
    assert_eq!(decoded, vec![vec![1u8], vec![], vec![2]]);
}

#[test]
fn decode_fails_on_short_buffer() {
    let bytes = vec![0u8; 5];
    let widths = vec![2usize, 4];
    assert_eq!(
        decode_fixed_bytes(&bytes, &widths, 0),
        Err(OcrError::LengthMismatch { expected: 6, actual: 5 })
    );
}

#[test]
fn decode_fails_on_long_buffer() {
    let bytes = vec![0u8; 7];
    let widths = vec![2usize, 4];
    assert_eq!(
        decode_fixed_bytes(&bytes, &widths, 0),
        Err(OcrError::LengthMismatch { expected: 6, actual: 7 })
    );
    assert_eq!(
        decode_fixed_bytes(&bytes, &widths, 2),
        Err(OcrError::LengthMismatch { expected: 6, actual: 7 })
    );
    assert!(decode_fixed_bytes(&bytes, &widths, 1).is_ok());
}

#[test]
fn decode_fails_when_offset_is_beyond_the_buffer() {
    let bytes = vec![0u8; 3];
    let widths: Vec<usize> = Vec::new();
    assert_eq!(
        decode_fixed_bytes(&bytes, &widths, 4),
        Err(OcrError::LengthMismatch { expected: 0, actual: 3 })
    );
    assert_eq!(decode_fixed_bytes(&bytes, &widths, 3), Ok(Vec::new()));
}

#[test]
fn decode_fails_when_widths_exceed_usize() {
    let bytes = vec![0u8; 3];
    let widths = vec![usize::MAX, 2, 1];
    assert_eq!(
        decode_fixed_bytes(&bytes, &widths, 0),
        Err(OcrError::LengthMismatch { expected: usize::MAX, actual: 3 })
    );
}

#[test]
fn vec_to_array_of_right_length() {
    let array: [u8; 3] = vec_to_array(vec![1u8, 2, 3]).unwrap();
    assert_eq!(array, [1, 2, 3]);
    let empty: [u16; 0] = vec_to_array(Vec::<u16>::new()).unwrap();
    assert_eq!(empty, [0u16; 0]);
    let words: [String; 2] = vec_to_array(vec!["a".to_string(), "b".to_string()]).unwrap();
    assert_eq!(words, ["a".to_string(), "b".to_string()]);
}

#[test]
fn vec_to_array_of_wrong_length() {
    let short: Result<[u8; 8], OcrError> = vec_to_array(vec![1u8, 2, 3]);
    assert_eq!(short, Err(OcrError::ArityMismatch { expected: 8, received: 3 }));
    let long: Result<[u8; 2], OcrError> = vec_to_array(vec![1u8, 2, 3]);
    assert_eq!(long, Err(OcrError::ArityMismatch { expected: 2, received: 3 }));
}

#[test]
fn try_encode_gives_what_encode_gives() {
    let buffers = vec![vec![1u8], vec![2u8, 3], vec![], vec![4u8, 5, 6]];
    let widths = vec![2usize, 2, 3, 5];
    assert_eq!(
        try_encode_fixed_bytes(&buffers, &widths),
        Ok(encode_fixed_bytes(&buffers, &widths))
    );
    assert_eq!(
        try_encode_fixed_bytes(&buffers, &widths),
        Ok(vec![0, 1, 2, 3, 0, 0, 0, 0, 0, 4, 5, 6])
    );
}

#[test]
fn try_encode_rejects_an_overlong_buffer() {
    let buffers = vec![vec![1u8], vec![2u8, 3, 4], vec![5u8, 6, 7, 8]];
    let widths = vec![1usize, 2, 3];
    assert_eq!(
        try_encode_fixed_bytes(&buffers, &widths),
        Err(OcrError::OverlongField { index: 1, width: 2, length: 3 })
    );
}

#[test]
fn try_encode_rejects_another_number_of_buffers() {
    let buffers = vec![vec![1u8], vec![2u8]];
    assert_eq!(
        try_encode_fixed_bytes(&buffers, &vec![1usize, 1, 1]),
        Err(OcrError::FieldCountMismatch { buffers: 2, widths: 3 })
    );
    assert_eq!(
        try_encode_fixed_bytes(&buffers, &vec![1usize]),
        Err(OcrError::FieldCountMismatch { buffers: 2, widths: 1 })
    );
}
