use ocr_core::big_endian::{from_be_bytes, to_be_bytes, u16_from_be_bytes, u64_from_be_bytes};

#[test]
fn to_be_bytes_matches_std() {
    assert_eq!(to_be_bytes(231, 2), 231u16.to_be_bytes().to_vec());
    assert_eq!(to_be_bytes(5_354, 8), 5_354u64.to_be_bytes().to_vec());
    assert_eq!(to_be_bytes(77, 1), vec![77]);
    assert_eq!(
        to_be_bytes(0x0102_0304_0506_0708, 8),
        vec![1, 2, 3, 4, 5, 6, 7, 8]
    );
    assert_eq!(to_be_bytes(u64::MAX, 8), vec![0xff; 8]);
    assert_eq!(to_be_bytes(0, 8), vec![0; 8]);
    assert_eq!(to_be_bytes(0xffff, 2), vec![0xff, 0xff]);
}

#[test]
fn to_be_bytes_of_other_widths() {
    assert_eq!(to_be_bytes(0x0102, 0), Vec::<u8>::new());
    assert_eq!(to_be_bytes(0x0102, 1), vec![2]);
    assert_eq!(to_be_bytes(0x0102, 4), vec![0, 0, 1, 2]);
    assert_eq!(to_be_bytes(u64::MAX, 10), vec![0, 0, 255, 255, 255, 255, 255, 255, 255, 255]);
}

#[test]
fn from_be_bytes_matches_std() {
    assert_eq!(from_be_bytes(&[]), 0);
    assert_eq!(from_be_bytes(&[0x14, 0xea]), 5_354);
    assert_eq!(from_be_bytes(&[1, 2, 3, 4, 5, 6, 7, 8]), 0x0102_0304_0506_0708);
    assert_eq!(from_be_bytes(&[0xff; 8]), u64::MAX);
    assert_eq!(u16_from_be_bytes([0x00, 0xe7]), 231);
    assert_eq!(u16_from_be_bytes([0xff, 0xff]), u16::MAX);
    assert_eq!(u16_from_be_bytes([0x12, 0x34]), u16::from_be_bytes([0x12, 0x34]));
    assert_eq!(
        u64_from_be_bytes([0, 0, 0, 0, 0, 0xe4, 0xe3, 0x64]),
        15_000_420
    );
}

#[test]
fn bytes_and_values_round_trip() {
    for value in [0u64, 1, 255, 256, 65_535, 65_536, u64::MAX / 3, u64::MAX] {
        let bytes = to_be_bytes(value, 8);
        assert_eq!(from_be_bytes(&bytes), value);
    }
}
