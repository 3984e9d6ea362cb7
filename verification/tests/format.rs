use ocr_core::hex_text::is_hex_digit_code;
use ocr_core::util::{is_hex_string, is_ocr_contenthash_format};

const CANONICAL: &str = "0x4d00e700000000000014ea000000000000000000000000000000000f0a5b5600000000001123fb0000000000e4e3040000000000e4e364";

#[test]
fn hex_string_of_right_length() {
    assert!(is_hex_string("0x", 0));
    assert!(is_hex_string("0x0a", 1));
    assert!(is_hex_string("0xDEADbeef", 4));
    assert!(is_hex_string("0x000000000000000000000000000000000f0a5b56", 20));
    assert!(is_hex_string(CANONICAL, 55));
}

#[test]
fn hex_string_needs_the_prefix() {
    assert!(!is_hex_string("", 0));
    assert!(!is_hex_string("0", 0));
    assert!(!is_hex_string("0a0a", 1));
    assert!(!is_hex_string("0X0a", 1));
    assert!(!is_hex_string("1x0a", 1));
    assert!(!is_hex_string("x00a", 1));
}

#[test]
fn hex_string_needs_hexadecimal_digits() {
    assert!(!is_hex_string("0x0g", 1));
    assert!(!is_hex_string("0x 0", 1));
    assert!(!is_hex_string("0x0x", 1));
    assert!(!is_hex_string("0x\u{e9}", 1));
    assert!(!is_hex_string("0x0\u{ff10}", 1));
    assert!(!is_hex_string("\u{ff10}x00", 1));
}

#[test]
fn hex_string_needs_the_length() {
    assert!(!is_hex_string("0x0a", 0));
    assert!(!is_hex_string("0x0a", 2));
    assert!(!is_hex_string("0x0", 0));
    assert!(!is_hex_string("0x0", 1));
    assert!(!is_hex_string("0x", 1));
    assert!(!is_hex_string("0x", -1));
    assert!(!is_hex_string("", -1));
    assert!(!is_hex_string("0x0a", i32::MIN));
    assert!(!is_hex_string("0x0a", i32::MAX));
}

#[test]
fn hex_digit_codes() {
    for code in 0..=255u8 {
        let expected = (code as char).is_ascii_hexdigit();
        assert_eq!(is_hex_digit_code(code), expected);
    }
}

#[test]
fn contenthash_format_accepts_the_canonical_text() {
    assert!(is_ocr_contenthash_format(CANONICAL, None));
    assert!(is_ocr_contenthash_format(CANONICAL, Some(77)));
    assert!(is_ocr_contenthash_format(&CANONICAL.replace("4d", "4D"), None));
}

#[test]
fn contenthash_format_rejects_another_tag() {
    assert!(!is_ocr_contenthash_format(CANONICAL, Some(76)));
    assert!(!is_ocr_contenthash_format(CANONICAL, Some(0)));
    let other = format!("0xff{}", &CANONICAL[4..]);
    assert!(!is_ocr_contenthash_format(&other, None));
    assert!(is_ocr_contenthash_format(&other, Some(255)));
}

#[test]
fn contenthash_format_rejects_malformed_text() {
    assert!(!is_ocr_contenthash_format("", None));
    assert!(!is_ocr_contenthash_format("0x4d", None));
    assert!(!is_ocr_contenthash_format(&CANONICAL[2..], None));
    assert!(!is_ocr_contenthash_format(&CANONICAL[..111], None));
    assert!(!is_ocr_contenthash_format(&format!("{}0", CANONICAL), None));
    assert!(!is_ocr_contenthash_format(&format!("{}g", &CANONICAL[..111]), None));
    assert!(!is_ocr_contenthash_format(&format!("0X{}", &CANONICAL[2..]), None));
}
