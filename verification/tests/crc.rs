use pngme::crc::{checksum_by_definition, POLYNOMIAL};
use pngme::text::{ascii_string, decimal, push_decimal, utf8_text};

#[test]
fn crc32_known_values() {
    assert_eq!(POLYNOMIAL, 0xedb8_8320);
    assert_eq!(checksum_by_definition(b""), 0);
    assert_eq!(checksum_by_definition(b"123456789"), 0xcbf4_3926);
    assert_eq!(checksum_by_definition(b"hello world"), 0x0d4a_1185);
    assert_eq!(checksum_by_definition(b"IEND"), 0xae42_6082);
    assert_eq!(
        checksum_by_definition(b"RuStThis is where your secret message will be!"),
        2882656334
    );
    assert_eq!(checksum_by_definition(&[0u8; 32]), 0x190a_55ad);
    assert_eq!(checksum_by_definition(&[0xffu8; 32]), 0xff6c_ab0b);
}

#[test]
fn decimal_numerals() {
    assert_eq!(decimal(0), "0");
    assert_eq!(decimal(7), "7");
    assert_eq!(decimal(10), "10");
    assert_eq!(decimal(42), "42");
    assert_eq!(decimal(2882656334), "2882656334");
    assert_eq!(decimal(u64::MAX), "18446744073709551615");
    let mut out = b"n=".to_vec();
    push_decimal(&mut out, 1005);
    assert_eq!(out, b"n=1005");
}

#[test]
fn text_from_bytes() {
    assert_eq!(ascii_string(b"RuSt".to_vec()), "RuSt");
    assert_eq!(ascii_string(Vec::new()), "");
    assert_eq!(utf8_text(b"hello".to_vec()), Some(String::from("hello")));
    assert_eq!(utf8_text(vec![0xe2, 0x82, 0xac]), Some(String::from("\u{20ac}")));
    assert_eq!(utf8_text(vec![0xe2, 0x82]), None);
    assert_eq!(utf8_text(vec![0xc0, 0x80]), None);
    assert_eq!(utf8_text(vec![0xed, 0xa0, 0x80]), None);
}
