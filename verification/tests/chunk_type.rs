use pngme::chunk_type::ChunkType;
use pngme::error::Error;
use std::convert::TryFrom;
use std::str::FromStr;

#[test]
pub fn test_chunk_type_from_bytes() {
    let expected = [82, 117, 83, 116];
    let actual = ChunkType::try_from([82, 117, 83, 116]).unwrap();

    assert_eq!(expected, actual.bytes());
}

#[test]
pub fn test_chunk_type_from_str() {
    let expected = ChunkType::try_from([82, 117, 83, 116]).unwrap();
    let actual = ChunkType::from_str("RuSt").unwrap();
    assert_eq!(expected, actual);
}

#[test]
pub fn test_chunk_type_is_critical() {
    let chunk = ChunkType::from_str("RuSt").unwrap();
    assert!(chunk.is_critical());
}

#[test]
pub fn test_chunk_type_is_not_critical() {
    let chunk = ChunkType::from_str("ruSt").unwrap();
    assert!(!chunk.is_critical());
}

#[test]
pub fn test_chunk_type_is_public() {
    let chunk = ChunkType::from_str("RUSt").unwrap();
    assert!(chunk.is_public());
}

#[test]
pub fn test_chunk_type_is_not_public() {
    let chunk = ChunkType::from_str("RuSt").unwrap();
    assert!(!chunk.is_public());
}

#[test]
pub fn test_chunk_type_is_reserved_bit_valid() {
    let chunk = ChunkType::from_str("RuSt").unwrap();
    assert!(chunk.is_reserved_bit_valid());
}

#[test]
pub fn test_chunk_type_is_reserved_bit_invalid() {
    let chunk = ChunkType::from_str("Rust").unwrap();
    assert!(!chunk.is_reserved_bit_valid());
}

#[test]
pub fn test_chunk_type_is_safe_to_copy() {
    let chunk = ChunkType::from_str("RuSt").unwrap();
    assert!(chunk.is_safe_to_copy());
}

#[test]
pub fn test_chunk_type_is_unsafe_to_copy() {
    let chunk = ChunkType::from_str("RuST").unwrap();
    assert!(!chunk.is_safe_to_copy());
}

#[test]
pub fn test_valid_chunk_is_valid() {
    let chunk = ChunkType::from_str("RuSt").unwrap();
    assert!(chunk.is_valid());
}

#[test]
pub fn test_invalid_chunk_is_valid() {
    let chunk = ChunkType::from_str("Rust").unwrap();
    println!("valid: {}", chunk.is_valid());
    assert!(!chunk.is_valid());

    let chunk = ChunkType::from_str("Ru1t");
    println!("valid: {:?}", chunk);
    assert!(chunk.is_err());
}

#[test]
pub fn test_chunk_type_string() {
    let chunk = ChunkType::from_str("RuSt").unwrap();
    assert_eq!(&chunk.to_string(), "RuSt");
}

#[test]
pub fn test_chunk_type_trait_impls() {
    let chunk_type_1: ChunkType = TryFrom::try_from([82, 117, 83, 116]).unwrap();
    let chunk_type_2: ChunkType = FromStr::from_str("RuSt").unwrap();
    let _chunk_string = format!("{}", chunk_type_1.to_string());
    let _are_chunks_equal = chunk_type_1 == chunk_type_2;
}

#[test]
fn type_code_flags_of_rust() {
    let code = ChunkType::from_str("RuSt").unwrap();
    assert!(code.is_critical());
    assert!(!code.is_public());
    assert!(code.is_reserved_bit_valid());
    assert!(code.is_safe_to_copy());
    assert!(code.is_valid());
}

#[test]
fn type_code_from_str_wants_four_letters() {
    assert_eq!(ChunkType::from_str(""), Err(Error::InvalidChunkType));
    assert_eq!(ChunkType::from_str("RuS"), Err(Error::InvalidChunkType));
    assert_eq!(ChunkType::from_str("RuStx"), Err(Error::InvalidChunkType));
    assert_eq!(ChunkType::from_str("Ru1t"), Err(Error::InvalidChunkType));
    assert_eq!(ChunkType::from_str("Ru t"), Err(Error::InvalidChunkType));
    assert_eq!(ChunkType::from_str("R\u{e9}t"), Err(Error::InvalidChunkType));
    assert_eq!(ChunkType::from_str("\u{e9}\u{e9}"), Err(Error::InvalidChunkType));
    assert_eq!(ChunkType::from_str("@[`{"), Err(Error::InvalidChunkType));
    assert!(ChunkType::from_str("AZaz").is_ok());
}

#[test]
fn type_code_from_str_and_try_from_agree() {
    for text in ["RuSt", "IEND", "Rust", "Ru1t", "abc", ""] {
        assert_eq!(ChunkType::from_str(text), ChunkType::try_from(text));
    }
}

#[test]
fn type_code_from_bytes_wants_letters() {
    assert_eq!(ChunkType::try_from([82, 117, 49, 116]), Err(Error::InvalidChunkType));
    assert_eq!(ChunkType::try_from([0x40, 65, 65, 65]), Err(Error::InvalidChunkType));
    assert_eq!(ChunkType::try_from([65, 0x5b, 65, 65]), Err(Error::InvalidChunkType));
    assert_eq!(ChunkType::try_from([65, 65, 0x60, 65]), Err(Error::InvalidChunkType));
    assert_eq!(ChunkType::try_from([65, 65, 65, 0x7b]), Err(Error::InvalidChunkType));
    assert_eq!(ChunkType::try_from([0x41, 0x5a, 0x61, 0x7a]).unwrap().bytes(), [0x41, 0x5a, 0x61, 0x7a]);
}

#[test]
fn type_code_new_keeps_the_bytes() {
    let any = ChunkType::from_str("IEND").unwrap();
    let made = any.new([82, 117, 83, 116]);
    assert_eq!(made.bytes(), [82, 117, 83, 116]);
    assert_eq!(made, ChunkType::from_str("RuSt").unwrap());
}

#[test]
fn type_code_matches_its_own_text_only() {
    let code = ChunkType::from_str("RuSt").unwrap();
    assert!(code.matches("RuSt"));
    assert!(!code.matches("ruSt"));
    assert!(!code.matches("RuS"));
    assert!(!code.matches("RuStt"));
    assert!(!code.matches(""));
}

#[test]
fn type_codes_compare_by_bytes() {
    let a = ChunkType::from_str("RuSt").unwrap();
    let b = ChunkType::try_from([82, 117, 83, 116]).unwrap();
    let c = ChunkType::from_str("RuST").unwrap();
    assert!(a == b);
    assert!(a != c);
}

#[test]
fn type_code_string_round_trip() {
    for text in ["RuSt", "IEND", "IHDR", "tEXt", "zzzz", "AAAA"] {
        let code = ChunkType::from_str(text).unwrap();
        assert_eq!(code.to_string(), text);
        assert_eq!(code.bytes().to_vec(), text.as_bytes().to_vec());
    }
}
