use pngme::chunk::Chunk;
use pngme::chunk_type::ChunkType;
use pngme::crc::checksum_by_definition;
use pngme::error::{Error, ParseError};
use pngme::png::{Png, SIGNATURE, TERMINATOR};
use std::str::FromStr;

fn chunk(code: &str, payload: &[u8]) -> Chunk {
    Chunk::new(ChunkType::from_str(code).unwrap(), payload.to_vec()).unwrap()
}

fn png_of(chunks: &[(&str, &[u8])]) -> Png {
    let mut png = Png::new();
    for (code, payload) in chunks {
        png.append_chunk(chunk(code, payload));
    }
    png
}

fn type_codes(png: &Png) -> Vec<String> {
    png.chunks().iter().map(|c| c.chunk_type().to_string()).collect()
}

fn raw_chunk(length: u32, code: &[u8], payload: &[u8]) -> Vec<u8> {
    let mut covered = code.to_vec();
    covered.extend_from_slice(payload);
    let crc = checksum_by_definition(&covered);
    let mut bytes = length.to_be_bytes().to_vec();
    bytes.extend_from_slice(&covered);
    bytes.extend_from_slice(&crc.to_be_bytes());
    bytes
}

#[test]
fn png_signature_is_the_png_magic() {
    assert_eq!(SIGNATURE, [0x89, 0x50, 0x4e, 0x47, 0x0d, 0x0a, 0x1a, 0x0a]);
    assert_eq!(Png::new().signature(), SIGNATURE);
    assert_eq!(TERMINATOR, "IEND");
}

#[test]
fn png_empty_is_the_signature_alone() {
    let png = Png::new();
    assert_eq!(png.chunks().len(), 0);
    assert_eq!(png.as_bytes(), SIGNATURE.to_vec());
    let back = Png::try_from(SIGNATURE.as_slice()).unwrap();
    assert_eq!(back.chunks().len(), 0);
}

#[test]
fn png_as_bytes_is_signature_then_chunks() {
    let png = png_of(&[("IHDR", b"abc"), ("IEND", b"")]);
    let mut expected = SIGNATURE.to_vec();
    expected.extend_from_slice(&chunk("IHDR", b"abc").as_bytes());
    expected.extend_from_slice(&chunk("IEND", b"").as_bytes());
    assert_eq!(png.as_bytes(), expected);
}

#[test]
fn png_round_trip() {
    let png = png_of(&[("IHDR", b"0123456789abc"), ("tEXt", b""), ("IDAT", &[0, 1, 2]), ("IEND", b"")]);
    let bytes = png.as_bytes();
    let back = Png::try_from(bytes.as_slice()).unwrap();
    assert_eq!(type_codes(&back), vec!["IHDR", "tEXt", "IDAT", "IEND"]);
    assert_eq!(back.chunks().len(), png.chunks().len());
    for (a, b) in back.chunks().iter().zip(png.chunks().iter()) {
        assert_eq!(a.as_bytes(), b.as_bytes());
    }
    assert_eq!(back.as_bytes(), bytes);
}

#[test]
fn png_zero_length_chunk_takes_twelve_bytes() {
    let png = png_of(&[("tEXt", b""), ("tIME", b""), ("IEND", b"")]);
    let bytes = png.as_bytes();
    assert_eq!(bytes.len(), 8 + 3 * 12);
    let back = Png::try_from(bytes.as_slice()).unwrap();
    assert_eq!(type_codes(&back), vec!["tEXt", "tIME", "IEND"]);
}

#[test]
fn png_shorter_than_the_signature_is_truncated() {
    for n in 0..8 {
        assert_eq!(
            Png::try_from(&SIGNATURE[..n]).err(),
            Some(ParseError { kind: Error::TruncatedFile, offset: 0 })
        );
    }
}

#[test]
fn png_wrong_signature_is_refused() {
    let mut bytes = png_of(&[("IEND", b"")]).as_bytes();
    bytes[0] = 0x88;
    assert_eq!(
        Png::try_from(bytes.as_slice()).err(),
        Some(ParseError { kind: Error::BadSignature, offset: 0 })
    );
    let jpeg = [0xff, 0xd8, 0xff, 0xe0, 0, 16, 74, 70, 73, 70];
    assert_eq!(
        Png::try_from(jpeg.as_slice()).err(),
        Some(ParseError { kind: Error::BadSignature, offset: 0 })
    );
    let mut last = SIGNATURE.to_vec();
    last[7] = 0x0b;
    assert_eq!(
        Png::try_from(last.as_slice()).err(),
        Some(ParseError { kind: Error::BadSignature, offset: 0 })
    );
}

#[test]
fn png_chunk_failures_carry_the_offset_of_the_chunk() {
    let good = png_of(&[("IHDR", b"abc"), ("IEND", b"")]).as_bytes();
    let second = 8 + 12 + 3;

    let cut = &good[..good.len() - 1];
    assert_eq!(
        Png::try_from(cut).err(),
        Some(ParseError { kind: Error::TruncatedChunk, offset: second })
    );

    let mut with_tail = good.clone();
    with_tail.extend_from_slice(&[1, 2, 3]);
    assert_eq!(
        Png::try_from(with_tail.as_slice()).err(),
        Some(ParseError { kind: Error::TruncatedChunk, offset: good.len() })
    );

    let mut bad_crc = good.clone();
    bad_crc[8 + 8] ^= 1;
    assert_eq!(
        Png::try_from(bad_crc.as_slice()).err(),
        Some(ParseError { kind: Error::CrcMismatch, offset: 8 })
    );

    let mut bad_second = good.clone();
    let at = bad_second.len() - 1;
    bad_second[at] ^= 0x80;
    assert_eq!(
        Png::try_from(bad_second.as_slice()).err(),
        Some(ParseError { kind: Error::CrcMismatch, offset: second })
    );

    let mut too_long = good.clone();
    too_long[second + 3] = 200;
    assert_eq!(
        Png::try_from(too_long.as_slice()).err(),
        Some(ParseError { kind: Error::LengthMismatch, offset: second })
    );

    let mut bad_type = SIGNATURE.to_vec();
    bad_type.extend_from_slice(&raw_chunk(2, b"a1cd", b"xy"));
    assert_eq!(
        Png::try_from(bad_type.as_slice()).err(),
        Some(ParseError { kind: Error::InvalidChunkType, offset: 8 })
    );
}

#[test]
fn png_first_failure_wins() {
    let mut bytes = SIGNATURE.to_vec();
    bytes.extend_from_slice(&chunk("IHDR", b"abc").as_bytes());
    let mut broken = chunk("tEXt", b"hello").as_bytes();
    broken[9] ^= 4;
    bytes.extend_from_slice(&broken);
    bytes.extend_from_slice(&[0, 0]);
    assert_eq!(
        Png::try_from(bytes.as_slice()).err(),
        Some(ParseError { kind: Error::CrcMismatch, offset: 8 + 15 })
    );
}

#[test]
fn png_insert_without_terminator_appends() {
    let mut png = png_of(&[("IHDR", b"abc"), ("IDAT", b"xyz")]);
    png.insert_chunk(chunk("ruSt", b"hello"));
    assert_eq!(type_codes(&png), vec!["IHDR", "IDAT", "ruSt"]);

    let mut empty = Png::new();
    empty.insert_chunk(chunk("ruSt", b"hello"));
    assert_eq!(type_codes(&empty), vec!["ruSt"]);
}

#[test]
fn png_insert_with_terminator_goes_before_it() {
    let mut png = png_of(&[("IHDR", b"abc"), ("IDAT", b"xyz"), ("IEND", b"")]);
    png.insert_chunk(chunk("ruSt", b"hello"));
    assert_eq!(type_codes(&png), vec!["IHDR", "IDAT", "ruSt", "IEND"]);
    png.insert_chunk(chunk("teSt", b""));
    assert_eq!(type_codes(&png), vec!["IHDR", "IDAT", "ruSt", "teSt", "IEND"]);

    let mut only_end = png_of(&[("IEND", b"")]);
    only_end.insert_chunk(chunk("ruSt", b"hello"));
    assert_eq!(type_codes(&only_end), vec!["ruSt", "IEND"]);
}

#[test]
fn png_insert_looks_at_the_last_chunk_only() {
    let mut png = png_of(&[("IEND", b""), ("IDAT", b"xyz")]);
    png.insert_chunk(chunk("ruSt", b"hello"));
    assert_eq!(type_codes(&png), vec!["IEND", "IDAT", "ruSt"]);
}

#[test]
fn png_insert_before_a_chosen_terminator() {
    let mut png = png_of(&[("IHDR", b"abc"), ("IEND", b"")]);
    png.insert_chunk_before(chunk("ruSt", b"hello"), "IHDR");
    assert_eq!(type_codes(&png), vec!["IHDR", "IEND", "ruSt"]);
    png.insert_chunk_before(chunk("teSt", b"hello"), "ruSt");
    assert_eq!(type_codes(&png), vec!["IHDR", "IEND", "teSt", "ruSt"]);
}

#[test]
fn png_append_adds_at_the_end() {
    let mut png = png_of(&[("IHDR", b"abc"), ("IEND", b"")]);
    png.append_chunk(chunk("ruSt", b"hello"));
    assert_eq!(type_codes(&png), vec!["IHDR", "IEND", "ruSt"]);
}

#[test]
fn png_chunk_by_type_finds_the_first() {
    let png = png_of(&[("IHDR", b"abc"), ("ruSt", b"one"), ("ruSt", b"two"), ("IEND", b"")]);
    assert_eq!(png.chunk_by_type("ruSt").unwrap().data(), b"one");
    assert_eq!(png.chunk_by_type("IHDR").unwrap().data(), b"abc");
    assert_eq!(png.chunk_by_type("IEND").unwrap().length(), 0);
    assert!(png.chunk_by_type("RuSt").is_none());
    assert!(png.chunk_by_type("ruS").is_none());
    assert!(png.chunk_by_type("").is_none());
    assert!(Png::new().chunk_by_type("ruSt").is_none());
}

#[test]
fn png_remove_takes_the_first_and_keeps_the_order() {
    let mut png = png_of(&[("IHDR", b"abc"), ("ruSt", b"one"), ("IDAT", b""), ("ruSt", b"two"), ("IEND", b"")]);
    let removed = png.remove_chunk("ruSt").unwrap();
    assert_eq!(removed.data(), b"one");
    assert_eq!(type_codes(&png), vec!["IHDR", "IDAT", "ruSt", "IEND"]);
    assert_eq!(png.chunk_by_type("ruSt").unwrap().data(), b"two");
    let removed = png.remove_chunk("ruSt").unwrap();
    assert_eq!(removed.data(), b"two");
    assert_eq!(type_codes(&png), vec!["IHDR", "IDAT", "IEND"]);
    assert_eq!(png.remove_chunk("ruSt").err(), Some(Error::ChunkNotFound));
    assert_eq!(type_codes(&png), vec!["IHDR", "IDAT", "IEND"]);
}

#[test]
fn png_listing() {
    let png = png_of(&[("IHDR", b"abc"), ("IEND", b"")]);
    let first = chunk("IHDR", b"abc").crc();
    assert_eq!(
        png.to_string(),
        format!("Png: 2 chunks\n  IHDR: length 3, crc {}\n  IEND: length 0, crc 2923585666\n", first)
    );
    assert_eq!(Png::new().to_string(), "Png: 0 chunks\n");
}
