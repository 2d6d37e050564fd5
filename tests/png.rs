use pngme::png::STANDARD_HEADER;
use pngme::{Chunk, ChunkError, ChunkType, Png};
use std::str::FromStr;

fn chunk(kind: &str, text: &str) -> Chunk {
    Chunk::new(ChunkType::from_str(kind).unwrap(), text.as_bytes().to_vec())
}

fn sample() -> Vec<u8> {
    let mut bytes = STANDARD_HEADER.to_vec();
    for c in [chunk("IHDR", "head"), chunk("tEXt", "one"), chunk("tEXt", "two"), chunk("IEND", "")] {
        bytes.extend(c.as_bytes());
    }
    bytes
}

fn types(png: &Png) -> Vec<String> {
    png.chunks().iter().map(|c| c.chunk_type().to_string()).collect()
}

#[test]
fn signature_alone_is_empty_container() {
    let png = Png::try_from(&STANDARD_HEADER).unwrap();
    assert!(png.chunks().is_empty());
    assert_eq!(png.as_bytes(), STANDARD_HEADER.to_vec());
}

#[test]
fn parse_then_serialize_round_trip() {
    let bytes = sample();
    let png = Png::try_from(&bytes).unwrap();
    assert_eq!(types(&png), vec!["IHDR", "tEXt", "tEXt", "IEND"]);
    assert_eq!(png.as_bytes(), bytes);
    let again = Png::try_from(&png.as_bytes()).unwrap();
    assert_eq!(types(&again), types(&png));
}

#[test]
fn bad_signature_is_rejected() {
    let mut bytes = sample();
    bytes[0] = 0;
    assert_eq!(Png::try_from(&bytes).unwrap_err(), ChunkError::BadSignature);
    assert_eq!(Png::try_from(&STANDARD_HEADER[..7]).unwrap_err(), ChunkError::BadSignature);
    assert_eq!(Png::try_from(&[]).unwrap_err(), ChunkError::BadSignature);
}

#[test]
fn broken_record_fails_parse() {
    let mut bytes = sample();
    let n = bytes.len();
    bytes[n - 1] ^= 0xff;
    assert_eq!(Png::try_from(&bytes).unwrap_err(), ChunkError::ChecksumMismatch);
    let mut short = sample();
    short.truncate(short.len() - 2);
    assert_eq!(Png::try_from(&short).unwrap_err(), ChunkError::TruncatedInput);
    let mut extra = sample();
    extra.push(1);
    assert_eq!(Png::try_from(&extra).unwrap_err(), ChunkError::TruncatedInput);
}

#[test]
fn remove_absent_type_fails_and_keeps_chunks() {
    let bytes = sample();
    let mut png = Png::try_from(&bytes).unwrap();
    let before = png.as_bytes();
    assert_eq!(png.remove_chunk("zzzz").unwrap_err(), ChunkError::NotFound);
    assert_eq!(png.as_bytes(), before);
    assert_eq!(png.remove_chunk("text").unwrap_err(), ChunkError::NotFound);
    assert_eq!(png.as_bytes(), before);
}

#[test]
fn remove_takes_first_match_and_keeps_order() {
    let mut png = Png::try_from(&sample()).unwrap();
    let removed = png.remove_chunk("tEXt").unwrap();
    assert_eq!(removed.data_as_string().unwrap(), "one");
    assert_eq!(types(&png), vec!["IHDR", "tEXt", "IEND"]);
    assert_eq!(png.chunk_by_type("tEXt").unwrap().data(), b"two");
}

#[test]
fn append_then_find() {
    let mut png = Png::try_from(&sample()).unwrap();
    assert!(png.chunk_by_type("RuSt").is_none());
    png.append_chunk(chunk("RuSt", "hidden"));
    let found = png.chunk_by_type("RuSt").unwrap();
    assert_eq!(found.data_as_string().unwrap(), "hidden");
    assert_eq!(types(&png).last().unwrap(), "RuSt");
}

#[test]
fn lookup_sees_first_duplicate_only() {
    let mut png = Png::try_from(&sample()).unwrap();
    png.append_chunk(chunk("tEXt", "three"));
    assert_eq!(png.chunk_by_type("tEXt").unwrap().data(), b"one");
    assert_eq!(png.chunks().len(), 5);
}

#[test]
fn edits_survive_serialization() {
    let mut png = Png::try_from(&sample()).unwrap();
    png.append_chunk(chunk("RuSt", "message"));
    png.remove_chunk("IHDR").unwrap();
    let reparsed = Png::try_from(&png.as_bytes()).unwrap();
    assert_eq!(types(&reparsed), vec!["tEXt", "tEXt", "IEND", "RuSt"]);
    assert_eq!(reparsed.as_bytes(), png.as_bytes());
}
