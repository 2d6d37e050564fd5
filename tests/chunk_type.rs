use pngme::{ChunkError, ChunkType};
use std::str::FromStr;

#[test]
fn rust_type_flags() {
    let t = ChunkType::from_str("RuSt").unwrap();
    assert!(t.is_critical());
    assert!(!t.is_public());
    assert!(t.is_reserved_bit_valid());
    // The fourth byte, 't', is lower case: safe to copy.
    assert!(t.is_safe_to_copy());
    assert!(!ChunkType::from_str("RuST").unwrap().is_safe_to_copy());
    assert_eq!(t.bytes(), [82, 117, 83, 116]);
    assert_eq!(t.to_string(), "RuSt");
}

#[test]
fn lower_case_flags() {
    let t = ChunkType::parse(*b"ruSt").unwrap();
    assert!(!t.is_critical());
    let u = ChunkType::parse(*b"RUSt").unwrap();
    assert!(u.is_public());
    let v = ChunkType::parse(*b"Rust").unwrap();
    assert!(!v.is_reserved_bit_valid());
    assert!(v.is_safe_to_copy());
}

#[test]
fn non_letter_type_fails() {
    assert_eq!(ChunkType::from_str("Ru5t").unwrap_err(), ChunkError::InvalidTypeCode);
    assert_eq!(ChunkType::parse(*b"Ru5t").unwrap_err(), ChunkError::InvalidTypeCode);
    assert_eq!(ChunkType::parse([82, 117, 0, 116]).unwrap_err(), ChunkError::InvalidTypeCode);
    assert_eq!(ChunkType::parse([82, 117, 200, 116]).unwrap_err(), ChunkError::InvalidTypeCode);
    assert_eq!(ChunkType::parse(*b"Ru[t").unwrap_err(), ChunkError::InvalidTypeCode);
    assert_eq!(ChunkType::parse(*b"Ru@t").unwrap_err(), ChunkError::InvalidTypeCode);
}

#[test]
fn type_text_must_be_four_letters() {
    assert_eq!(ChunkType::parse_str("RuS").unwrap_err(), ChunkError::InvalidTypeCode);
    assert_eq!(ChunkType::parse_str("RuStx").unwrap_err(), ChunkError::InvalidTypeCode);
    assert_eq!(ChunkType::parse_str("").unwrap_err(), ChunkError::InvalidTypeCode);
    assert_eq!(ChunkType::parse_str("Ruéa").unwrap_err(), ChunkError::InvalidTypeCode);
    assert_eq!(ChunkType::parse_str("IHDR").unwrap().bytes(), *b"IHDR");
}

#[test]
fn equal_bytes_equal_types() {
    let a = ChunkType::parse(*b"tEXt").unwrap();
    let b = ChunkType::from_str("tEXt").unwrap();
    assert_eq!(a, b);
    assert_ne!(a, ChunkType::parse(*b"TEXt").unwrap());
}
