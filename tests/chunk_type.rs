use std::convert::TryFrom;
use std::str::FromStr;

use pngme::chunk_type::{ChunkType, ChunkTypeError, ChunkTypeWrapper};

#[test]
pub fn test_chunk_type_from_bytes() {
    let expected = [82, 117, 83, 116];
    let actual = ChunkType::try_from([82, 117, 83, 116]).unwrap();

    assert_eq!(expected, actual.bytes());
}

#[test]
pub fn test_chunk_type_from_str() {
    let expected = ChunkType::try_from([82, 117, 83, 116]).unwrap();
    let actual = ChunkType::from_str("RuSt").unwrap();
    assert_eq!(expected, actual);
}

#[test]
pub fn test_chunk_type_is_critical() {
    let chunk = ChunkType::from_str("RuSt").unwrap();
    assert!(chunk.is_critical());
}

#[test]
pub fn test_chunk_type_is_not_critical() {
    let chunk = ChunkType::from_str("ruSt").unwrap();
    assert!(!chunk.is_critical());
}

#[test]
pub fn test_chunk_type_is_public() {
    let chunk = ChunkType::from_str("RUSt").unwrap();
    assert!(chunk.is_public());
}

#[test]
pub fn test_chunk_type_is_not_public() {
    let chunk = ChunkType::from_str("RuSt").unwrap();
    assert!(!chunk.is_public());
}

#[test]
pub fn test_chunk_type_is_reserved_bit_valid() {
    let chunk = ChunkType::from_str("RuSt").unwrap();
    assert!(chunk.is_reserved_bit_valid());
}

#[test]
pub fn test_chunk_type_is_reserved_bit_invalid() {
    let chunk = ChunkType::from_str("Rust").unwrap();
    assert!(!chunk.is_reserved_bit_valid());
}

#[test]
pub fn test_chunk_type_is_safe_to_copy() {
    let chunk = ChunkType::from_str("RuSt").unwrap();
    assert!(chunk.is_safe_to_copy());
}

#[test]
pub fn test_chunk_type_is_unsafe_to_copy() {
    let chunk = ChunkType::from_str("RuST").unwrap();
    assert!(!chunk.is_safe_to_copy());
}

#[test]
pub fn test_valid_chunk_is_valid() {
    let chunk = ChunkType::from_str("RuSt").unwrap();
    assert!(chunk.is_valid());
}

#[test]
pub fn test_invalid_chunk_is_valid() {
    let chunk = ChunkType::from_str("Rust").unwrap();
    assert!(!chunk.is_valid());

    let chunk = ChunkType::from_str("Ru1t");
    assert!(chunk.is_err());
}

#[test]
pub fn test_chunk_type_string() {
    let chunk = ChunkType::from_str("RuSt").unwrap();
    assert_eq!(&chunk.to_string(), "RuSt");
}

#[test]
pub fn test_chunk_type_trait_impls() {
    let chunk_type_1: ChunkType = TryFrom::try_from([82, 117, 83, 116]).unwrap();
    let chunk_type_2: ChunkType = FromStr::from_str("RuSt").unwrap();
    let _chunk_string = chunk_type_1.to_string();
    let _are_chunks_equal = chunk_type_1 == chunk_type_2;
}

#[test]
fn from_string_rejects_a_digit() {
    assert_eq!(ChunkType::from_str("Ru1t"), Err(ChunkTypeError::AsciiError));
}

#[test]
fn from_string_rejects_wrong_lengths() {
    assert_eq!(ChunkType::from_str("Ru"), Err(ChunkTypeError::InvalidLength));
    assert_eq!(ChunkType::from_str(""), Err(ChunkTypeError::InvalidLength));
    assert_eq!(ChunkType::from_str("RuStX"), Err(ChunkTypeError::InvalidLength));
    // four characters but five bytes
    assert_eq!(ChunkType::from_str("Ru\u{e9}t"), Err(ChunkTypeError::InvalidLength));
}

#[test]
fn from_bytes_rejects_non_letters() {
    assert_eq!(ChunkType::try_from([82, 117, 64, 116]), Err(ChunkTypeError::AsciiError));
    assert_eq!(ChunkType::try_from([82, 117, 91, 116]), Err(ChunkTypeError::AsciiError));
    assert_eq!(ChunkType::try_from([200, 117, 83, 116]), Err(ChunkTypeError::AsciiError));
    let by_trait: Result<ChunkType, ChunkTypeError> = TryFrom::try_from([0, 117, 83, 116]);
    assert_eq!(by_trait, Err(ChunkTypeError::AsciiError));
}

#[test]
fn from_bytes_keeps_reserved_bit_set() {
    let t = ChunkType::try_from(*b"Rust").unwrap();
    assert_eq!(t.bytes(), *b"Rust");
    assert!(!t.is_reserved_bit_valid());
    assert!(!t.is_valid());
}

#[test]
fn flags_of_rust_in_both_cases() {
    let t = ChunkType::from_str("RuSt").unwrap();
    assert_eq!(t.bytes(), [82, 117, 83, 116]);
    assert!(t.is_critical());
    assert!(!t.is_public());
    assert!(t.is_reserved_bit_valid());
    assert!(t.is_safe_to_copy());
    assert!(t.is_valid());
    let t = ChunkType::from_str("Rust").unwrap();
    assert!(!t.is_reserved_bit_valid());
    assert!(!t.is_valid());
}

#[test]
fn has_bytes_compares_exactly() {
    let t = ChunkType::from_str("teXt").unwrap();
    assert!(t.has_bytes(b"teXt"));
    assert!(!t.has_bytes(b"text"));
    assert!(!t.has_bytes(b"teX"));
}

#[test]
fn wrapper_reports_messages() {
    assert!(ChunkTypeWrapper::from_str("IHDR").unwrap().0 == ChunkType::from_str("IHDR").unwrap());
    assert_eq!(
        ChunkTypeWrapper::from_str("I1DR").err(),
        Some(String::from("all bytes must be ascii a-z or A-Z"))
    );
    assert_eq!(
        ChunkTypeWrapper::from_str("IHD").err(),
        Some(String::from("length of string must be exactly 4 bytes"))
    );
}
