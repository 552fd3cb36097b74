use std::convert::TryFrom;
use std::str::FromStr;

use pngme::chunk_type::ChunkType;
use pngme::error::PngError;

#[test]
pub fn test_chunk_type_from_bytes() {
    let expected = [82, 117, 83, 116];
    let actual = ChunkType::try_from([82, 117, 83, 116]).unwrap();

    assert_eq!(expected, actual.bytes());
}

#[test]
pub fn test_chunk_type_from_str() {
    let expected = ChunkType::try_from([82, 117, 83, 116]).unwrap();
    let actual = ChunkType::from_str("RuSt").unwrap();
    assert_eq!(expected, actual);
}

#[test]
pub fn test_chunk_type_is_critical() {
    let chunk = ChunkType::from_str("RuSt").unwrap();
    assert!(chunk.is_critical());
}

#[test]
pub fn test_chunk_type_is_not_critical() {
    let chunk = ChunkType::from_str("ruSt").unwrap();
    assert!(!chunk.is_critical());
}

#[test]
pub fn test_chunk_type_is_public() {
    let chunk = ChunkType::from_str("RUSt").unwrap();
    assert!(chunk.is_public());
}

#[test]
pub fn test_chunk_type_is_not_public() {
    let chunk = ChunkType::from_str("RuSt").unwrap();
    assert!(!chunk.is_public());
}

#[test]
pub fn test_chunk_type_is_reserved_bit_valid() {
    let chunk = ChunkType::from_str("RuSt").unwrap();
    assert!(chunk.is_reserved_bit_valid());
}

#[test]
pub fn test_chunk_type_is_reserved_bit_invalid() {
    let chunk = ChunkType::from_str("Rust").unwrap();
    assert!(!chunk.is_reserved_bit_valid());
}

#[test]
pub fn test_chunk_type_is_safe_to_copy() {
    let chunk = ChunkType::from_str("RuSt").unwrap();
    assert!(chunk.is_safe_to_copy());
}

#[test]
pub fn test_chunk_type_is_unsafe_to_copy() {
    let chunk = ChunkType::from_str("RuST").unwrap();
    assert!(!chunk.is_safe_to_copy());
}

#[test]
pub fn test_valid_chunk_is_valid() {
    let chunk = ChunkType::from_str("RuSt").unwrap();
    assert!(chunk.is_valid());
}

#[test]
pub fn test_invalid_chunk_is_valid() {
    let chunk = ChunkType::from_str("Rust").unwrap();
    assert!(!chunk.is_valid());

    let chunk = ChunkType::from_str("Ru1t");
    assert!(chunk.is_err());
}

#[test]
pub fn test_chunk_type_string() {
    let chunk = ChunkType::from_str("RuSt").unwrap();
    assert_eq!(&chunk.to_string(), "RuSt");
}

#[test]
pub fn test_chunk_type_trait_impls() {
    let chunk_type_1: ChunkType = TryFrom::try_from([82, 117, 83, 116]).unwrap();
    let chunk_type_2: ChunkType = FromStr::from_str("RuSt").unwrap();
    let _chunk_string = chunk_type_1.to_string();
    let _are_chunks_equal = chunk_type_1 == chunk_type_2;
}

#[test]
fn from_str_accepts_exactly_four_letters() {
    assert!(ChunkType::from_str("ABCd").is_ok());
    assert!(ChunkType::from_str("zzzz").is_ok());
    assert_eq!(ChunkType::from_str("ABC"), Err(PngError::InvalidChunkType));
    assert_eq!(ChunkType::from_str("ABCde"), Err(PngError::InvalidChunkType));
    assert_eq!(ChunkType::from_str(""), Err(PngError::InvalidChunkType));
    assert_eq!(ChunkType::from_str("AB D"), Err(PngError::InvalidChunkType));
    assert_eq!(ChunkType::from_str("AB@D"), Err(PngError::InvalidChunkType));
    assert_eq!(ChunkType::from_str("AB[D"), Err(PngError::InvalidChunkType));
    assert_eq!(ChunkType::from_str("ABé"), Err(PngError::InvalidChunkType));
}

#[test]
fn from_bytes_keeps_reserved_bit_invalid_tags() {
    let t = ChunkType::try_from(*b"Rust").unwrap();
    assert_eq!(t.bytes(), *b"Rust");
    assert!(!t.is_valid());
    assert_eq!(ChunkType::try_from([82, 117, 49, 116]), Err(PngError::InvalidChunkType));
    assert_eq!(ChunkType::try_from([0, 0, 0, 0]), Err(PngError::InvalidChunkType));
}

#[test]
fn flags_read_each_letter_case() {
    let t = ChunkType::from_str("aBcD").unwrap();
    assert!(!t.is_critical());
    assert!(t.is_public());
    assert!(!t.is_reserved_bit_valid());
    assert!(!t.is_safe_to_copy());
    assert!(!t.is_valid());
}
