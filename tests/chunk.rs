use std::convert::TryFrom;
use std::str::FromStr;

use pngme::chunk::Chunk;
use pngme::chunk_type::ChunkType;
use pngme::error::PngError;

fn testing_chunk() -> Chunk {
    let data_length: u32 = 42;
    let chunk_type = "RuSt".as_bytes();
    let message_bytes = "This is where your secret message will be!".as_bytes();
    let crc: u32 = 2882656334;

    let chunk_data: Vec<u8> = data_length
        .to_be_bytes()
        .iter()
        .chain(chunk_type.iter())
        .chain(message_bytes.iter())
        .chain(crc.to_be_bytes().iter())
        .copied()
        .collect();

    Chunk::try_from(chunk_data.as_ref()).unwrap()
}

fn encoded(length: u32, tag: &[u8], data: &[u8], crc: u32) -> Vec<u8> {
    length
        .to_be_bytes()
        .iter()
        .chain(tag.iter())
        .chain(data.iter())
        .chain(crc.to_be_bytes().iter())
        .copied()
        .collect()
}

#[test]
fn test_new_chunk() {
    let chunk_type = ChunkType::from_str("RuSt").unwrap();
    let data = "This is where your secret message will be!"
        .as_bytes()
        .to_vec();
    let chunk = Chunk::new(chunk_type, data);
    assert_eq!(chunk.length(), 42);
    assert_eq!(chunk.crc(), 2882656334);
}

#[test]
fn test_chunk_length() {
    let chunk = testing_chunk();
    assert_eq!(chunk.length(), 42);
}

#[test]
fn test_chunk_type() {
    let chunk = testing_chunk();
    assert_eq!(chunk.chunk_type().to_string(), String::from("RuSt"));
}

#[test]
fn test_chunk_string() {
    let chunk = testing_chunk();
    let chunk_string = chunk.data_as_string().unwrap();
    let expected_chunk_string = String::from("This is where your secret message will be!");
    assert_eq!(chunk_string, expected_chunk_string);
}

#[test]
fn test_chunk_crc() {
    let chunk = testing_chunk();
    assert_eq!(chunk.crc(), 2882656334);
}

#[test]
fn test_valid_chunk_from_bytes() {
    let data_length: u32 = 42;
    let chunk_type = "RuSt".as_bytes();
    let message_bytes = "This is where your secret message will be!".as_bytes();
    let crc: u32 = 2882656334;

    let chunk_data: Vec<u8> = data_length
        .to_be_bytes()
        .iter()
        .chain(chunk_type.iter())
        .chain(message_bytes.iter())
        .chain(crc.to_be_bytes().iter())
        .copied()
        .collect();

    let chunk = Chunk::try_from(chunk_data.as_ref()).unwrap();

    let chunk_string = chunk.data_as_string().unwrap();
    let expected_chunk_string = String::from("This is where your secret message will be!");

    assert_eq!(chunk.length(), 42);
    assert_eq!(chunk.chunk_type().to_string(), String::from("RuSt"));
    assert_eq!(chunk_string, expected_chunk_string);
    assert_eq!(chunk.crc(), 2882656334);
}

#[test]
fn test_invalid_chunk_from_bytes() {
    let data_length: u32 = 42;
    let chunk_type = "RuSt".as_bytes();
    let message_bytes = "This is where your secret message will be!".as_bytes();
    let crc: u32 = 2882656333;

    let chunk_data: Vec<u8> = data_length
        .to_be_bytes()
        .iter()
        .chain(chunk_type.iter())
        .chain(message_bytes.iter())
        .chain(crc.to_be_bytes().iter())
        .copied()
        .collect();

    let chunk = Chunk::try_from(chunk_data.as_ref());

    assert!(chunk.is_err());
}

#[test]
pub fn test_chunk_trait_impls() {
    let data_length: u32 = 42;
    let chunk_type = "RuSt".as_bytes();
    let message_bytes = "This is where your secret message will be!".as_bytes();
    let crc: u32 = 2882656334;

    let chunk_data: Vec<u8> = data_length
        .to_be_bytes()
        .iter()
        .chain(chunk_type.iter())
        .chain(message_bytes.iter())
        .chain(crc.to_be_bytes().iter())
        .copied()
        .collect();

    let chunk: Chunk = TryFrom::try_from(chunk_data.as_ref()).unwrap();

    let _chunk_string = format!("{:?}", chunk);
}

#[test]
fn as_bytes_lays_out_length_tag_data_crc() {
    let chunk = Chunk::new(ChunkType::from_str("RuSt").unwrap(), b"hi".to_vec());
    let crc = chunk.crc();
    assert_eq!(chunk.as_bytes(), encoded(2, b"RuSt", b"hi", crc));
    let again = Chunk::try_from(chunk.as_bytes().as_slice()).unwrap();
    assert_eq!(again.crc(), crc);
    assert_eq!(again.data(), b"hi");
}

#[test]
fn checksum_of_empty_iend_chunk() {
    let chunk = Chunk::new(ChunkType::from_str("IEND").unwrap(), Vec::new());
    assert_eq!(chunk.length(), 0);
    assert_eq!(chunk.crc(), 0xAE426082);
    assert_eq!(chunk.as_bytes(), vec![0, 0, 0, 0, 73, 69, 78, 68, 0xAE, 0x42, 0x60, 0x82]);
}

#[test]
fn checksum_differs_with_data() {
    let t = ChunkType::from_str("RuSt").unwrap();
    let a = Chunk::new(t.clone(), b"abc".to_vec());
    let b = Chunk::new(t, b"abd".to_vec());
    assert_ne!(a.crc(), b.crc());
}

#[test]
fn flipped_data_bit_is_a_crc_mismatch() {
    let chunk = Chunk::new(ChunkType::from_str("RuSt").unwrap(), b"hello".to_vec());
    let mut bytes = chunk.as_bytes();
    let last_data = 8 + 5 - 1;
    bytes[last_data] ^= 1;
    assert_eq!(Chunk::try_from(bytes.as_slice()).unwrap_err(), PngError::CrcMismatch);
}

#[test]
fn flipped_type_bit_is_refused() {
    let chunk = Chunk::new(ChunkType::from_str("RuSt").unwrap(), b"hello".to_vec());
    let mut bytes = chunk.as_bytes();
    bytes[7] ^= 1;
    assert_eq!(Chunk::try_from(bytes.as_slice()).unwrap_err(), PngError::CrcMismatch);
}

#[test]
fn truncated_chunk_is_refused() {
    let bytes = encoded(10, b"RuSt", b"short", 0);
    assert_eq!(Chunk::try_from(bytes.as_slice()).unwrap_err(), PngError::TruncatedChunk);
    assert_eq!(Chunk::try_from(&[0u8, 0, 0][..]).unwrap_err(), PngError::TruncatedChunk);
}

#[test]
fn reserved_bit_invalid_tag_is_refused_on_parse() {
    let chunk = Chunk::new(ChunkType::from_str("Rust").unwrap(), b"x".to_vec());
    assert_eq!(
        Chunk::try_from(chunk.as_bytes().as_slice()).unwrap_err(),
        PngError::InvalidChunkType
    );
    let bytes = encoded(1, b"R1St", b"x", 0);
    assert_eq!(Chunk::try_from(bytes.as_slice()).unwrap_err(), PngError::InvalidChunkType);
}

#[test]
fn non_utf8_data_is_invalid_utf8() {
    let chunk = Chunk::new(ChunkType::from_str("RuSt").unwrap(), vec![0xff, 0xfe]);
    assert_eq!(chunk.data_as_string(), Err(PngError::InvalidUtf8));
}
