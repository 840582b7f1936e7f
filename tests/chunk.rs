use pngme::chunk::Chunk;
use pngme::chunk_type::ChunkType;
use pngme::error::FormatError;
use std::str::FromStr;

fn framed(data_length: u32, chunk_type: &[u8], message_bytes: &[u8], crc: u32) -> Vec<u8> {
    data_length
        .to_be_bytes()
        .iter()
        .chain(chunk_type.iter())
        .chain(message_bytes.iter())
        .chain(crc.to_be_bytes().iter())
        .copied()
        .collect()
}

fn testing_chunk() -> Chunk {
    let data_length: u32 = 42;
    let chunk_type = "RuSt".as_bytes();
    let message_bytes = "This is where your secret message will be!".as_bytes();
    let crc: u32 = 2882656334;

    let chunk_data = framed(data_length, chunk_type, message_bytes, crc);

    Chunk::parse(chunk_data.as_ref()).unwrap()
}

#[test]
fn test_new_chunk() {
    let chunk_type = ChunkType::from_str("RuSt").unwrap();
    let data = "This is where your secret message will be!"
        .as_bytes()
        .to_vec();
    let chunk = Chunk::new(chunk_type, data);
    assert_eq!(chunk.length(), 42);
    assert_eq!(chunk.crc(), 2882656334);
}

#[test]
fn test_chunk_length() {
    let chunk = testing_chunk();
    assert_eq!(chunk.length(), 42);
}

#[test]
fn test_chunk_type() {
    let chunk = testing_chunk();
    assert_eq!(chunk.chunk_type().try_to_string().unwrap(), String::from("RuSt"));
}

#[test]
fn test_chunk_string() {
    let chunk = testing_chunk();
    let chunk_string = chunk.data_as_string().unwrap();
    let expected_chunk_string = String::from("This is where your secret message will be!");
    assert_eq!(chunk_string, expected_chunk_string);
}

#[test]
fn test_chunk_crc() {
    let chunk = testing_chunk();
    assert_eq!(chunk.crc(), 2882656334);
}

#[test]
fn test_valid_chunk_from_bytes() {
    let data_length: u32 = 42;
    let chunk_type = "RuSt".as_bytes();
    let message_bytes = "This is where your secret message will be!".as_bytes();
    let crc: u32 = 2882656334;

    let chunk_data = framed(data_length, chunk_type, message_bytes, crc);

    let chunk = Chunk::parse(chunk_data.as_ref()).unwrap();

    let chunk_string = chunk.data_as_string().unwrap();
    let expected_chunk_string = String::from("This is where your secret message will be!");

    assert_eq!(chunk.length(), 42);
    assert_eq!(chunk.chunk_type().try_to_string().unwrap(), String::from("RuSt"));
    assert_eq!(chunk_string, expected_chunk_string);
    assert_eq!(chunk.crc(), 2882656334);
}

#[test]
fn test_invalid_chunk_from_bytes() {
    let data_length: u32 = 42;
    let chunk_type = "RuSt".as_bytes();
    let message_bytes = "This is where your secret message will be!".as_bytes();
    let crc: u32 = 2882656333;

    let chunk_data = framed(data_length, chunk_type, message_bytes, crc);

    let chunk = Chunk::parse(chunk_data.as_ref());

    assert!(chunk.is_err());
}

#[test]
fn test_chunk_trait_impls() {
    let data_length: u32 = 42;
    let chunk_type = "RuSt".as_bytes();
    let message_bytes = "This is where your secret message will be!".as_bytes();
    let crc: u32 = 2882656334;

    let chunk_data = framed(data_length, chunk_type, message_bytes, crc);

    let chunk: Chunk = Chunk::parse(chunk_data.as_ref()).unwrap();

    let _chunk_string = format!("{:?}", chunk);
}

#[test]
fn known_checksum_of_secret_message() {
    let code = ChunkType::from_readable_string("RuSt").unwrap();
    let data = "This is where your secret message will be!".as_bytes().to_vec();
    let chunk = Chunk::new(code, data);
    assert_eq!(chunk.crc(), 2882656334);
}

#[test]
fn checksum_check_value_of_the_algorithm() {
    let code = ChunkType::from_raw_bytes([b'1', b'2', b'3', b'4']);
    let chunk = Chunk::new(code, b"56789".to_vec());
    assert_eq!(chunk.crc(), 0xcbf43926);
}

#[test]
fn new_chunk_round_trips_through_parse() {
    let code = ChunkType::from_readable_string("ruSt").unwrap();
    let chunk = Chunk::new(code, b"hello".to_vec());
    let bytes = chunk.as_bytes();
    assert_eq!(bytes.len(), 12 + 5);
    assert_eq!(&bytes[0..4], &[0, 0, 0, 5]);
    assert_eq!(&bytes[4..8], b"ruSt");
    assert_eq!(&bytes[8..13], b"hello");
    assert_eq!(&bytes[13..17], &chunk.crc().to_be_bytes());
    let back = Chunk::parse(&bytes).unwrap();
    assert!(back == chunk);
}

#[test]
fn empty_payload_round_trips() {
    let code = ChunkType::from_readable_string("IEND").unwrap();
    let chunk = Chunk::new(code, Vec::new());
    let bytes = chunk.as_bytes();
    assert_eq!(bytes.len(), 12);
    assert_eq!(chunk.crc(), 0xae426082);
    assert!(Chunk::parse(&bytes).unwrap() == chunk);
}

#[test]
fn parse_of_short_buffers_is_too_short() {
    for n in 0..12 {
        let bytes = vec![0u8; n];
        assert_eq!(Chunk::parse(&bytes).unwrap_err(), FormatError::TooShort);
    }
}

#[test]
fn parse_with_declared_length_past_the_end_is_truncated() {
    let bytes = framed(43, b"RuSt", b"This is where your secret message will be!", 2882656334);
    assert_eq!(Chunk::parse(&bytes).unwrap_err(), FormatError::Truncated);
    let huge = framed(u32::MAX, b"RuSt", b"", 0);
    assert_eq!(Chunk::parse(&huge).unwrap_err(), FormatError::Truncated);
}

#[test]
fn wrong_stored_checksum_is_crc_mismatch() {
    let bytes = framed(42, b"RuSt", b"This is where your secret message will be!", 2882656333);
    assert_eq!(Chunk::parse(&bytes).unwrap_err(), FormatError::CrcMismatch);
}

#[test]
fn every_single_bit_flip_in_type_or_data_is_detected() {
    let code = ChunkType::from_readable_string("RuSt").unwrap();
    let chunk = Chunk::new(code, b"hello".to_vec());
    let bytes = chunk.as_bytes();
    for i in 4..bytes.len() - 4 {
        for bit in 0..8 {
            let mut flipped = bytes.clone();
            flipped[i] ^= 1 << bit;
            assert_eq!(Chunk::parse(&flipped).unwrap_err(), FormatError::CrcMismatch);
        }
    }
}

#[test]
fn trailing_bytes_after_a_chunk_are_ignored() {
    let code = ChunkType::from_readable_string("RuSt").unwrap();
    let chunk = Chunk::new(code, b"abc".to_vec());
    let mut bytes = chunk.as_bytes();
    bytes.extend_from_slice(&[1, 2, 3]);
    assert!(Chunk::parse(&bytes).unwrap() == chunk);
}

#[test]
fn payload_that_is_not_utf8_is_invalid_utf8() {
    let code = ChunkType::from_readable_string("RuSt").unwrap();
    let chunk = Chunk::new(code, vec![0xc3, 0x28]);
    assert_eq!(chunk.data_as_string().unwrap_err(), FormatError::InvalidUtf8);
    assert_eq!(chunk.data(), &[0xc3, 0x28]);
}

#[test]
fn chunks_differing_in_payload_are_not_equal() {
    let a = Chunk::new(ChunkType::from_readable_string("RuSt").unwrap(), b"a".to_vec());
    let b = Chunk::new(ChunkType::from_readable_string("RuSt").unwrap(), b"b".to_vec());
    assert!(a != b);
}
