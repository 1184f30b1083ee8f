use pngme::chunk::{Chunk, ChunkError};
use pngme::chunk_type::{ChunkType, ChunkTypeError};
use pngme::crc::crc32;

fn chunk_of(code: &str, message: &str) -> Chunk {
    let ct = ChunkType::from_str(code).unwrap();
    Chunk::new(ct, message.as_bytes().to_vec())
}

#[test]
fn test_crc32_known_answers() {
    // The classic CRC-32 check value.
    assert_eq!(crc32(b"123456789"), 0xCBF43926);
    // The checksum of an empty IEND chunk, covering its type bytes alone.
    assert_eq!(crc32(b"IEND"), 0xAE426082);
    assert_eq!(crc32(b""), 0);
}

#[test]
fn test_chunk_new_computes_checksum() {
    let chunk = chunk_of("RuSt", "This is where your secret message will be!");
    assert_eq!(chunk.length(), 42);
    assert_eq!(chunk.crc(), 2882656334);
    assert_eq!(chunk.chunk_type().to_string(), "RuSt");
    assert_eq!(
        chunk.data_as_string().unwrap(),
        "This is where your secret message will be!"
    );
}

#[test]
fn test_chunk_encode_layout() {
    let chunk = chunk_of("RuSt", "hi");
    let bytes = chunk.encode();
    assert_eq!(bytes.len(), 14);
    assert_eq!(&bytes[0..4], &[0, 0, 0, 2]);
    assert_eq!(&bytes[4..8], b"RuSt");
    assert_eq!(&bytes[8..10], b"hi");
    let crc = crc32(&bytes[4..10]);
    assert_eq!(&bytes[10..14], &crc.to_be_bytes());
}

#[test]
fn test_chunk_decode_encode_round_trip() {
    let chunk = chunk_of("RuSt", "This is where your secret message will be!");
    let encoded = chunk.encode();
    let decoded = Chunk::decode(&encoded).unwrap();
    assert_eq!(decoded.chunk_type(), chunk.chunk_type());
    assert_eq!(decoded.data(), chunk.data());
    assert_eq!(decoded.crc(), chunk.crc());
}

#[test]
fn test_chunk_decode_round_trip_empty_payload() {
    let chunk = chunk_of("IEND", "");
    let encoded = chunk.encode();
    let decoded = Chunk::decode(&encoded).unwrap();
    assert_eq!(decoded.length(), 0);
    assert_eq!(decoded.crc(), chunk.crc());
}

#[test]
fn test_single_bit_flip_fails_checksum() {
    let chunk = chunk_of("RuSt", "hello");
    let encoded = chunk.encode();
    // Every bit of the type and data regions: bytes 4 .. 4 + 4 + 5.
    for byte_idx in 4..13 {
        for bit in 0..8 {
            let mut tampered = encoded.clone();
            tampered[byte_idx] ^= 1u8 << bit;
            let r = Chunk::decode(&tampered);
            assert_eq!(r, Err(ChunkError::ChecksumMismatch));
        }
    }
}

#[test]
fn test_decode_truncated_buffer() {
    let chunk = chunk_of("RuSt", "hello");
    let encoded = chunk.encode();
    assert_eq!(Chunk::decode(&encoded[..4]), Err(ChunkError::Truncated));
    assert_eq!(
        Chunk::decode(&encoded[..encoded.len() - 1]),
        Err(ChunkError::Truncated)
    );
    assert_eq!(Chunk::decode(&[]), Err(ChunkError::Truncated));
}

#[test]
fn test_decode_bad_type_after_checksum() {
    // A chunk whose checksum verifies but whose type holds a non-letter.
    let mut raw: Vec<u8> = Vec::new();
    raw.extend_from_slice(&2u32.to_be_bytes());
    raw.extend_from_slice(b"Ru1t");
    raw.extend_from_slice(b"hi");
    let crc = crc32(&raw[4..10]);
    raw.extend_from_slice(&crc.to_be_bytes());
    assert_eq!(
        Chunk::decode(&raw),
        Err(ChunkError::BadType(ChunkTypeError::InvalidCharacter(49)))
    );
}

#[test]
fn test_data_as_string_rejects_invalid_utf8() {
    let ct = ChunkType::from_str("RuSt").unwrap();
    let chunk = Chunk::new(ct, vec![0xFF, 0xFE, 0x41]);
    assert_eq!(chunk.data_as_string(), Err(ChunkError::InvalidUtf8));
}

#[test]
fn test_data_as_string_decodes_multibyte_utf8() {
    let ct = ChunkType::from_str("RuSt").unwrap();
    let chunk = Chunk::new(ct, vec![0xC3, 0xA9, 0x21]);
    assert_eq!(chunk.data_as_string().unwrap(), "é!");
}
