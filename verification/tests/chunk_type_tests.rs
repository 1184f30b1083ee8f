use pngme::chunk_type::{ChunkType, ChunkTypeError};

#[test]
pub fn test_chunk_type_from_bytes() {
    let expected = [82, 117, 83, 116];
    let actual = ChunkType::try_from([82, 117, 83, 116]).unwrap();

    assert_eq!(expected, actual.bytes());
}

#[test]
pub fn test_chunk_type_from_str() {
    let expected = ChunkType::try_from([82, 117, 83, 116]).unwrap();
    let actual = ChunkType::from_str("RuSt").unwrap();
    assert_eq!(expected, actual);
}

#[test]
pub fn test_chunk_type_is_critical() {
    let chunk = ChunkType::from_str("RuSt").unwrap();
    assert!(chunk.is_critical());
}

#[test]
pub fn test_chunk_type_is_not_critical() {
    let chunk = ChunkType::from_str("ruSt").unwrap();
    assert!(!chunk.is_critical());
}

#[test]
pub fn test_chunk_type_is_public() {
    let chunk = ChunkType::from_str("RUSt").unwrap();
    assert!(chunk.is_public());
}

#[test]
pub fn test_chunk_type_is_not_public() {
    let chunk = ChunkType::from_str("RuSt").unwrap();
    assert!(!chunk.is_public());
}

#[test]
pub fn test_chunk_type_is_reserved_bit_valid() {
    let chunk = ChunkType::from_str("RuSt").unwrap();
    assert!(chunk.is_reserved_bit_valid());
}

#[test]
pub fn test_chunk_type_is_reserved_bit_invalid() {
    let chunk = ChunkType::from_str("Rust").unwrap();
    assert!(!chunk.is_reserved_bit_valid());
}

#[test]
pub fn test_chunk_type_is_safe_to_copy() {
    let chunk = ChunkType::from_str("RuSt").unwrap();
    assert!(chunk.is_safe_to_copy());
}

#[test]
pub fn test_chunk_type_is_unsafe_to_copy() {
    let chunk = ChunkType::from_str("RuST").unwrap();
    assert!(!chunk.is_safe_to_copy());
}

#[test]
pub fn test_valid_chunk_is_valid() {
    let chunk = ChunkType::from_str("RuSt").unwrap();
    assert!(chunk.is_valid());
}

#[test]
pub fn test_invalid_chunk_is_valid() {
    let chunk = ChunkType::from_str("Rust").unwrap();
    assert!(!chunk.is_valid());

    let chunk = ChunkType::from_str("Ru1t");
    assert!(chunk.is_err());
}

#[test]
pub fn test_chunk_type_string() {
    let chunk = ChunkType::from_str("RuSt").unwrap();
    assert_eq!(&chunk.to_string(), "RuSt");
}

#[test]
pub fn test_chunk_type_trait_impls() {
    let chunk_type_1: ChunkType = ChunkType::try_from([82, 117, 83, 116]).unwrap();
    let chunk_type_2: ChunkType = ChunkType::from_str("RuSt").unwrap();
    let _chunk_string = chunk_type_1.to_string();
    let _are_chunks_equal = chunk_type_1 == chunk_type_2;
}

#[test]
fn test_all_letter_codes_construct_and_keep_bytes() {
    for &code in &[*b"RuSt", *b"IHDR", *b"IEND", *b"abcd", *b"WXYZ", *b"zzzz", *b"AAAA"] {
        let ct = ChunkType::try_from(code).unwrap();
        assert_eq!(ct.bytes(), code);
    }
}

#[test]
fn test_non_letter_byte_fails_with_invalid_character() {
    let r = ChunkType::try_from([82, 49, 83, 116]);
    assert_eq!(r, Err(ChunkTypeError::InvalidCharacter(49)));

    let r = ChunkType::try_from([32, 49, 83, 116]);
    assert_eq!(r, Err(ChunkTypeError::InvalidCharacter(32)));

    let r = ChunkType::try_from([82, 117, 83, 0]);
    assert_eq!(r, Err(ChunkTypeError::InvalidCharacter(0)));
}

#[test]
fn test_flags_follow_byte_case() {
    let ct = ChunkType::from_str("RuSt").unwrap();
    assert!(ct.is_critical());
    assert!(!ct.is_public());
    assert!(ct.is_reserved_bit_valid());
    assert!(ct.is_safe_to_copy());
    assert!(ct.is_valid());

    let ct = ChunkType::from_str("rUsT").unwrap();
    assert!(!ct.is_critical());
    assert!(ct.is_public());
    assert!(!ct.is_reserved_bit_valid());
    assert!(!ct.is_safe_to_copy());
    assert!(!ct.is_valid());
}

#[test]
fn test_from_str_length_errors() {
    assert_eq!(
        ChunkType::from_str("RuS"),
        Err(ChunkTypeError::InvalidLength(3))
    );
    assert_eq!(
        ChunkType::from_str("RuSty"),
        Err(ChunkTypeError::InvalidLength(5))
    );
    assert_eq!(ChunkType::from_str(""), Err(ChunkTypeError::InvalidLength(0)));
    // A two-character string of two-byte characters has byte length four but
    // no ASCII letters in it.
    assert_eq!(
        ChunkType::from_str("éé"),
        Err(ChunkTypeError::InvalidCharacter(0xC3))
    );
}
