use pngme::chunk::{Chunk, ChunkError};
use pngme::chunk_type::ChunkType;
use pngme::png::{Png, PngError};

fn chunk_of(code: &str, data: &[u8]) -> Chunk {
    let ct = ChunkType::from_str(code).unwrap();
    Chunk::new(ct, data.to_vec())
}

/// A minimal valid PNG: signature, an IHDR chunk, an IEND chunk.
fn minimal_png_bytes() -> Vec<u8> {
    let ihdr_data = [0, 0, 0, 1, 0, 0, 0, 1, 8, 0, 0, 0, 0];
    let png = Png::from_chunks(vec![chunk_of("IHDR", &ihdr_data), chunk_of("IEND", &[])]);
    png.as_bytes()
}

#[test]
fn test_parse_then_serialize_is_identity() {
    let original = minimal_png_bytes();
    let png = Png::parse(&original).unwrap();
    assert_eq!(png.as_bytes(), original);
}

#[test]
fn test_parse_reads_chunks_in_order() {
    let bytes = minimal_png_bytes();
    let png = Png::parse(&bytes).unwrap();
    assert_eq!(png.chunks().len(), 2);
    assert_eq!(png.chunks()[0].chunk_type().to_string(), "IHDR");
    assert_eq!(png.chunks()[1].chunk_type().to_string(), "IEND");
}

#[test]
fn test_parse_rejects_bad_signature() {
    let mut bytes = minimal_png_bytes();
    bytes[0] = 0x88;
    assert_eq!(Png::parse(&bytes), Err(PngError::BadSignature));
    assert_eq!(Png::parse(&[]), Err(PngError::BadSignature));
    assert_eq!(Png::parse(&bytes[..7]), Err(PngError::BadSignature));
}

#[test]
fn test_parse_rejects_truncated_chunk() {
    let bytes = minimal_png_bytes();
    let cut = &bytes[..bytes.len() - 1];
    assert_eq!(Png::parse(cut), Err(PngError::Chunk(ChunkError::Truncated)));
}

#[test]
fn test_parse_rejects_corrupted_chunk() {
    let mut bytes = minimal_png_bytes();
    // Flip one bit inside the IHDR payload.
    bytes[17] ^= 1;
    assert_eq!(
        Png::parse(&bytes),
        Err(PngError::Chunk(ChunkError::ChecksumMismatch))
    );
}

#[test]
fn test_append_then_find_returns_appended_chunk() {
    let bytes = minimal_png_bytes();
    let mut png = Png::parse(&bytes).unwrap();
    assert!(png.chunk_by_type("ruSt").is_none());
    png.append_chunk(chunk_of("ruSt", b"message"));
    let found = png.chunk_by_type("ruSt").unwrap();
    assert_eq!(found.chunk_type().to_string(), "ruSt");
    assert_eq!(found.data(), b"message");
}

#[test]
fn test_find_returns_first_of_duplicates() {
    let mut png = Png::from_chunks(vec![chunk_of("IHDR", &[1])]);
    png.append_chunk(chunk_of("teSt", b"first"));
    png.append_chunk(chunk_of("teSt", b"second"));
    let found = png.chunk_by_type("teSt").unwrap();
    assert_eq!(found.data(), b"first");
}

#[test]
fn test_remove_chunk_keeps_order_of_rest() {
    let mut png = Png::from_chunks(vec![
        chunk_of("IHDR", &[1]),
        chunk_of("teSt", b"gone"),
        chunk_of("IEND", &[]),
    ]);
    let removed = png.remove_chunk("teSt").unwrap();
    assert_eq!(removed.data(), b"gone");
    assert_eq!(png.chunks().len(), 2);
    assert_eq!(png.chunks()[0].chunk_type().to_string(), "IHDR");
    assert_eq!(png.chunks()[1].chunk_type().to_string(), "IEND");
}

#[test]
fn test_remove_chunk_absent_type_fails_and_changes_nothing() {
    let bytes = minimal_png_bytes();
    let mut png = Png::parse(&bytes).unwrap();
    let before = png.as_bytes();
    let r = png.remove_chunk("none");
    assert_eq!(r, Err(PngError::NotFound));
    assert_eq!(png.chunks().len(), 2);
    assert_eq!(png.as_bytes(), before);
}

#[test]
fn test_encode_then_decode_message_end_to_end() {
    // The whole command flow on an in-memory file: embed a message, write
    // the bytes out, read them back, extract the message.
    let file = minimal_png_bytes();
    let mut png = Png::parse(&file).unwrap();
    let ct = ChunkType::from_str("ruSt").unwrap();
    png.append_chunk(Chunk::new(ct, "hello".as_bytes().to_vec()));
    let written = png.as_bytes();

    let reread = Png::parse(&written).unwrap();
    let found = reread.chunk_by_type("ruSt").unwrap();
    assert_eq!(found.data_as_string().unwrap(), "hello");
}

#[test]
fn test_serialize_from_chunks_layout() {
    let png = Png::from_chunks(vec![chunk_of("IEND", &[])]);
    let bytes = png.as_bytes();
    assert_eq!(
        &bytes[..8],
        &[0x89, 0x50, 0x4E, 0x47, 0x0D, 0x0A, 0x1A, 0x0A]
    );
    assert_eq!(&bytes[8..12], &[0, 0, 0, 0]);
    assert_eq!(&bytes[12..16], b"IEND");
    assert_eq!(&bytes[16..20], &0xAE426082u32.to_be_bytes());
    assert_eq!(bytes.len(), 20);
}
