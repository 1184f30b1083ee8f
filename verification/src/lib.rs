//! PNG chunk manipulation: parse a PNG byte stream into its chunks, validate
//! and classify chunk type codes, compute and verify per-chunk CRC-32
//! checksums, and insert, locate, or remove chunks without touching the rest
//! of the stream.

pub mod chunk;
pub mod chunk_type;
pub mod crc;
pub mod png;
pub mod text;
pub mod wire;
