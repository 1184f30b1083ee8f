//! One PNG chunk: a type code, a payload, and the CRC-32 checksum of the two.
//!
//! On the wire a chunk is `length:u32 | type:[u8;4] | data:[u8;length] |
//! checksum:u32`, all big-endian, where `length` counts the payload bytes
//! only and the checksum covers the type and payload bytes but not the
//! length. Decoding verifies the stored checksum against a freshly computed
//! one.

use crate::chunk_type::{all_letters, first_non_letter, ChunkType, ChunkTypeError};
use crate::crc::{crc32, crc32_of, lemma_crc32_byte_change};
use crate::text::utf8_to_string;
use crate::wire::{
    be32_bytes, be32_val, lemma_be32_bytes_of_val, lemma_be32_val_of_bytes, push_u32_be,
    read_u32_be,
};
use vstd::prelude::*;
use vstd::slice::{slice_subrange, slice_to_vec};
use vstd::utf8::{decode_utf8, valid_utf8};

verus! {

/// The mathematical content of one chunk: type code bytes, payload bytes,
/// and the stored checksum.
pub struct ChunkModel {
    pub type_code: Seq<u8>,
    pub data: Seq<u8>,
    pub crc: u32,
}

impl ChunkModel {
    /// Four letter bytes of type code, a payload whose length fits the wire
    /// format's 32-bit length field, and a checksum consistent with both.
    pub open spec fn wf(self) -> bool {
        &&& self.type_code.len() == 4
        &&& all_letters(self.type_code)
        &&& self.data.len() <= u32::MAX
        &&& self.crc == crc32_of(self.type_code + self.data)
    }

    /// The chunk's wire bytes.
    pub open spec fn bytes(self) -> Seq<u8> {
        be32_bytes(self.data.len() as u32) + self.type_code + self.data + be32_bytes(self.crc)
    }
}

/// The payload length a buffer declares in its first four bytes.
pub open spec fn declared_len(bytes: Seq<u8>) -> int
    recommends
        bytes.len() >= 4,
{
    be32_val(bytes.subrange(0, 4)) as int
}

/// The buffer holds the twelve fixed bytes plus the declared payload.
pub open spec fn chunk_in_bounds(bytes: Seq<u8>) -> bool {
    bytes.len() >= 12 && 12 + declared_len(bytes) <= bytes.len()
}

/// The number of wire bytes the chunk at the start of the buffer occupies.
pub open spec fn chunk_size(bytes: Seq<u8>) -> int {
    12 + declared_len(bytes)
}

/// The chunk read from the start of the buffer, fields taken as stored.
pub open spec fn chunk_model_at(bytes: Seq<u8>) -> ChunkModel
    recommends
        chunk_in_bounds(bytes),
{
    let len = declared_len(bytes);
    ChunkModel {
        type_code: bytes.subrange(4, 8),
        data: bytes.subrange(8, 8 + len),
        crc: be32_val(bytes.subrange(8 + len, 12 + len)),
    }
}

/// The stored checksum equals the CRC-32 of the type and payload bytes.
pub open spec fn chunk_checksum_ok(bytes: Seq<u8>) -> bool
    recommends
        chunk_in_bounds(bytes),
{
    let m = chunk_model_at(bytes);
    m.crc == crc32_of(m.type_code + m.data)
}

/// A chunk decodes from the start of the buffer: it is in bounds, its
/// checksum verifies, and its type code is four ASCII letters.
pub open spec fn chunk_parses(bytes: Seq<u8>) -> bool {
    &&& chunk_in_bounds(bytes)
    &&& chunk_checksum_ok(bytes)
    &&& all_letters(chunk_model_at(bytes).type_code)
}

/// Why decoding the start of the buffer fails, checked in this order:
/// bounds, then checksum, then type code syntax.
pub open spec fn chunk_error_at(bytes: Seq<u8>) -> ChunkError
    recommends
        !chunk_parses(bytes),
{
    if !chunk_in_bounds(bytes) {
        ChunkError::Truncated
    } else if !chunk_checksum_ok(bytes) {
        ChunkError::ChecksumMismatch
    } else {
        ChunkError::BadType(
            ChunkTypeError::InvalidCharacter(first_non_letter(chunk_model_at(bytes).type_code)),
        )
    }
}

/// Why a buffer could not be decoded as a chunk, or its payload not read.
#[derive(Debug, PartialEq, Eq)]
pub enum ChunkError {
    /// The buffer is shorter than the declared payload plus the twelve
    /// fixed bytes.
    Truncated,
    /// The stored checksum differs from the CRC-32 of type and payload.
    ChecksumMismatch,
    /// The type code is malformed.
    BadType(ChunkTypeError),
    /// The payload is not valid UTF-8; raised only when reading it as text.
    InvalidUtf8,
}

/// One PNG chunk, its checksum always consistent with its type and payload.
#[derive(Debug, PartialEq, Eq)]
pub struct Chunk {
    chunk_type: ChunkType,
    data: Vec<u8>,
    crc: u32,
}

impl View for Chunk {
    type V = ChunkModel;

    closed spec fn view(&self) -> ChunkModel {
        ChunkModel { type_code: self.chunk_type@, data: self.data@, crc: self.crc }
    }
}

impl Chunk {
    pub open spec fn wf(self) -> bool {
        self@.wf()
    }

    /// Builds a chunk from a type and a payload, computing the checksum.
    pub fn new(chunk_type: ChunkType, data: Vec<u8>) -> (r: Chunk)
        requires
            chunk_type.wf(),
            data@.len() <= u32::MAX,
        ensures
            r.wf(),
            r@.type_code == chunk_type@,
            r@.data == data@,
            r@.crc == crc32_of(chunk_type@ + data@),
    {
        let mut buf: Vec<u8> = Vec::new();
        let tb = chunk_type.bytes();
        buf.push(tb[0]);
        buf.push(tb[1]);
        buf.push(tb[2]);
        buf.push(tb[3]);
        proof {
            assert(buf@ =~= chunk_type@ + data@.take(0));
        }
        let mut i: usize = 0;
        while i < data.len()
            invariant
                i <= data@.len(),
                buf@ == chunk_type@ + data@.take(i as int),
            decreases data@.len() - i,
        {
            buf.push(data[i]);
            proof {
                assert(buf@ =~= chunk_type@ + data@.take(i + 1));
            }
            i = i + 1;
        }
        proof {
            assert(buf@ =~= chunk_type@ + data@);
        }
        let crc = crc32(buf.as_slice());
        Chunk { chunk_type, data, crc }
    }

    /// The payload's length, the value of the wire format's length field.
    pub fn length(&self) -> (r: u32)
        requires
            self.wf(),
        ensures
            r == self@.data.len(),
    {
        self.data.len() as u32
    }

    /// The chunk's type code.
    pub fn chunk_type(&self) -> (r: &ChunkType)
        ensures
            r@ == self@.type_code,
    {
        &self.chunk_type
    }

    /// The chunk's payload.
    pub fn data(&self) -> (r: &Vec<u8>)
        ensures
            r@ == self@.data,
    {
        &self.data
    }

    /// The chunk's stored CRC-32 checksum.
    pub fn crc(&self) -> (r: u32)
        ensures
            r == self@.crc,
    {
        self.crc
    }

    /// The payload read as UTF-8 text.
    pub fn data_as_string(&self) -> (r: Result<String, ChunkError>)
        ensures
            r is Ok <==> valid_utf8(self@.data),
            r matches Ok(s) ==> s@ == decode_utf8(self@.data),
            r matches Err(e) ==> e == ChunkError::InvalidUtf8,
    {
        let mut v: Vec<u8> = Vec::new();
        let mut i: usize = 0;
        while i < self.data.len()
            invariant
                i <= self@.data.len(),
                v@ == self@.data.take(i as int),
            decreases self@.data.len() - i,
        {
            v.push(self.data[i]);
            proof {
                assert(v@ =~= self@.data.take(i + 1));
            }
            i = i + 1;
        }
        proof {
            assert(v@ =~= self@.data);
        }
        match utf8_to_string(v) {
            Some(s) => Ok(s),
            None => Err(ChunkError::InvalidUtf8),
        }
    }

    /// Serializes the chunk into its wire bytes.
    pub fn encode(&self) -> (r: Vec<u8>)
        requires
            self.wf(),
        ensures
            r@ == self@.bytes(),
    {
        let mut out: Vec<u8> = Vec::new();
        push_u32_be(&mut out, self.data.len() as u32);
        let tb = self.chunk_type.bytes();
        out.push(tb[0]);
        out.push(tb[1]);
        out.push(tb[2]);
        out.push(tb[3]);
        proof {
            assert(out@ =~= be32_bytes(self@.data.len() as u32) + self@.type_code + self@.data.take(
                0,
            ));
        }
        let mut i: usize = 0;
        while i < self.data.len()
            invariant
                i <= self@.data.len(),
                out@ == be32_bytes(self@.data.len() as u32) + self@.type_code + self@.data.take(
                    i as int,
                ),
            decreases self@.data.len() - i,
        {
            out.push(self.data[i]);
            proof {
                assert(out@ =~= be32_bytes(self@.data.len() as u32) + self@.type_code
                    + self@.data.take(i + 1));
            }
            i = i + 1;
        }
        push_u32_be(&mut out, self.crc);
        proof {
            assert(self@.data.take(self@.data.len() as int) =~= self@.data);
            assert(out@ =~= self@.bytes());
        }
        out
    }

    /// Decodes a chunk from the start of the buffer; fails on a buffer too
    /// short for the declared payload, on a checksum that does not verify,
    /// or on a type code that is not four ASCII letters, in that order.
    pub fn decode(bytes: &[u8]) -> (r: Result<Chunk, ChunkError>)
        ensures
            r is Ok <==> chunk_parses(bytes@),
            r matches Ok(c) ==> {
                &&& c.wf()
                &&& c@ == chunk_model_at(bytes@)
                &&& c@.bytes() == bytes@.subrange(0, chunk_size(bytes@))
            },
            r matches Err(e) ==> e == chunk_error_at(bytes@),
    {
        if bytes.len() < 12 {
            return Err(ChunkError::Truncated);
        }
        let len32 = read_u32_be(bytes, 0);
        let len = len32 as usize;
        if bytes.len() - 12 < len {
            return Err(ChunkError::Truncated);
        }
        let body = slice_subrange(bytes, 4, 8 + len);
        let computed = crc32(body);
        let stored = read_u32_be(bytes, 8 + len);
        proof {
            assert(bytes@.subrange(4, 8 + len as int) =~= chunk_model_at(bytes@).type_code
                + chunk_model_at(bytes@).data);
        }
        if computed != stored {
            return Err(ChunkError::ChecksumMismatch);
        }
        let tb: [u8; 4] = [bytes[4], bytes[5], bytes[6], bytes[7]];
        proof {
            assert(tb@ =~= chunk_model_at(bytes@).type_code);
        }
        let chunk_type = match ChunkType::try_from(tb) {
            Ok(ct) => ct,
            Err(e) => {
                return Err(ChunkError::BadType(e));
            },
        };
        let data_slice = slice_subrange(bytes, 8, 8 + len);
        let data: Vec<u8> = slice_to_vec(data_slice);
        let c = Chunk { chunk_type, data, crc: stored };
        proof {
            lemma_chunk_bytes_at(bytes@);
        }
        Ok(c)
    }
}

/// A chunk that decodes from a buffer re-encodes to exactly the wire bytes
/// it occupied there.
pub proof fn lemma_chunk_bytes_at(bytes: Seq<u8>)
    requires
        chunk_in_bounds(bytes),
        chunk_checksum_ok(bytes),
    ensures
        chunk_model_at(bytes).bytes() == bytes.subrange(0, chunk_size(bytes)),
{
    let m = chunk_model_at(bytes);
    let len = declared_len(bytes);
    lemma_be32_bytes_of_val(bytes.subrange(0, 4));
    lemma_be32_bytes_of_val(bytes.subrange(8 + len, 12 + len));
    assert(m.data.len() == len);
    assert(m.data.len() as u32 == be32_val(bytes.subrange(0, 4)));
    assert(m.bytes() =~= bytes.subrange(0, chunk_size(bytes)));
}

/// Round trip: a well-formed chunk's wire bytes decode back to the same
/// chunk, occupying exactly those bytes.
pub proof fn lemma_decode_encode(m: ChunkModel)
    requires
        m.wf(),
    ensures
        chunk_parses(m.bytes()),
        chunk_model_at(m.bytes()) == m,
        chunk_size(m.bytes()) == m.bytes().len(),
{
    let bytes = m.bytes();
    let len = m.data.len() as int;
    lemma_be32_val_of_bytes(m.data.len() as u32);
    assert(bytes.subrange(0, 4) =~= be32_bytes(m.data.len() as u32));
    assert(declared_len(bytes) == len);
    assert(bytes.subrange(4, 8) =~= m.type_code);
    assert(bytes.subrange(8, 8 + len) =~= m.data);
    assert(bytes.subrange(8 + len, 12 + len) =~= be32_bytes(m.crc));
    lemma_be32_val_of_bytes(m.crc);
    assert(chunk_model_at(bytes).type_code == m.type_code);
    assert(chunk_model_at(bytes).data == m.data);
    assert(chunk_model_at(bytes).crc == m.crc);
}

/// Checksum sensitivity: changing any single byte — so in particular
/// flipping any single bit — in the type or payload region of a well-formed
/// chunk's wire bytes makes decoding fail with a checksum mismatch.
#[verifier::spinoff_prover]
#[verifier::rlimit(100)]
pub proof fn lemma_checksum_detects_change(m: ChunkModel, i: int, b: u8)
    requires
        m.wf(),
        4 <= i < 8 + m.data.len(),
        b != m.bytes()[i],
    ensures
        !chunk_parses(m.bytes().update(i, b)),
        chunk_error_at(m.bytes().update(i, b)) == ChunkError::ChecksumMismatch,
{
    let bytes = m.bytes();
    let bytes2 = bytes.update(i, b);
    let len = m.data.len() as int;
    assert(declared_len(bytes2) == len && chunk_in_bounds(bytes2)) by {
        lemma_decode_encode(m);
        assert(bytes2.subrange(0, 4) =~= bytes.subrange(0, 4));
    }
    let m2 = chunk_model_at(bytes2);
    assert(m2.crc == m.crc) by {
        lemma_decode_encode(m);
        assert(bytes2.subrange(8 + len, 12 + len) =~= bytes.subrange(8 + len, 12 + len));
    }
    let body1 = bytes.subrange(4, 8 + len);
    let body2 = bytes2.subrange(4, 8 + len);
    assert(body1 == m.type_code + m.data) by {
        assert(body1 =~= m.type_code + m.data);
    }
    assert(m2.type_code + m2.data == body2) by {
        assert(m2.type_code + m2.data =~= body2);
    }
    assert(crc32_of(body1) != crc32_of(body2)) by {
        assert(body1[i - 4] == bytes[i] && body2[i - 4] == b);
        assert forall|j: int| 0 <= j < body1.len() && j != i - 4 implies body1[j] == body2[j] by {
            assert(body1[j] == bytes[4 + j] && body2[j] == bytes2[4 + j]);
        }
        lemma_crc32_byte_change(body1, body2, i - 4);
    }
    assert(!chunk_checksum_ok(bytes2)) by {
        assert(m.crc == crc32_of(body1));
    }
}

} // verus!
