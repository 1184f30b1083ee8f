//! The PNG container: the fixed eight-byte signature followed by chunks in
//! stream order. Parsing reads the whole byte buffer fail-fast; serializing
//! reproduces a parsed buffer byte for byte; chunks can be appended, looked
//! up by type code, and removed, preserving the order of the rest.

use crate::chunk::{
    chunk_error_at, chunk_model_at, chunk_parses, chunk_size, lemma_chunk_bytes_at, Chunk,
    ChunkError, ChunkModel,
};
use vstd::prelude::*;
use vstd::slice::slice_subrange;
use vstd::string::StringSliceAdditionalSpecFns;

verus! {

/// The fixed eight-byte PNG file signature.
pub open spec fn spec_signature() -> Seq<u8> {
    seq![0x89u8, 0x50u8, 0x4eu8, 0x47u8, 0x0du8, 0x0au8, 0x1au8, 0x0au8]
}

/// The signature as raw bytes.
pub fn signature() -> (r: [u8; 8])
    ensures
        r@ == spec_signature(),
{
    let r: [u8; 8] = [0x89, 0x50, 0x4e, 0x47, 0x0d, 0x0a, 0x1a, 0x0a];
    proof {
        assert(r@ =~= spec_signature());
    }
    r
}

/// The buffer begins with the PNG signature.
pub open spec fn signature_ok(bytes: Seq<u8>) -> bool {
    bytes.len() >= 8 && bytes.subrange(0, 8) == spec_signature()
}

/// Chunks decode from the stream one after the other, to its very end.
pub open spec fn stream_parses(bytes: Seq<u8>) -> bool
    decreases bytes.len(),
{
    if bytes.len() == 0 {
        true
    } else if !chunk_parses(bytes) {
        false
    } else {
        stream_parses(bytes.skip(chunk_size(bytes)))
    }
}

/// The chunks of the stream, in stream order.
pub open spec fn stream_models(bytes: Seq<u8>) -> Seq<ChunkModel>
    decreases bytes.len(),
{
    if bytes.len() == 0 || !chunk_parses(bytes) {
        Seq::empty()
    } else {
        seq![chunk_model_at(bytes)] + stream_models(bytes.skip(chunk_size(bytes)))
    }
}

/// The error of the first chunk of the stream that does not decode.
pub open spec fn stream_error(bytes: Seq<u8>) -> ChunkError
    recommends
        !stream_parses(bytes),
    decreases bytes.len(),
{
    if bytes.len() == 0 {
        ChunkError::Truncated
    } else if !chunk_parses(bytes) {
        chunk_error_at(bytes)
    } else {
        stream_error(bytes.skip(chunk_size(bytes)))
    }
}

/// The wire bytes of a list of chunks, in order.
pub open spec fn models_bytes(ms: Seq<ChunkModel>) -> Seq<u8>
    decreases ms.len(),
{
    if ms.len() == 0 {
        Seq::empty()
    } else {
        ms[0].bytes() + models_bytes(ms.drop_first())
    }
}

/// The wire bytes of a whole PNG: signature, then each chunk.
pub open spec fn png_bytes(ms: Seq<ChunkModel>) -> Seq<u8> {
    spec_signature() + models_bytes(ms)
}

/// Serializing one more chunk appends its wire bytes.
pub proof fn lemma_models_bytes_push(ms: Seq<ChunkModel>, m: ChunkModel)
    ensures
        models_bytes(ms.push(m)) == models_bytes(ms) + m.bytes(),
    decreases ms.len(),
{
    if ms.len() == 0 {
        assert(ms.push(m)[0] == m);
        assert(ms.push(m).drop_first() =~= Seq::<ChunkModel>::empty());
        assert(models_bytes(Seq::<ChunkModel>::empty()) == Seq::<u8>::empty());
        assert(models_bytes(ms.push(m)) =~= models_bytes(ms) + m.bytes());
    } else {
        assert(ms.push(m)[0] == ms[0]);
        assert(ms.push(m).drop_first() =~= ms.drop_first().push(m));
        lemma_models_bytes_push(ms.drop_first(), m);
        assert(models_bytes(ms.push(m)) =~= models_bytes(ms) + m.bytes());
    }
}

/// A stream that parses is reproduced exactly by serializing its chunks.
#[verifier::spinoff_prover]
#[verifier::rlimit(100)]
pub proof fn lemma_stream_roundtrip(bytes: Seq<u8>)
    requires
        stream_parses(bytes),
    ensures
        models_bytes(stream_models(bytes)) == bytes,
    decreases bytes.len(),
{
    if bytes.len() == 0 {
        assert(models_bytes(stream_models(bytes)) =~= bytes);
    } else {
        let size = chunk_size(bytes);
        let rest = bytes.skip(size);
        let m = chunk_model_at(bytes);
        lemma_chunk_bytes_at(bytes);
        lemma_stream_roundtrip(rest);
        let ms = stream_models(bytes);
        assert(ms[0] == m && ms.drop_first() =~= stream_models(rest)) by {
            assert(ms == seq![m] + stream_models(rest));
        }
        assert(models_bytes(ms) == m.bytes() + models_bytes(stream_models(rest)));
        assert(models_bytes(ms) == bytes.subrange(0, size) + bytes.skip(size));
        assert(bytes.subrange(0, size) + bytes.skip(size) =~= bytes);
    }
}

/// Round trip of a whole file: parsing a buffer that carries the signature
/// and a stream of chunks, then serializing the chunks, reproduces the
/// buffer exactly.
#[verifier::spinoff_prover]
#[verifier::rlimit(100)]
pub proof fn lemma_parse_serialize(bytes: Seq<u8>)
    requires
        signature_ok(bytes),
        stream_parses(bytes.skip(8)),
    ensures
        png_bytes(stream_models(bytes.skip(8))) == bytes,
{
    let tail = bytes.skip(8);
    lemma_stream_roundtrip(tail);
    assert(png_bytes(stream_models(tail)) == spec_signature() + tail);
    assert(spec_signature() + tail =~= bytes);
}

/// Some chunk of the list bears the given type code.
pub open spec fn has_chunk(ms: Seq<ChunkModel>, code: Seq<u8>) -> bool {
    exists|i: int| 0 <= i < ms.len() && ms[i].type_code == code
}

/// The position of the first chunk that bears the given type code.
pub open spec fn first_chunk_idx(ms: Seq<ChunkModel>, code: Seq<u8>) -> int
    recommends
        has_chunk(ms, code),
    decreases ms.len(),
{
    if ms.len() == 0 {
        0
    } else if ms[0].type_code == code {
        0
    } else {
        1 + first_chunk_idx(ms.drop_first(), code)
    }
}

/// A chunk with the code at `k`, behind chunks without it, is the first.
pub proof fn lemma_first_chunk_idx(ms: Seq<ChunkModel>, code: Seq<u8>, k: int)
    requires
        0 <= k < ms.len(),
        ms[k].type_code == code,
        forall|j: int| 0 <= j < k ==> (#[trigger] ms[j]).type_code != code,
    ensures
        has_chunk(ms, code),
        first_chunk_idx(ms, code) == k,
    decreases k,
{
    if k == 0 {
    } else {
        assert forall|j: int| 0 <= j < k - 1 implies (#[trigger] ms.drop_first()[j]).type_code
            != code by {
            assert(ms.drop_first()[j] == ms[j + 1]);
        }
        assert(ms.drop_first()[k - 1] == ms[k]);
        lemma_first_chunk_idx(ms.drop_first(), code, k - 1);
        assert(ms[0].type_code != code);
    }
}

/// Appending a chunk whose type code no present chunk bears, then looking
/// that code up, finds exactly the appended chunk.
pub proof fn lemma_append_then_find(ms: Seq<ChunkModel>, m: ChunkModel, code: Seq<u8>)
    requires
        m.type_code == code,
        forall|j: int| 0 <= j < ms.len() ==> (#[trigger] ms[j]).type_code != code,
    ensures
        has_chunk(ms.push(m), code),
        first_chunk_idx(ms.push(m), code) == ms.len(),
        ms.push(m)[first_chunk_idx(ms.push(m), code)] == m,
{
    assert(ms.push(m)[ms.len() as int] == m);
    assert forall|j: int| 0 <= j < ms.len() implies (#[trigger] ms.push(m)[j]).type_code
        != code by {
        assert(ms.push(m)[j] == ms[j]);
    }
    lemma_first_chunk_idx(ms.push(m), code, ms.len() as int);
}

/// How an operation on a PNG container fails.
#[derive(Debug, PartialEq, Eq)]
pub enum PngError {
    /// The buffer does not begin with the eight PNG signature bytes.
    BadSignature,
    /// A chunk of the stream did not decode.
    Chunk(ChunkError),
    /// No chunk bears the requested type code.
    NotFound,
}

/// A PNG file in memory: its chunks, in stream order, behind the fixed
/// signature.
#[derive(Debug, PartialEq, Eq)]
pub struct Png {
    chunks: Vec<Chunk>,
}

impl View for Png {
    type V = Seq<ChunkModel>;

    closed spec fn view(&self) -> Seq<ChunkModel> {
        self.chunks@.map_values(|c: Chunk| c@)
    }
}

impl Png {
    pub open spec fn wf(self) -> bool {
        forall|i: int| 0 <= i < self@.len() ==> (#[trigger] self@[i]).wf()
    }

    /// Builds a container from a list of chunks, kept in the given order.
    pub fn from_chunks(chunks: Vec<Chunk>) -> (r: Png)
        requires
            forall|i: int| 0 <= i < chunks@.len() ==> (#[trigger] chunks@[i]).wf(),
        ensures
            r.wf(),
            r@ == chunks@.map_values(|c: Chunk| c@),
    {
        let r = Png { chunks };
        proof {
            assert(forall|i: int| 0 <= i < r@.len() ==> (#[trigger] r@[i]).wf());
        }
        r
    }

    /// Parses a whole byte buffer: the signature, then chunks to the end.
    /// Fails fast: a bad signature or any chunk that does not decode aborts
    /// the parse with that error. On success, serializing the result
    /// reproduces the buffer exactly.
    pub fn parse(bytes: &[u8]) -> (r: Result<Png, PngError>)
        ensures
            r is Ok <==> signature_ok(bytes@) && stream_parses(bytes@.skip(8)),
            r matches Ok(png) ==> {
                &&& png.wf()
                &&& png@ == stream_models(bytes@.skip(8))
                &&& png_bytes(png@) == bytes@
            },
            !signature_ok(bytes@) ==> r == Err::<Png, PngError>(PngError::BadSignature),
            signature_ok(bytes@) && !stream_parses(bytes@.skip(8)) ==> r == Err::<Png, PngError>(
                PngError::Chunk(stream_error(bytes@.skip(8))),
            ),
    {
        if bytes.len() < 8 {
            return Err(PngError::BadSignature);
        }
        let sig = signature();
        let mut k: usize = 0;
        while k < 8
            invariant
                k <= 8,
                bytes@.len() >= 8,
                sig@ == spec_signature(),
                forall|j: int| 0 <= j < k ==> bytes@[j] == spec_signature()[j],
            decreases 8 - k,
        {
            if bytes[k] != sig[k] {
                proof {
                    assert(bytes@.subrange(0, 8)[k as int] != spec_signature()[k as int]);
                }
                return Err(PngError::BadSignature);
            }
            k = k + 1;
        }
        proof {
            assert(bytes@.subrange(0, 8) =~= spec_signature());
        }
        let mut chunks: Vec<Chunk> = Vec::new();
        let mut cursor: usize = 8;
        proof {
            assert(chunks@.map_values(|c: Chunk| c@) =~= Seq::<ChunkModel>::empty());
        }
        while cursor < bytes.len()
            invariant
                8 <= cursor <= bytes@.len(),
                signature_ok(bytes@),
                forall|i: int| 0 <= i < chunks@.len() ==> (#[trigger] chunks@[i])@.wf(),
                stream_parses(bytes@.skip(8)) <==> stream_parses(bytes@.skip(cursor as int)),
                stream_parses(bytes@.skip(cursor as int)) ==> stream_models(bytes@.skip(8))
                    == chunks@.map_values(|c: Chunk| c@) + stream_models(bytes@.skip(cursor as int)),
                !stream_parses(bytes@.skip(cursor as int)) ==> stream_error(bytes@.skip(8))
                    == stream_error(bytes@.skip(cursor as int)),
            decreases bytes@.len() - cursor,
        {
            let window = slice_subrange(bytes, cursor, bytes.len());
            proof {
                assert(window@ =~= bytes@.skip(cursor as int));
            }
            match Chunk::decode(window) {
                Ok(c) => {
                    let size: usize = 12 + c.length() as usize;
                    proof {
                        assert(chunk_parses(window@));
                        assert(size == chunk_size(window@));
                        assert(window@.skip(size as int) =~= bytes@.skip(cursor + size));
                        let old_views = chunks@.map_values(|c: Chunk| c@);
                        assert(chunks@.push(c).map_values(|c: Chunk| c@) =~= old_views.push(c@));
                        assert(stream_models(window@) == seq![chunk_model_at(window@)]
                            + stream_models(bytes@.skip(cursor + size)));
                        assert(old_views + stream_models(window@) =~= old_views.push(c@)
                            + stream_models(bytes@.skip(cursor + size)));
                    }
                    chunks.push(c);
                    cursor = cursor + size;
                }
                Err(e) => {
                    proof {
                        assert(!chunk_parses(window@));
                        assert(!stream_parses(window@));
                        assert(stream_error(window@) == chunk_error_at(window@));
                    }
                    return Err(PngError::Chunk(e));
                }
            }
        }
        proof {
            assert(bytes@.skip(cursor as int) =~= Seq::<u8>::empty());
            assert(stream_parses(bytes@.skip(cursor as int)));
            assert(stream_models(bytes@.skip(8)) =~= chunks@.map_values(|c: Chunk| c@));
            lemma_parse_serialize(bytes@);
        }
        Ok(Png { chunks })
    }

    /// Serializes the container: the signature bytes, then each chunk's wire
    /// bytes in stream order.
    pub fn as_bytes(&self) -> (r: Vec<u8>)
        requires
            self.wf(),
        ensures
            r@ == png_bytes(self@),
    {
        let mut out: Vec<u8> = Vec::new();
        let sig = signature();
        let mut k: usize = 0;
        while k < 8
            invariant
                k <= 8,
                sig@ == spec_signature(),
                out@ == spec_signature().take(k as int),
            decreases 8 - k,
        {
            out.push(sig[k]);
            proof {
                assert(out@ =~= spec_signature().take(k + 1));
            }
            k = k + 1;
        }
        proof {
            assert(spec_signature().take(8) =~= spec_signature());
            assert(self@.take(0) =~= Seq::<ChunkModel>::empty());
            assert(out@ =~= spec_signature() + models_bytes(self@.take(0)));
        }
        let mut i: usize = 0;
        while i < self.chunks.len()
            invariant
                i <= self@.len(),
                self@.len() == self.chunks@.len(),
                self.wf(),
                self@ == self.chunks@.map_values(|c: Chunk| c@),
                out@ == spec_signature() + models_bytes(self@.take(i as int)),
            decreases self@.len() - i,
        {
            proof {
                assert(self.chunks@[i as int]@ == self@[i as int]);
                assert(self@[i as int].wf());
            }
            let enc = self.chunks[i].encode();
            let mut j: usize = 0;
            while j < enc.len()
                invariant
                    j <= enc@.len(),
                    out@ == spec_signature() + models_bytes(self@.take(i as int)) + enc@.take(
                        j as int,
                    ),
                decreases enc@.len() - j,
            {
                out.push(enc[j]);
                proof {
                    assert(out@ =~= spec_signature() + models_bytes(self@.take(i as int))
                        + enc@.take(j + 1));
                }
                j = j + 1;
            }
            proof {
                assert(enc@.take(enc@.len() as int) =~= enc@);
                lemma_models_bytes_push(self@.take(i as int), self@[i as int]);
                assert(self@.take(i + 1) =~= self@.take(i as int).push(self@[i as int]));
                assert(out@ =~= spec_signature() + models_bytes(self@.take(i + 1)));
            }
            i = i + 1;
        }
        proof {
            assert(self@.take(self@.len() as int) =~= self@);
        }
        out
    }

    /// Appends a chunk at the end of the stream.
    pub fn append_chunk(&mut self, chunk: Chunk)
        requires
            old(self).wf(),
            chunk.wf(),
        ensures
            final(self).wf(),
            final(self)@ == old(self)@.push(chunk@),
    {
        proof {
            assert(old(self).chunks@.push(chunk).map_values(|c: Chunk| c@) =~= old(
                self,
            )@.push(chunk@));
        }
        self.chunks.push(chunk);
    }

    /// The position of the first chunk bearing the given code bytes.
    fn find_index(&self, code: &[u8]) -> (r: Option<usize>)
        requires
            self.wf(),
        ensures
            r is Some <==> has_chunk(self@, code@),
            r matches Some(i) ==> i == first_chunk_idx(self@, code@) && i < self@.len(),
    {
        let mut i: usize = 0;
        while i < self.chunks.len()
            invariant
                i <= self@.len(),
                self@.len() == self.chunks@.len(),
                self.wf(),
                self@ == self.chunks@.map_values(|c: Chunk| c@),
                forall|j: int| 0 <= j < i ==> (#[trigger] self@[j]).type_code != code@,
            decreases self@.len() - i,
        {
            proof {
                assert(self.chunks@[i as int]@ == self@[i as int]);
            }
            let tb = self.chunks[i].chunk_type().bytes();
            if code.len() == 4 && tb[0] == code[0] && tb[1] == code[1] && tb[2] == code[2]
                && tb[3] == code[3] {
                proof {
                    assert(self@[i as int].type_code =~= code@);
                    lemma_first_chunk_idx(self@, code@, i as int);
                }
                return Some(i);
            }
            proof {
                assert(self@[i as int].wf());
                if self@[i as int].type_code == code@ {
                    assert(code@.len() == 4);
                    assert(tb@ == self@[i as int].type_code);
                    assert(false);
                }
            }
            i = i + 1;
        }
        None
    }

    /// The first chunk, in stream order, whose type code's textual form
    /// equals the given code; absence is not an error.
    pub fn chunk_by_type(&self, chunk_type: &str) -> (r: Option<&Chunk>)
        requires
            self.wf(),
        ensures
            r is Some <==> has_chunk(self@, chunk_type.spec_bytes()),
            r matches Some(c) ==> c@ == self@[first_chunk_idx(self@, chunk_type.spec_bytes())],
    {
        let code = chunk_type.as_bytes();
        match self.find_index(code) {
            Some(i) => {
                proof {
                    assert(self.chunks@[i as int]@ == self@[i as int]);
                }
                Some(&self.chunks[i])
            },
            None => None,
        }
    }

    /// Removes and returns the first chunk whose type code's textual form
    /// equals the given code; the order of the remaining chunks is kept. On
    /// a code no chunk bears, fails and leaves the chunk list unchanged.
    pub fn remove_chunk(&mut self, chunk_type: &str) -> (r: Result<Chunk, PngError>)
        requires
            old(self).wf(),
        ensures
            final(self).wf(),
            r is Ok <==> has_chunk(old(self)@, chunk_type.spec_bytes()),
            r matches Ok(c) ==> {
                let i = first_chunk_idx(old(self)@, chunk_type.spec_bytes());
                &&& c@ == old(self)@[i]
                &&& final(self)@ == old(self)@.remove(i)
            },
            r is Err ==> r == Err::<Chunk, PngError>(PngError::NotFound) && final(self)@ == old(
                self,
            )@,
    {
        let code = chunk_type.as_bytes();
        match self.find_index(code) {
            Some(i) => {
                let c = self.chunks.remove(i);
                proof {
                    assert(old(self).chunks@[i as int]@ == old(self)@[i as int]);
                    assert(old(self).chunks@.remove(i as int).map_values(|c: Chunk| c@) =~= old(
                        self,
                    )@.remove(i as int));
                    assert forall|j: int| 0 <= j < self@.len() implies (#[trigger] self@[j]).wf() by {
                        assert(self@[j] == old(self)@.remove(i as int)[j]);
                    }
                }
                Ok(c)
            },
            None => Err(PngError::NotFound),
        }
    }

    /// The chunks of the container, in stream order.
    pub fn chunks(&self) -> (r: &Vec<Chunk>)
        ensures
            r@.len() == self@.len(),
            forall|i: int| 0 <= i < r@.len() ==> (#[trigger] r@[i])@ == self@[i],
    {
        &self.chunks
    }
}

} // verus!
