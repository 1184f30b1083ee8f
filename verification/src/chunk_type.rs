//! The four-byte PNG chunk type code and its bit-flag semantics.
//!
//! A type code is four ASCII letters. The case of each byte is a flag: byte 0
//! upper-case means the chunk is critical, byte 1 upper-case means it is
//! public, byte 2 upper-case means the reserved bit is valid (required of
//! every fully valid code), and byte 3 lower-case means the chunk is safe to
//! copy.

use crate::text::{ascii_chars, lemma_ascii_utf8, utf8_to_string};
use vstd::prelude::*;
use vstd::string::StringSliceAdditionalSpecFns;

verus! {

/// `b` is an ASCII upper-case letter.
pub open spec fn is_upper(b: u8) -> bool {
    65 <= b && b <= 90
}

/// `b` is an ASCII lower-case letter.
pub open spec fn is_lower(b: u8) -> bool {
    97 <= b && b <= 122
}

/// `b` is an ASCII letter.
pub open spec fn is_letter(b: u8) -> bool {
    is_upper(b) || is_lower(b)
}

/// Every byte of `s` is an ASCII letter.
pub open spec fn all_letters(s: Seq<u8>) -> bool {
    forall|i: int| 0 <= i < s.len() ==> is_letter(#[trigger] s[i])
}

/// The first byte of `s` that is not an ASCII letter.
pub open spec fn first_non_letter(s: Seq<u8>) -> u8
    recommends
        !all_letters(s),
    decreases s.len(),
{
    if s.len() == 0 {
        0
    } else if !is_letter(s[0]) {
        s[0]
    } else {
        first_non_letter(s.drop_first())
    }
}

/// A non-letter at position `i`, behind letters only, is the first non-letter.
pub proof fn lemma_first_non_letter(s: Seq<u8>, i: int)
    requires
        0 <= i < s.len(),
        !is_letter(s[i]),
        forall|j: int| 0 <= j < i ==> is_letter(#[trigger] s[j]),
    ensures
        !all_letters(s),
        first_non_letter(s) == s[i],
    decreases i,
{
    if i == 0 {
    } else {
        assert forall|j: int| 0 <= j < i - 1 implies is_letter(#[trigger] s.drop_first()[j]) by {
            assert(s.drop_first()[j] == s[j + 1]);
        }
        assert(s.drop_first()[i - 1] == s[i]);
        lemma_first_non_letter(s.drop_first(), i - 1);
    }
}

/// Why a byte sequence could not be read as a chunk type code.
#[derive(Debug, PartialEq, Eq)]
pub enum ChunkTypeError {
    /// A byte that is not an ASCII letter, the first such byte.
    InvalidCharacter(u8),
    /// A textual code whose byte length is not four.
    InvalidLength(usize),
}

/// A four-byte PNG chunk type code; each byte is an ASCII letter.
#[derive(Debug, PartialEq, Eq)]
pub struct ChunkType {
    data: [u8; 4],
}

impl View for ChunkType {
    type V = Seq<u8>;

    closed spec fn view(&self) -> Seq<u8> {
        self.data@
    }
}

impl ChunkType {
    /// The constructors only ever build codes of four ASCII letters.
    pub open spec fn wf(self) -> bool {
        self@.len() == 4 && all_letters(self@)
    }

    /// Reads a type code from four raw bytes; each must be an ASCII letter.
    pub fn try_from(value: [u8; 4]) -> (r: Result<ChunkType, ChunkTypeError>)
        ensures
            r matches Ok(ct) ==> ct.wf() && ct@ == value@,
            r is Ok <==> all_letters(value@),
            !all_letters(value@) ==> r == Err::<ChunkType, ChunkTypeError>(
                ChunkTypeError::InvalidCharacter(first_non_letter(value@)),
            ),
    {
        let mut i: usize = 0;
        while i < 4
            invariant
                i <= 4,
                forall|j: int| 0 <= j < i ==> is_letter(#[trigger] value@[j]),
            decreases 4 - i,
        {
            let b = value[i];
            if !(b >= 65 && b <= 90 || b >= 97 && b <= 122) {
                proof {
                    lemma_first_non_letter(value@, i as int);
                }
                return Err(ChunkTypeError::InvalidCharacter(b));
            }
            i = i + 1;
        }
        Ok(ChunkType { data: value })
    }

    /// Reads a type code from text; the text must be four bytes of ASCII
    /// letters. Any other byte length is rejected as an invalid length; this
    /// includes the degenerate empty code, which the wire format has no room
    /// for.
    pub fn from_str(s: &str) -> (r: Result<ChunkType, ChunkTypeError>)
        ensures
            r matches Ok(ct) ==> ct.wf() && ct@ == s.spec_bytes(),
            r is Ok <==> s.spec_bytes().len() == 4 && all_letters(s.spec_bytes()),
            s.spec_bytes().len() != 4 ==> r == Err::<ChunkType, ChunkTypeError>(
                ChunkTypeError::InvalidLength(s.spec_bytes().len() as usize),
            ),
            s.spec_bytes().len() == 4 && !all_letters(s.spec_bytes()) ==> r == Err::<
                ChunkType,
                ChunkTypeError,
            >(ChunkTypeError::InvalidCharacter(first_non_letter(s.spec_bytes()))),
    {
        let bytes = s.as_bytes();
        if bytes.len() != 4 {
            return Err(ChunkTypeError::InvalidLength(bytes.len()));
        }
        let value: [u8; 4] = [bytes[0], bytes[1], bytes[2], bytes[3]];
        proof {
            assert(value@ =~= s.spec_bytes());
        }
        Self::try_from(value)
    }

    /// The raw four bytes of the code.
    pub fn bytes(&self) -> (r: [u8; 4])
        ensures
            r@ == self@,
    {
        self.data
    }

    /// The code is fully valid: four ASCII letters with the reserved bit
    /// (byte 2) upper-case.
    pub fn is_valid(&self) -> (r: bool)
        ensures
            r == (all_letters(self@) && is_upper(self@[2])),
    {
        let mut i: usize = 0;
        while i < 4
            invariant
                i <= 4,
                forall|j: int| 0 <= j < i ==> is_letter(#[trigger] self@[j]),
            decreases 4 - i,
        {
            let b = self.data[i];
            if !(b >= 65 && b <= 90 || b >= 97 && b <= 122) {
                return false;
            }
            i = i + 1;
        }
        self.is_reserved_bit_valid()
    }

    /// Byte 0 upper-case: the chunk is critical.
    pub fn is_critical(&self) -> (r: bool)
        ensures
            r == is_upper(self@[0]),
    {
        let b = self.data[0];
        b >= 65 && b <= 90
    }

    /// Byte 1 upper-case: the chunk is public.
    pub fn is_public(&self) -> (r: bool)
        ensures
            r == is_upper(self@[1]),
    {
        let b = self.data[1];
        b >= 65 && b <= 90
    }

    /// Byte 2 upper-case: the reserved bit is valid.
    pub fn is_reserved_bit_valid(&self) -> (r: bool)
        ensures
            r == is_upper(self@[2]),
    {
        let b = self.data[2];
        b >= 65 && b <= 90
    }

    /// Byte 3 lower-case: the chunk is safe to copy.
    pub fn is_safe_to_copy(&self) -> (r: bool)
        ensures
            r == is_lower(self@[3]),
    {
        let b = self.data[3];
        b >= 97 && b <= 122
    }

    /// The code as text: its four bytes read as ASCII characters.
    pub fn to_string(&self) -> (r: String)
        requires
            self.wf(),
        ensures
            r@ == ascii_chars(self@),
    {
        let mut v: Vec<u8> = Vec::new();
        v.push(self.data[0]);
        v.push(self.data[1]);
        v.push(self.data[2]);
        v.push(self.data[3]);
        proof {
            assert(v@ =~= self@);
            assert forall|i: int| 0 <= i < self@.len() implies self@[i] < 0x80 by {
                assert(is_letter(self@[i]));
            }
            lemma_ascii_utf8(self@);
        }
        match utf8_to_string(v) {
            Some(s) => s,
            None => vstd::pervasive::unreached(),
        }
    }
}

} // verus!
