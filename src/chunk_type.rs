use crate::error::ChunkError;
use crate::text::string_from_utf8;
use vstd::prelude::*;
use vstd::utf8::{
    decode_utf8, encode_utf8, encode_utf8_decode_utf8, encode_utf8_valid_utf8, is_ascii_chars,
    is_ascii_chars_encode_utf8, valid_utf8,
};

verus! {

/// An ASCII letter, `A`-`Z` or `a`-`z`.
pub open spec fn is_letter(b: u8) -> bool {
    (65 <= b <= 90) || (97 <= b <= 122)
}

/// An upper-case ASCII letter.
pub open spec fn is_upper(b: u8) -> bool {
    65 <= b <= 90
}

/// Four bytes, each an ASCII letter: what a type code is made of.
pub open spec fn valid_type_bytes(b: Seq<u8>) -> bool {
    b.len() == 4 && forall|i: int| 0 <= i < 4 ==> is_letter(#[trigger] b[i])
}

/// Four characters, each an ASCII letter: the text form of a type code.
pub open spec fn valid_type_text(s: Seq<char>) -> bool {
    s.len() == 4 && forall|i: int|
        0 <= i < 4 ==> (('A' <= #[trigger] s[i] <= 'Z') || ('a' <= s[i] <= 'z'))
}

/// The characters that a type code renders to, one per byte.
pub open spec fn type_text(b: Seq<u8>) -> Seq<char> {
    b.map_values(|x: u8| x as char)
}

/// The bytes that a type code given as valid text holds.
pub open spec fn text_bytes(s: Seq<char>) -> Seq<u8> {
    s.map_values(|c: char| c as u8)
}

/// A four-byte type code. Each byte is an ASCII letter; the case of each
/// byte carries one flag.
#[derive(Debug, Clone, Copy, PartialEq, Eq)]
pub struct ChunkType {
    bytes: [u8; 4],
}

impl View for ChunkType {
    type V = Seq<u8>;

    closed spec fn view(&self) -> Seq<u8> {
        self.bytes@
    }
}

/// For a letter, bit 5 is clear exactly on upper case.
proof fn lemma_case_bit(b: u8)
    requires
        is_letter(b),
    ensures
        (b & 32u8 == 0) <==> is_upper(b),
{
    assert(((65 <= b <= 90) || (97 <= b <= 122)) ==> ((b & 32u8 == 0) <==> (65 <= b <= 90)))
        by (bit_vector);
}

impl ChunkType {
    #[verifier::type_invariant]
    pub open spec fn well_formed(&self) -> bool {
        valid_type_bytes(self@)
    }

    /// Builds a type code from four bytes; fails unless every byte is an ASCII letter.
    pub fn parse(bytes: [u8; 4]) -> (r: Result<ChunkType, ChunkError>)
        ensures
            valid_type_bytes(bytes@) ==> (r matches Ok(t) && t@ == bytes@),
            !valid_type_bytes(bytes@) ==> r == Err::<ChunkType, ChunkError>(
                ChunkError::InvalidTypeCode,
            ),
    {
        let mut i: usize = 0;
        while i < 4
            invariant
                i <= 4,
                bytes@.len() == 4,
                forall|j: int| 0 <= j < i ==> is_letter(#[trigger] bytes@[j]),
            decreases 4 - i,
        {
            let b = bytes[i];
            if !((65 <= b && b <= 90) || (97 <= b && b <= 122)) {
                return Err(ChunkError::InvalidTypeCode);
            }
            i = i + 1;
        }
        Ok(ChunkType { bytes })
    }

    /// Builds a type code from its text; fails unless the text is exactly four ASCII letters.
    pub fn parse_str(s: &str) -> (r: Result<ChunkType, ChunkError>)
        ensures
            valid_type_text(s@) ==> (r matches Ok(t) && t@ == text_bytes(s@)),
            !valid_type_text(s@) ==> r == Err::<ChunkType, ChunkError>(
                ChunkError::InvalidTypeCode,
            ),
    {
        if !s.is_ascii() {
            proof {
                if valid_type_text(s@) {
                    assert(is_ascii_chars(s@));
                }
            }
            return Err(ChunkError::InvalidTypeCode);
        }
        let b = s.as_bytes();
        proof {
            is_ascii_chars_encode_utf8(s@);
        }
        if b.len() != 4 {
            return Err(ChunkError::InvalidTypeCode);
        }
        let arr: [u8; 4] = [b[0], b[1], b[2], b[3]];
        proof {
            assert forall|i: int| 0 <= i < 4 implies #[trigger] arr@[i] == s@[i] as u8 by {}
            assert(valid_type_bytes(arr@) <==> valid_type_text(s@));
            assert(arr@ =~= text_bytes(s@));
        }
        ChunkType::parse(arr)
    }

    /// The four raw bytes.
    pub fn bytes(&self) -> (r: [u8; 4])
        ensures
            r@ == self@,
    {
        self.bytes
    }

    /// Upper-case first byte: a critical chunk.
    pub fn is_critical(&self) -> (r: bool)
        ensures
            r == is_upper(self@[0]),
    {
        proof {
            use_type_invariant(self);
            lemma_case_bit(self.bytes@[0]);
        }
        self.bytes[0] & 32 == 0
    }

    /// Upper-case second byte: a public chunk.
    pub fn is_public(&self) -> (r: bool)
        ensures
            r == is_upper(self@[1]),
    {
        proof {
            use_type_invariant(self);
            lemma_case_bit(self.bytes@[1]);
        }
        self.bytes[1] & 32 == 0
    }

    /// Upper-case third byte: the chunk conforms to the current format.
    pub fn is_reserved_bit_valid(&self) -> (r: bool)
        ensures
            r == is_upper(self@[2]),
    {
        proof {
            use_type_invariant(self);
            lemma_case_bit(self.bytes@[2]);
        }
        self.bytes[2] & 32 == 0
    }

    /// Lower-case fourth byte: the chunk is safe to copy.
    pub fn is_safe_to_copy(&self) -> (r: bool)
        ensures
            r == !is_upper(self@[3]),
    {
        proof {
            use_type_invariant(self);
            lemma_case_bit(self.bytes@[3]);
        }
        self.bytes[3] & 32 != 0
    }

    /// The four characters of the type code, case kept.
    pub fn to_string(&self) -> (r: String)
        ensures
            r@ == type_text(self@),
    {
        proof {
            use_type_invariant(self);
        }
        let v: Vec<u8> = vec![self.bytes[0], self.bytes[1], self.bytes[2], self.bytes[3]];
        let ghost chars = type_text(self@);
        proof {
            assert(is_ascii_chars(chars));
            is_ascii_chars_encode_utf8(chars);
            assert(v@ =~= encode_utf8(chars));
            encode_utf8_valid_utf8(chars);
            encode_utf8_decode_utf8(chars);
        }
        let r = string_from_utf8(v);
        match r {
            Some(s) => s,
            None => String::new(),
        }
    }
}

impl ChunkType {
    /// Whether the type code renders to exactly the text `name`.
    pub(crate) fn renders_as(&self, name: &str) -> (r: bool)
        ensures
            r == (type_text(self@) == name@),
    {
        let own = self.to_string();
        let other = name.to_owned();
        own == other
    }
}

impl std::str::FromStr for ChunkType {
    type Err = ChunkError;

    fn from_str(s: &str) -> Result<ChunkType, ChunkError> {
        ChunkType::parse_str(s)
    }
}

} // verus!
