use vstd::prelude::*;
use vstd::string::StringSliceAdditionalSpecFns;
use crate::bytes::{all_ascii, ascii_chars, string_from_utf8};

verus! {

/// Whether `b` is an ASCII letter, `A`..`Z` or `a`..`z`.
pub open spec fn is_letter(b: u8) -> bool {
    (65 <= b && b <= 90) || (97 <= b && b <= 122)
}

/// Whether `s` is a syntactically valid type code: four ASCII letters.
pub open spec fn is_type_code(s: Seq<u8>) -> bool {
    s.len() == 4 && forall|i: int| 0 <= i < 4 ==> is_letter(#[trigger] s[i])
}

/// Whether the property bit (bit 5, value 0x20) of `b` is set.
pub open spec fn property_bit(b: u8) -> bool {
    (b / 32) % 2 == 1
}

proof fn lemma_property_bit(b: u8)
    ensures
        (b & 0x20u8 != 0) == property_bit(b),
{
    assert((b & 0x20u8 != 0) == ((b / 32u8) % 2u8 == 1u8)) by (bit_vector);
}

fn is_ascii_letter(b: u8) -> (r: bool)
    ensures
        r == is_letter(b),
{
    (65 <= b && b <= 90) || (97 <= b && b <= 122)
}

/// The error of a type code that is not made of four ASCII letters.
#[derive(Debug, PartialEq, Eq, Structural, Clone, Copy)]
pub struct InvalidTypeCodeError;

/// A four-byte chunk type code. Every byte is an ASCII letter; bit 5 of each
/// byte carries one property of the chunk.
#[derive(Debug, PartialEq, Eq)]
pub struct ChunkType {
    type_code: [u8; 4],
}

impl View for ChunkType {
    type V = Seq<u8>;

    closed spec fn view(&self) -> Seq<u8> {
        self.type_code@
    }
}

impl ChunkType {
    #[verifier::type_invariant]
    spec fn inv(&self) -> bool {
        is_type_code(self.type_code@)
    }

    /// Builds a type code from four raw bytes, each of which must be an ASCII letter.
    pub fn try_from(type_code: [u8; 4]) -> (r: Result<ChunkType, InvalidTypeCodeError>)
        ensures
            r is Ok <==> is_type_code(type_code@),
            r matches Ok(t) ==> t@ == type_code@,
    {
        let mut i: usize = 0;
        while i < 4
            invariant
                0 <= i <= 4,
                forall|j: int| 0 <= j < i ==> is_letter(#[trigger] type_code@[j]),
            decreases 4 - i,
        {
            if !is_ascii_letter(type_code[i]) {
                return Err(InvalidTypeCodeError);
            }
            i = i + 1;
        }
        Ok(ChunkType { type_code })
    }

    /// Builds a type code from a string of exactly four ASCII letters.
    pub fn from_str(s: &str) -> (r: Result<ChunkType, InvalidTypeCodeError>)
        ensures
            r is Ok <==> is_type_code(s.spec_bytes()),
            r matches Ok(t) ==> t@ == s.spec_bytes(),
    {
        let b = s.as_bytes();
        if b.len() != 4 {
            return Err(InvalidTypeCodeError);
        }
        let code: [u8; 4] = [b[0], b[1], b[2], b[3]];
        assert(code@ =~= b@);
        ChunkType::try_from(code)
    }

    /// The four bytes of the type code.
    pub fn bytes(&self) -> (r: [u8; 4])
        ensures
            r@ == self@,
            is_type_code(self@),
    {
        proof {
            use_type_invariant(self);
        }
        self.type_code
    }

    /// The type code as text: its four letters.
    pub fn to_string(&self) -> (r: String)
        ensures
            r@ == ascii_chars(self@),
    {
        proof {
            use_type_invariant(self);
            assert(all_ascii(self@));
        }
        let mut code: Vec<u8> = Vec::new();
        code.push(self.type_code[0]);
        code.push(self.type_code[1]);
        code.push(self.type_code[2]);
        code.push(self.type_code[3]);
        assert(code@ =~= self@);
        match string_from_utf8(code) {
            Some(s) => s,
            None => String::new(),
        }
    }

    /// Whether every byte is an ASCII letter and the reserved bit is clear.
    pub fn is_valid(&self) -> (r: bool)
        ensures
            r == (is_type_code(self@) && !property_bit(self@[2])),
    {
        let mut i: usize = 0;
        while i < 4
            invariant
                0 <= i <= 4,
                self@ == self.type_code@,
                forall|j: int| 0 <= j < i ==> is_letter(#[trigger] self@[j]),
            decreases 4 - i,
        {
            if !is_ascii_letter(self.type_code[i]) {
                return false;
            }
            i = i + 1;
        }
        self.is_reserved_bit_valid()
    }

    /// A critical chunk has bit 5 of its first byte clear; an ancillary one has it set.
    pub fn is_critical(&self) -> (r: bool)
        ensures
            r == !property_bit(self@[0]),
    {
        proof {
            lemma_property_bit(self.type_code[0]);
        }
        self.type_code[0] & 0x20u8 == 0
    }

    /// A public chunk has bit 5 of its second byte clear; a private one has it set.
    pub fn is_public(&self) -> (r: bool)
        ensures
            r == !property_bit(self@[1]),
    {
        proof {
            lemma_property_bit(self.type_code[1]);
        }
        self.type_code[1] & 0x20u8 == 0
    }

    /// The reserved bit, bit 5 of the third byte, must be clear.
    pub fn is_reserved_bit_valid(&self) -> (r: bool)
        ensures
            r == !property_bit(self@[2]),
    {
        proof {
            lemma_property_bit(self.type_code[2]);
        }
        self.type_code[2] & 0x20u8 == 0
    }

    /// A chunk is safe to copy when bit 5 of its fourth byte is set.
    pub fn is_safe_to_copy(&self) -> (r: bool)
        ensures
            r == property_bit(self@[3]),
    {
        proof {
            lemma_property_bit(self.type_code[3]);
        }
        self.type_code[3] & 0x20u8 != 0
    }
}

impl core::convert::TryFrom<[u8; 4]> for ChunkType {
    type Error = InvalidTypeCodeError;

    fn try_from(type_code: [u8; 4]) -> (r: Result<ChunkType, InvalidTypeCodeError>) {
        match ChunkType::try_from(type_code) {
            Ok(t) => {
                assert(t.type_code =~= type_code);
                Ok(t)
            },
            Err(e) => Err(e),
        }
    }
}

impl vstd::std_specs::convert::TryFromSpecImpl<[u8; 4]> for ChunkType {
    open spec fn obeys_try_from_spec() -> bool {
        true
    }

    closed spec fn try_from_spec(v: [u8; 4]) -> Result<ChunkType, InvalidTypeCodeError> {
        if is_type_code(v@) {
            Ok(ChunkType { type_code: v })
        } else {
            Err(InvalidTypeCodeError)
        }
    }
}

impl core::str::FromStr for ChunkType {
    type Err = InvalidTypeCodeError;

    fn from_str(s: &str) -> (r: Result<ChunkType, InvalidTypeCodeError>) {
        ChunkType::from_str(s)
    }
}

} // verus!
