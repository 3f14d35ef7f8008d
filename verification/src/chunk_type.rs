//! The four-letter type code of a chunk.
//!
//! A type code is four ASCII letters. Bit 5 of each letter, which tells upper
//! case from lower case, carries a property of the chunk.

use vstd::prelude::*;
use vstd::std_specs::cmp::PartialEqSpecImpl;
use vstd::std_specs::convert::TryFromSpecImpl;
use vstd::utf8::*;
use crate::error::Error;
use crate::text::{ascii_string, ascii_text, lemma_ascii_is_utf8, lemma_encode_utf8_injective};

verus! {

/// Whether `b` is the code of an ASCII letter.
pub open spec fn is_letter(b: u8) -> bool {
    (0x41 <= b <= 0x5a) || (0x61 <= b <= 0x7a)
}

/// Whether `code` consists of exactly four ASCII letters.
pub open spec fn is_type_code(code: Seq<u8>) -> bool {
    &&& code.len() == 4
    &&& forall|i: int| 0 <= i < 4 ==> is_letter(#[trigger] code[i])
}

/// Whether `text` consists of exactly four ASCII letters.
pub open spec fn is_type_text(text: Seq<char>) -> bool {
    &&& text.len() == 4
    &&& forall|i: int|
        0 <= i < 4 ==> ('A' <= #[trigger] text[i] <= 'Z') || ('a' <= text[i] <= 'z')
}

/// Whether bit 5 of `b` is set.
pub open spec fn bit5(b: u8) -> bool {
    b & 0x20 == 0x20
}

/// A text is a type code exactly if its UTF-8 encoding is one, and the
/// encoding then reads back as the text.
pub proof fn lemma_type_text_encoding(text: Seq<char>)
    ensures
        is_type_code(encode_utf8(text)) <==> is_type_text(text),
        is_type_text(text) ==> ascii_text(encode_utf8(text)) == text,
{
    let bytes = encode_utf8(text);
    if is_type_text(text) {
        is_ascii_chars_encode_utf8(text);
        assert(ascii_text(bytes) =~= text);
    }
    if is_type_code(bytes) {
        lemma_ascii_is_utf8(bytes);
        lemma_encode_utf8_injective(ascii_text(bytes), text);
    }
}

fn letter(b: u8) -> (r: bool)
    ensures
        r == is_letter(b),
{
    (0x41 <= b && b <= 0x5a) || (0x61 <= b && b <= 0x7a)
}

fn all_letters(bytes: &[u8; 4]) -> (r: bool)
    ensures
        r == is_type_code(bytes@),
{
    letter(bytes[0]) && letter(bytes[1]) && letter(bytes[2]) && letter(bytes[3])
}

/// The type code of a chunk: four ASCII letters.
#[derive(Clone, Copy, Debug)]
pub struct ChunkType {
    bytes: [u8; 4],
}

impl View for ChunkType {
    type V = Seq<u8>;

    /// The four bytes of the code.
    closed spec fn view(&self) -> Seq<u8> {
        self.bytes@
    }
}

impl ChunkType {
    /// What holds of every type code: it is four letters.
    #[verifier::type_invariant]
    pub closed spec fn well_formed(&self) -> bool {
        is_type_code(self.bytes@)
    }

    /// A well-formed type code is four letters.
    pub proof fn lemma_well_formed(&self)
        requires
            self.well_formed(),
        ensures
            is_type_code(self@),
    {
    }

    /// The code as text.
    pub open spec fn text(&self) -> Seq<char> {
        ascii_text(self@)
    }

    /// The type code with the given letters. The receiver plays no part.
    pub fn new(&self, bytes: [u8; 4]) -> (r: Self)
        requires
            is_type_code(bytes@),
        ensures
            r@ == bytes@,
    {
        ChunkType { bytes }
    }

    /// The four bytes of the code.
    pub fn bytes(&self) -> (r: [u8; 4])
        ensures
            r@ == self@,
            is_type_code(self@),
    {
        proof {
            use_type_invariant(self);
        }
        self.bytes
    }

    /// Whether the code is made of letters and its reserved bit is clear.
    pub fn is_valid(&self) -> (r: bool)
        ensures
            r == (is_type_code(self@) && !bit5(self@[2])),
            is_type_code(self@),
    {
        proof {
            use_type_invariant(self);
        }
        all_letters(&self.bytes) && self.is_reserved_bit_valid()
    }

    /// Whether a decoder must understand the chunk: bit 5 of the first letter is clear.
    pub fn is_critical(&self) -> (r: bool)
        ensures
            r == !bit5(self@[0]),
    {
        self.bytes[0] & 0x20u8 != 0x20u8
    }

    /// Whether the chunk is publicly defined: bit 5 of the second letter is clear.
    pub fn is_public(&self) -> (r: bool)
        ensures
            r == !bit5(self@[1]),
    {
        self.bytes[1] & 0x20u8 != 0x20u8
    }

    /// Whether the reserved bit, bit 5 of the third letter, is clear as it must be.
    pub fn is_reserved_bit_valid(&self) -> (r: bool)
        ensures
            r == !bit5(self@[2]),
    {
        self.bytes[2] & 0x20u8 != 0x20u8
    }

    /// Whether an editor that does not know the chunk may copy it: bit 5 of
    /// the fourth letter is set.
    pub fn is_safe_to_copy(&self) -> (r: bool)
        ensures
            r == bit5(self@[3]),
    {
        self.bytes[3] & 0x20u8 == 0x20u8
    }

    /// The code as a string of four letters.
    pub fn to_string(&self) -> (s: String)
        ensures
            s@ == self.text(),
            is_type_text(s@),
    {
        proof {
            use_type_invariant(self);
        }
        let mut letters: Vec<u8> = Vec::new();
        letters.push(self.bytes[0]);
        letters.push(self.bytes[1]);
        letters.push(self.bytes[2]);
        letters.push(self.bytes[3]);
        ascii_string(letters)
    }

    /// Whether the code, read as text, is `text`.
    pub fn matches(&self, text: &str) -> (r: bool)
        ensures
            r == (self.text() == text@),
    {
        proof {
            use_type_invariant(self);
            lemma_ascii_is_utf8(self.bytes@);
            if self.bytes@ == encode_utf8(text@) {
                lemma_encode_utf8_injective(ascii_text(self.bytes@), text@);
            }
        }
        let other = text.as_bytes();
        let r = other.len() == 4 && other[0] == self.bytes[0] && other[1] == self.bytes[1]
            && other[2] == self.bytes[2] && other[3] == self.bytes[3];
        assert(r == (other@ =~= self.bytes@));
        r
    }
}

impl PartialEqSpecImpl for ChunkType {
    open spec fn obeys_eq_spec() -> bool {
        true
    }

    open spec fn eq_spec(&self, other: &Self) -> bool {
        self@ == other@
    }
}

impl PartialEq for ChunkType {
    /// Two type codes are equal if their bytes are.
    fn eq(&self, other: &Self) -> (r: bool) {
        let r = self.bytes[0] == other.bytes[0] && self.bytes[1] == other.bytes[1]
            && self.bytes[2] == other.bytes[2] && self.bytes[3] == other.bytes[3];
        assert(r == (self.bytes@ =~= other.bytes@));
        r
    }
}

impl Eq for ChunkType {

}

impl TryFromSpecImpl<[u8; 4]> for ChunkType {
    open spec fn obeys_try_from_spec() -> bool {
        true
    }

    closed spec fn try_from_spec(bytes: [u8; 4]) -> Result<Self, Error> {
        if is_type_code(bytes@) {
            Ok(ChunkType { bytes })
        } else {
            Err(Error::InvalidChunkType)
        }
    }
}

impl TryFrom<[u8; 4]> for ChunkType {
    type Error = Error;

    /// The type code with the given bytes, if they are four letters.
    fn try_from(bytes: [u8; 4]) -> (r: Result<Self, Error>)
        ensures
            match r {
                Ok(t) => is_type_code(bytes@) && t@ == bytes@,
                Err(e) => !is_type_code(bytes@) && e == Error::InvalidChunkType,
            },
    {
        if all_letters(&bytes) {
            Ok(ChunkType { bytes })
        } else {
            Err(Error::InvalidChunkType)
        }
    }
}

impl<'a> TryFromSpecImpl<&'a str> for ChunkType {
    open spec fn obeys_try_from_spec() -> bool {
        true
    }

    closed spec fn try_from_spec(s: &'a str) -> Result<Self, Error> {
        let bytes = encode_utf8(s@);
        if is_type_code(bytes) {
            Ok(ChunkType { bytes: [bytes[0], bytes[1], bytes[2], bytes[3]] })
        } else {
            Err(Error::InvalidChunkType)
        }
    }
}

impl<'a> TryFrom<&'a str> for ChunkType {
    type Error = Error;

    /// The type code that `s` spells, if `s` is four letters.
    fn try_from(s: &'a str) -> (r: Result<Self, Error>)
        ensures
            match r {
                Ok(t) => is_type_text(s@) && t.text() == s@ && t@ == encode_utf8(s@),
                Err(e) => !is_type_text(s@) && e == Error::InvalidChunkType,
            },
    {
        proof {
            lemma_type_text_encoding(s@);
        }
        let bytes = s.as_bytes();
        if bytes.len() != 4 {
            return Err(Error::InvalidChunkType);
        }
        let code = [bytes[0], bytes[1], bytes[2], bytes[3]];
        if all_letters(&code) {
            Ok(ChunkType { bytes: code })
        } else {
            Err(Error::InvalidChunkType)
        }
    }
}

impl std::str::FromStr for ChunkType {
    type Err = Error;

    /// The type code that `s` spells, if `s` is four letters.
    fn from_str(s: &str) -> (r: Result<Self, Error>)
        ensures
            match r {
                Ok(t) => is_type_text(s@) && t.text() == s@ && t@ == encode_utf8(s@),
                Err(e) => !is_type_text(s@) && e == Error::InvalidChunkType,
            },
    {
        ChunkType::try_from(s)
    }
}

} // verus!
