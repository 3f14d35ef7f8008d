//! One chunk of a PNG file: a type code, a payload, and around them the
//! payload's length and a checksum.
//!
//! On the wire a chunk is, with every number big-endian,
//!
//! ```text
//! length: 4 bytes | type code: 4 bytes | payload: length bytes | checksum: 4 bytes
//! ```
//!
//! where the checksum is the CRC-32 of the type code followed by the payload.

use vstd::prelude::*;
use vstd::slice::{slice_subrange, slice_to_vec};
use vstd::std_specs::convert::TryFromSpecImpl;
use vstd::utf8::*;
use crate::bigendian::{
    be_bytes,
    be_value,
    from_be_bytes,
    lemma_be_bytes_of_value,
    lemma_be_value_of_bytes,
    to_be_bytes,
};
use crate::chunk_type::{is_type_code, ChunkType};
use crate::crc::{checksum, crc32, lemma_crc32_detects_one_byte};
use crate::error::Error;
use crate::text::{
    ascii_string,
    ascii_text,
    decimal,
    decimal_digits,
    decimal_text,
    is_ascii,
    lemma_decimal_digits_ascii,
    push_decimal,
    utf8_text,
};

verus! {

/// The longest payload that a new chunk may carry: PNG keeps the length
/// field below 2^31 so that no decoder can take it for a negative number.
pub const MAX_PAYLOAD: usize = 0x7fff_ffff;

/// The bytes that a chunk takes on the wire beside its payload.
pub const FRAME: usize = 12;

/// What a chunk is: its type code and its payload. Length and checksum
/// follow from these two.
pub struct ChunkView {
    pub chunk_type: Seq<u8>,
    pub data: Seq<u8>,
}

impl ChunkView {
    /// The type code is four letters, and a 32-bit field can hold the
    /// payload's length.
    pub open spec fn wf(self) -> bool {
        &&& is_type_code(self.chunk_type)
        &&& self.data.len() <= u32::MAX
    }

    /// The number of payload bytes.
    pub open spec fn length(self) -> u32 {
        self.data.len() as u32
    }

    /// The checksum: the CRC-32 of the type code followed by the payload.
    pub open spec fn crc(self) -> u32 {
        crc32(self.chunk_type + self.data)
    }

    /// The chunk on the wire.
    pub open spec fn as_bytes(self) -> Seq<u8> {
        be_bytes(self.length()) + self.chunk_type + self.data + be_bytes(self.crc())
    }

    /// The chunk in words: its length, its type code, its payload as a list
    /// of decimal numbers, and its checksum.
    pub open spec fn text(self) -> Seq<char> {
        "Chunk { length: "@ + decimal_text(self.length() as nat) + ", chunk_type: "@ + ascii_text(
            self.chunk_type,
        ) + ", data: ["@ + ascii_text(byte_list(self.data)) + "], crc: "@ + decimal_text(
            self.crc() as nat,
        ) + " }"@
    }

    /// The chunk that `bytes` are the wire form of, or the reason why they
    /// are the wire form of none. The checks come in this order: enough bytes
    /// for an empty chunk, a length field that accounts for all the bytes, a
    /// checksum that fits, a type code made of letters.
    pub open spec fn from_bytes(bytes: Seq<u8>) -> Result<ChunkView, Error> {
        if bytes.len() < FRAME {
            Err(Error::TruncatedChunk)
        } else if FRAME + declared_length(bytes) != bytes.len() {
            Err(Error::LengthMismatch)
        } else {
            let length = declared_length(bytes) as int;
            let chunk_type = bytes.subrange(4, 8);
            let data = bytes.subrange(8, 8 + length);
            if crc32(chunk_type + data) != be_value(bytes.subrange(8 + length, 12 + length)) {
                Err(Error::CrcMismatch)
            } else if !is_type_code(chunk_type) {
                Err(Error::InvalidChunkType)
            } else {
                Ok(ChunkView { chunk_type, data })
            }
        }
    }
}

/// The decimal numerals of the bytes of `data`, with a comma and a space
/// between each two, as ASCII codes.
pub open spec fn byte_list(data: Seq<u8>) -> Seq<u8>
    decreases data.len(),
{
    if data.len() == 0 {
        Seq::empty()
    } else if data.len() == 1 {
        decimal_digits(data[0] as nat)
    } else {
        byte_list(data.drop_last()) + seq![0x2cu8, 0x20u8] + decimal_digits(data.last() as nat)
    }
}

/// The payload length that the first four bytes of `bytes` declare.
pub open spec fn declared_length(bytes: Seq<u8>) -> u32
    recommends
        bytes.len() >= 4,
{
    be_value(bytes.subrange(0, 4))
}

/// The first four bytes of `slice`, or all of them followed by zeros if
/// there are fewer.
pub fn array4_from_slice(slice: &[u8]) -> (arr: [u8; 4])
    requires
        slice@.len() <= 4,
    ensures
        forall|i: int|
            0 <= i < 4 ==> #[trigger] arr@[i] == if i < slice@.len() {
                slice@[i]
            } else {
                0u8
            },
        slice@.len() == 4 ==> arr@ == slice@,
{
    let mut arr = [0u8;4];
    let mut i: usize = 0;
    while i < slice.len()
        invariant
            i <= slice@.len() <= 4,
            forall|j: int|
                0 <= j < 4 ==> #[trigger] arr@[j] == if j < i {
                    slice@[j]
                } else {
                    0u8
                },
        decreases slice@.len() - i,
    {
        arr[i] = slice[i];
        i += 1;
    }
    arr
}

/// A chunk of a PNG file.
#[derive(Debug)]
pub struct Chunk {
    length: u32,
    chunk_type: ChunkType,
    data: Vec<u8>,
    crc: u32,
}

impl View for Chunk {
    type V = ChunkView;

    closed spec fn view(&self) -> ChunkView {
        ChunkView { chunk_type: self.chunk_type@, data: self.data@ }
    }
}

impl Chunk {
    /// What holds of every chunk: the type code is well-formed, the length
    /// field counts the payload, and the checksum is that of type code and
    /// payload.
    #[verifier::type_invariant]
    pub closed spec fn well_formed(&self) -> bool {
        &&& self.chunk_type.well_formed()
        &&& self.length == self.data@.len()
        &&& self.crc == crc32(self.chunk_type@ + self.data@)
    }

    /// The view of a well-formed chunk is well-formed.
    pub proof fn lemma_well_formed(&self)
        requires
            self.well_formed(),
        ensures
            self@.wf(),
    {
        self.chunk_type.lemma_well_formed();
    }

    /// The chunk with the given type code and payload. Its checksum is
    /// computed here.
    pub fn new(chunk_type: ChunkType, data: Vec<u8>) -> (r: Result<Chunk, Error>)
        ensures
            match r {
                Ok(chunk) => {
                    &&& data@.len() <= MAX_PAYLOAD
                    &&& chunk@ == (ChunkView { chunk_type: chunk_type@, data: data@ })
                    &&& chunk@.wf()
                },
                Err(e) => data@.len() > MAX_PAYLOAD && e == Error::PayloadTooLarge,
            },
    {
        if data.len() > MAX_PAYLOAD {
            return Err(Error::PayloadTooLarge);
        }
        proof {
            use_type_invariant(&chunk_type);
        }
        let code = chunk_type.bytes();
        let mut bytes: Vec<u8> = Vec::new();
        bytes.extend_from_slice(code.as_slice());
        bytes.extend_from_slice(data.as_slice());
        assert(bytes@ =~= chunk_type@ + data@);
        let crc = checksum(bytes.as_slice());
        Ok(Chunk { length: data.len() as u32, chunk_type, data, crc })
    }

    /// The number of payload bytes.
    pub fn length(&self) -> (r: u32)
        ensures
            r == self@.length(),
            self@.wf(),
    {
        proof {
            use_type_invariant(self);
            self.lemma_well_formed();
        }
        self.length
    }

    /// The type code.
    pub fn chunk_type(&self) -> (r: &ChunkType)
        ensures
            r@ == self@.chunk_type,
    {
        &self.chunk_type
    }

    /// The payload.
    pub fn data(&self) -> (r: &[u8])
        ensures
            r@ == self@.data,
    {
        self.data.as_slice()
    }

    /// The checksum.
    pub fn crc(&self) -> (r: u32)
        ensures
            r == self@.crc(),
    {
        proof {
            use_type_invariant(self);
        }
        self.crc
    }

    /// The payload as text: the characters that it encodes in UTF-8.
    pub fn data_as_string(&self) -> (r: Result<String, Error>)
        ensures
            match r {
                Ok(s) => valid_utf8(self@.data) && s@ == decode_utf8(self@.data),
                Err(e) => !valid_utf8(self@.data) && e == Error::InvalidUtf8,
            },
    {
        match utf8_text(self.data.clone()) {
            Some(s) => Ok(s),
            None => Err(Error::InvalidUtf8),
        }
    }

    /// The chunk on the wire.
    pub fn as_bytes(&self) -> (bytes: Vec<u8>)
        ensures
            bytes@ == self@.as_bytes(),
            self@.wf(),
    {
        proof {
            use_type_invariant(self);
            self.lemma_well_formed();
        }
        let length = to_be_bytes(self.length);
        let code = self.chunk_type.bytes();
        let crc = to_be_bytes(self.crc);
        let mut bytes: Vec<u8> = Vec::new();
        bytes.extend_from_slice(length.as_slice());
        bytes.extend_from_slice(code.as_slice());
        bytes.extend_from_slice(self.data.as_slice());
        bytes.extend_from_slice(crc.as_slice());
        bytes
    }
}

/// The decimal numerals of the bytes of `data`, with a comma and a space
/// between each two.
fn byte_list_string(data: &[u8]) -> (s: String)
    ensures
        s@ == ascii_text(byte_list(data@)),
{
    let mut list: Vec<u8> = Vec::new();
    let mut i: usize = 0;
    while i < data.len()
        invariant
            i <= data@.len(),
            list@ == byte_list(data@.take(i as int)),
            is_ascii(list@),
        decreases data@.len() - i,
    {
        proof {
            lemma_decimal_digits_ascii(data@[i as int] as nat);
            assert(data@.take(i + 1).drop_last() =~= data@.take(i as int));
        }
        if i > 0 {
            list.push(0x2cu8);
            list.push(0x20u8);
        }
        push_decimal(&mut list, data[i] as u64);
        i += 1;
    }
    assert(data@.take(i as int) =~= data@);
    ascii_string(list)
}

impl Chunk {
    /// The chunk in words.
    pub fn to_string(&self) -> (s: String)
        ensures
            s@ == self@.text(),
    {
        proof {
            use_type_invariant(self);
        }
        let mut s = String::new();
        s.append("Chunk { length: ");
        s.append(decimal(self.length as u64).as_str());
        s.append(", chunk_type: ");
        s.append(self.chunk_type.to_string().as_str());
        s.append(", data: [");
        s.append(byte_list_string(self.data.as_slice()).as_str());
        s.append("], crc: ");
        s.append(decimal(self.crc as u64).as_str());
        s.append(" }");
        s
    }
}

impl Clone for Chunk {
    fn clone(&self) -> (r: Self)
        ensures
            r@ == self@,
    {
        proof {
            use_type_invariant(self);
        }
        Chunk {
            length: self.length,
            chunk_type: self.chunk_type,
            data: self.data.clone(),
            crc: self.crc,
        }
    }
}

impl<'a> TryFromSpecImpl<&'a [u8]> for Chunk {
    /// A chunk owns its payload, and no spec function can build the buffer:
    /// what `try_from` returns is stated on `try_from` itself, over views.
    open spec fn obeys_try_from_spec() -> bool {
        false
    }

    open spec fn try_from_spec(bytes: &'a [u8]) -> Result<Self, Error> {
        arbitrary()
    }
}

impl<'a> TryFrom<&'a [u8]> for Chunk {
    type Error = Error;

    /// Reads one chunk from `bytes`, which must hold the chunk and nothing
    /// else.
    fn try_from(bytes: &'a [u8]) -> (r: Result<Self, Error>)
        ensures
            match r {
                Ok(chunk) => ChunkView::from_bytes(bytes@) == Ok::<ChunkView, Error>(chunk@),
                Err(e) => ChunkView::from_bytes(bytes@) == Err::<ChunkView, Error>(e),
            },
    {
        if bytes.len() < FRAME {
            return Err(Error::TruncatedChunk);
        }
        let length = from_be_bytes(array4_from_slice(slice_subrange(bytes, 0, 4)));
        if bytes.len() - FRAME != length as usize {
            return Err(Error::LengthMismatch);
        }
        let end = bytes.len() - 4;
        let stored = from_be_bytes(array4_from_slice(slice_subrange(bytes, end, bytes.len())));
        let sum = checksum(slice_subrange(bytes, 4, end));
        assert(bytes@.subrange(4, end as int) =~= bytes@.subrange(4, 8) + bytes@.subrange(
            8,
            end as int,
        ));
        if sum != stored {
            return Err(Error::CrcMismatch);
        }
        let chunk_type = match ChunkType::try_from(array4_from_slice(slice_subrange(bytes, 4, 8))) {
            Ok(t) => t,
            Err(e) => {
                return Err(e);
            },
        };
        let data = slice_to_vec(slice_subrange(bytes, 8, end));
        proof {
            use_type_invariant(&chunk_type);
        }
        Ok(Chunk { length, chunk_type, data, crc: stored })
    }
}

/// The byte `b` with the bit of the given number, 0 to 7, inverted.
pub open spec fn flip_bit(b: u8, bit: u8) -> u8 {
    b ^ (1u8 << bit)
}

/// The parts of a chunk on the wire.
pub proof fn lemma_as_bytes_parts(chunk: ChunkView)
    requires
        chunk.wf(),
    ensures
        ({
            let bytes = chunk.as_bytes();
            let n = chunk.data.len() as int;
            &&& bytes.len() == FRAME + n
            &&& bytes.subrange(0, 4) == be_bytes(chunk.length())
            &&& bytes.subrange(4, 8) == chunk.chunk_type
            &&& bytes.subrange(8, 8 + n) == chunk.data
            &&& bytes.subrange(8 + n, 12 + n) == be_bytes(chunk.crc())
            &&& declared_length(bytes) == n
        }),
{
    lemma_be_value_of_bytes(chunk.length());
    lemma_be_value_of_bytes(chunk.crc());
    assert(chunk.as_bytes().subrange(4, 8) =~= chunk.chunk_type);
}

/// Fewer than twelve bytes hold no chunk: reading them fails for want of
/// bytes, whatever they are.
pub proof fn lemma_short_chunk_is_truncated(bytes: Seq<u8>)
    requires
        bytes.len() < FRAME,
    ensures
        ChunkView::from_bytes(bytes) == Err::<ChunkView, Error>(Error::TruncatedChunk),
{
}

/// Reading a chunk that was written gives the same chunk: whatever holds a
/// type code of four letters and a payload that the length field can count
/// survives the wire unchanged.
pub proof fn lemma_from_bytes_of_as_bytes(chunk: ChunkView)
    requires
        chunk.wf(),
    ensures
        ChunkView::from_bytes(chunk.as_bytes()) == Ok::<ChunkView, Error>(chunk),
{
    lemma_as_bytes_parts(chunk);
    lemma_be_value_of_bytes(chunk.crc());
}

/// Writing a chunk that was read gives the bytes it was read from, and
/// whatever is read is well-formed.
pub proof fn lemma_as_bytes_of_from_bytes(bytes: Seq<u8>)
    requires
        ChunkView::from_bytes(bytes) is Ok,
    ensures
        ChunkView::from_bytes(bytes).unwrap().wf(),
        ChunkView::from_bytes(bytes).unwrap().as_bytes() == bytes,
{
    let n = declared_length(bytes) as int;
    lemma_be_bytes_of_value(bytes.subrange(0, 4));
    lemma_be_bytes_of_value(bytes.subrange(8 + n, 12 + n));
}

/// No change to a single byte of the type code or the payload of a written
/// chunk goes unnoticed: reading the changed bytes fails on the checksum.
pub proof fn lemma_from_bytes_detects_one_byte(chunk: ChunkView, at: int, byte: u8)
    requires
        chunk.wf(),
        4 <= at < 8 + chunk.data.len(),
        byte != chunk.as_bytes()[at],
    ensures
        ChunkView::from_bytes(chunk.as_bytes().update(at, byte)) == Err::<ChunkView, Error>(
            Error::CrcMismatch,
        ),
{
    let good = chunk.as_bytes();
    let bad = good.update(at, byte);
    let n = chunk.data.len() as int;
    lemma_as_bytes_parts(chunk);
    lemma_be_value_of_bytes(chunk.crc());
    assert(bad.subrange(0, 4) =~= good.subrange(0, 4));
    assert(bad.subrange(8 + n, 12 + n) =~= good.subrange(8 + n, 12 + n));
    let before = good.subrange(4, 8) + good.subrange(8, 8 + n);
    let after = bad.subrange(4, 8) + bad.subrange(8, 8 + n);
    lemma_crc32_detects_one_byte(before, after, at - 4);
}

/// No flip of a single bit in the type code or the payload of a written
/// chunk goes unnoticed: reading the changed bytes fails on the checksum.
pub proof fn lemma_from_bytes_detects_bit_flip(chunk: ChunkView, at: int, bit: u8)
    requires
        chunk.wf(),
        4 <= at < 8 + chunk.data.len(),
        bit < 8,
    ensures
        ChunkView::from_bytes(chunk.as_bytes().update(at, flip_bit(chunk.as_bytes()[at], bit)))
            == Err::<ChunkView, Error>(Error::CrcMismatch),
{
    let b = chunk.as_bytes()[at];
    assert(b ^ (1u8 << bit) != b) by (bit_vector)
        requires
            bit < 8,
    ;
    lemma_from_bytes_detects_one_byte(chunk, at, flip_bit(b, bit));
}

} // verus!
