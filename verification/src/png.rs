//! A PNG file as a sequence of chunks behind the fixed signature.

use vstd::prelude::*;
use vstd::slice::slice_subrange;
use vstd::std_specs::convert::TryFromSpecImpl;
use crate::bigendian::from_be_bytes;
use crate::chunk::{
    array4_from_slice,
    declared_length,
    lemma_as_bytes_of_from_bytes,
    lemma_from_bytes_of_as_bytes,
    Chunk,
    ChunkView,
    FRAME,
};
use crate::error::{Error, ParseError};
use crate::text::{ascii_text, decimal, decimal_text};

verus! {

/// The eight bytes with which every PNG file begins.
pub const SIGNATURE: [u8; 8] = [137, 80, 78, 71, 13, 10, 26, 10];

/// The type code of the chunk that ends a PNG file.
pub const TERMINATOR: &'static str = "IEND";

/// Whether every chunk of `chunks` is well-formed.
pub open spec fn all_wf(chunks: Seq<ChunkView>) -> bool {
    forall|i: int| 0 <= i < chunks.len() ==> (#[trigger] chunks[i]).wf()
}

/// Whether the type code of `chunk` reads as `code`.
pub open spec fn has_type(chunk: ChunkView, code: Seq<char>) -> bool {
    ascii_text(chunk.chunk_type) == code
}

/// Whether `at` is the place of the first chunk of `chunks` with type `code`.
pub open spec fn is_first_of_type(chunks: Seq<ChunkView>, code: Seq<char>, at: int) -> bool {
    &&& 0 <= at < chunks.len()
    &&& has_type(chunks[at], code)
    &&& forall|j: int| 0 <= j < at ==> !has_type(#[trigger] chunks[j], code)
}

/// The place of the first chunk of `chunks` with type `code`, where there
/// is one.
pub open spec fn first_of_type(chunks: Seq<ChunkView>, code: Seq<char>) -> int {
    choose|at: int| is_first_of_type(chunks, code, at)
}

/// Whether no chunk of `chunks` has type `code`.
pub open spec fn none_of_type(chunks: Seq<ChunkView>, code: Seq<char>) -> bool {
    forall|j: int| 0 <= j < chunks.len() ==> !has_type(#[trigger] chunks[j], code)
}

/// The place at which `inserted` puts the new chunk.
pub open spec fn place_of_insertion(chunks: Seq<ChunkView>, terminator: Seq<char>) -> int {
    if chunks.len() > 0 && has_type(chunks.last(), terminator) {
        chunks.len() - 1
    } else {
        chunks.len() as int
    }
}

/// `chunks` with `chunk` added: before the last chunk if that one has type
/// `terminator`, else at the end.
pub open spec fn inserted(chunks: Seq<ChunkView>, chunk: ChunkView, terminator: Seq<char>) -> Seq<
    ChunkView,
> {
    chunks.insert(place_of_insertion(chunks, terminator), chunk)
}

/// The line that lists `chunk`: its type code, its length and its checksum.
pub open spec fn chunk_line(chunk: ChunkView) -> Seq<char> {
    "  "@ + ascii_text(chunk.chunk_type) + ": length "@ + decimal_text(chunk.length() as nat)
        + ", crc "@ + decimal_text(chunk.crc() as nat) + "\n"@
}

/// The lines that list `chunks`, in their order.
pub open spec fn chunk_lines(chunks: Seq<ChunkView>) -> Seq<char>
    decreases chunks.len(),
{
    if chunks.len() == 0 {
        Seq::empty()
    } else {
        chunk_lines(chunks.drop_last()) + chunk_line(chunks.last())
    }
}

/// The listing of a file: the number of its chunks, then a line for each.
/// Payloads are not shown.
pub open spec fn listing(chunks: Seq<ChunkView>) -> Seq<char> {
    "Png: "@ + decimal_text(chunks.len()) + " chunks\n"@ + chunk_lines(chunks)
}

/// The chunks on the wire, one after the other.
pub open spec fn chunks_as_bytes(chunks: Seq<ChunkView>) -> Seq<u8>
    decreases chunks.len(),
{
    if chunks.len() == 0 {
        Seq::empty()
    } else {
        chunks[0].as_bytes() + chunks_as_bytes(chunks.drop_first())
    }
}

/// The file with the given chunks: the signature, then the chunks.
pub open spec fn file_as_bytes(chunks: Seq<ChunkView>) -> Seq<u8> {
    SIGNATURE@ + chunks_as_bytes(chunks)
}

/// The bytes from offset `at` of `bytes` on that the chunk there claims by
/// its length field, or all bytes from `at` on where too few are left for
/// that.
pub open spec fn record_at(bytes: Seq<u8>, at: int) -> Seq<u8> {
    let rest = bytes.subrange(at, bytes.len() as int);
    if rest.len() >= FRAME && FRAME + declared_length(rest) <= rest.len() {
        rest.subrange(0, FRAME + declared_length(rest))
    } else {
        rest
    }
}

/// The chunks that `bytes` hold from offset `at` to the end, or the first
/// failure in reading them.
pub open spec fn chunks_from(bytes: Seq<u8>, at: int) -> Result<Seq<ChunkView>, ParseError>
    decreases bytes.len() - at,
{
    if 0 <= at < bytes.len() {
        match ChunkView::from_bytes(record_at(bytes, at)) {
            Err(kind) => Err(ParseError { kind, offset: at as usize }),
            Ok(chunk) => match chunks_from(bytes, at + FRAME + chunk.data.len()) {
                Err(e) => Err(e),
                Ok(rest) => Ok(seq![chunk] + rest),
            },
        }
    } else {
        Ok(Seq::empty())
    }
}

/// The chunks of the file `bytes`, or the first failure in reading it.
pub open spec fn file_from_bytes(bytes: Seq<u8>) -> Result<Seq<ChunkView>, ParseError> {
    if bytes.len() < 8 {
        Err(ParseError { kind: Error::TruncatedFile, offset: 0 })
    } else if bytes.subrange(0, 8) != SIGNATURE@ {
        Err(ParseError { kind: Error::BadSignature, offset: 0 })
    } else {
        chunks_from(bytes, 8)
    }
}

/// A PNG file: its chunks in order.
#[derive(Debug)]
pub struct Png {
    chunks: Vec<Chunk>,
}

impl View for Png {
    type V = Seq<ChunkView>;

    closed spec fn view(&self) -> Seq<ChunkView> {
        self.chunks@.map_values(|c: Chunk| c@)
    }
}

impl Png {
    /// What holds of every file: each of its chunks is well-formed.
    #[verifier::type_invariant]
    pub closed spec fn well_formed(&self) -> bool {
        forall|i: int| 0 <= i < self.chunks@.len() ==> (#[trigger] self.chunks@[i]).well_formed()
    }

    /// The chunks of a well-formed file are well-formed.
    pub proof fn lemma_well_formed(&self)
        requires
            self.well_formed(),
        ensures
            all_wf(self@),
    {
        assert forall|i: int| 0 <= i < self@.len() implies (#[trigger] self@[i]).wf() by {
            self.chunks@[i].lemma_well_formed();
        }
    }

    /// The file without chunks.
    pub fn new() -> (png: Png)
        ensures
            png@ == Seq::<ChunkView>::empty(),
    {
        let png = Png { chunks: Vec::new() };
        png
    }

    /// The signature, which is the same for every file.
    pub fn signature(&self) -> (r: [u8; 8])
        ensures
            r == SIGNATURE,
    {
        SIGNATURE
    }

    /// The chunks in order.
    pub fn chunks(&self) -> (r: &[Chunk])
        ensures
            r@.map_values(|c: Chunk| c@) == self@,
            all_wf(self@),
    {
        proof {
            use_type_invariant(self);
            self.lemma_well_formed();
        }
        self.chunks.as_slice()
    }

    /// Moves the chunks out and leaves none behind.
    fn take_chunks(&mut self) -> (chunks: Vec<Chunk>)
        ensures
            chunks == old(self).chunks,
            final(self).chunks@.len() == 0,
            forall|i: int| 0 <= i < chunks@.len() ==> (#[trigger] chunks@[i]).well_formed(),
    {
        proof {
            use_type_invariant(&*self);
        }
        let mut chunks: Vec<Chunk> = Vec::new();
        std::mem::swap(&mut self.chunks, &mut chunks);
        chunks
    }

    /// Adds `chunk` at the end.
    pub fn append_chunk(&mut self, chunk: Chunk)
        ensures
            final(self)@ == old(self)@.push(chunk@),
    {
        proof {
            use_type_invariant(&chunk);
        }
        let mut chunks = self.take_chunks();
        chunks.push(chunk);
        self.chunks = chunks;
    }

    /// Adds `chunk` so that a chunk of type `terminator` that ends the file
    /// stays last: before the last chunk if that one has type `terminator`,
    /// else at the end.
    pub fn insert_chunk_before(&mut self, chunk: Chunk, terminator: &str)
        ensures
            final(self)@ == inserted(old(self)@, chunk@, terminator@),
    {
        proof {
            use_type_invariant(&chunk);
        }
        let mut chunks = self.take_chunks();
        let n = chunks.len();
        if n > 0 && chunks[n - 1].chunk_type().matches(terminator) {
            chunks.insert(n - 1, chunk);
        } else {
            chunks.push(chunk);
        }
        self.chunks = chunks;
    }

    /// Adds `chunk` so that an `IEND` chunk that ends the file stays last.
    pub fn insert_chunk(&mut self, chunk: Chunk)
        ensures
            final(self)@ == inserted(old(self)@, chunk@, TERMINATOR@),
    {
        self.insert_chunk_before(chunk, TERMINATOR)
    }

    /// The place of the first chunk of type `code`.
    fn find(&self, code: &str) -> (r: Option<usize>)
        ensures
            match r {
                Some(at) => is_first_of_type(self@, code@, at as int),
                None => none_of_type(self@, code@),
            },
    {
        let mut i: usize = 0;
        while i < self.chunks.len()
            invariant
                i <= self.chunks@.len(),
                forall|j: int| 0 <= j < i ==> !has_type(#[trigger] self@[j], code@),
            decreases self.chunks@.len() - i,
        {
            if self.chunks[i].chunk_type().matches(code) {
                return Some(i);
            }
            i += 1;
        }
        None
    }

    /// The first chunk of type `code`, if there is one.
    pub fn chunk_by_type(&self, code: &str) -> (r: Option<&Chunk>)
        ensures
            match r {
                Some(chunk) => {
                    &&& is_first_of_type(self@, code@, first_of_type(self@, code@))
                    &&& chunk@ == self@[first_of_type(self@, code@)]
                },
                None => none_of_type(self@, code@),
            },
    {
        match self.find(code) {
            Some(at) => Some(&self.chunks[at]),
            None => None,
        }
    }

    /// Takes the first chunk of type `code` out of the file and returns it.
    /// The other chunks keep their order. Without such a chunk the file
    /// stays as it is.
    pub fn remove_chunk(&mut self, code: &str) -> (r: Result<Chunk, Error>)
        ensures
            match r {
                Ok(chunk) => {
                    let at = first_of_type(old(self)@, code@);
                    &&& is_first_of_type(old(self)@, code@, at)
                    &&& chunk@ == old(self)@[at]
                    &&& final(self)@ == old(self)@.remove(at)
                },
                Err(e) => {
                    &&& e == Error::ChunkNotFound
                    &&& none_of_type(old(self)@, code@)
                    &&& final(self)@ == old(self)@
                },
            },
    {
        match self.find(code) {
            Some(at) => {
                let mut chunks = self.take_chunks();
                let chunk = chunks.remove(at);
                self.chunks = chunks;
                Ok(chunk)
            },
            None => Err(Error::ChunkNotFound),
        }
    }

    /// The listing of the file: the number of its chunks, then a line for
    /// each with its type code, length and checksum.
    pub fn to_string(&self) -> (s: String)
        ensures
            s@ == listing(self@),
    {
        let mut s = String::new();
        s.append("Png: ");
        s.append(decimal(self.chunks.len() as u64).as_str());
        s.append(" chunks\n");
        let mut i: usize = 0;
        while i < self.chunks.len()
            invariant
                i <= self.chunks@.len(),
                self@.len() == self.chunks@.len(),
                s@ == "Png: "@ + decimal_text(self@.len()) + " chunks\n"@ + chunk_lines(
                    self@.take(i as int),
                ),
            decreases self.chunks@.len() - i,
        {
            let chunk = &self.chunks[i];
            s.append("  ");
            s.append(chunk.chunk_type().to_string().as_str());
            s.append(": length ");
            s.append(decimal(chunk.length() as u64).as_str());
            s.append(", crc ");
            s.append(decimal(chunk.crc() as u64).as_str());
            s.append("\n");
            proof {
                assert(self@.take(i + 1).drop_last() =~= self@.take(i as int));
            }
            i += 1;
        }
        assert(self@.take(i as int) =~= self@);
        s
    }

    /// The file on the wire.
    pub fn as_bytes(&self) -> (bytes: Vec<u8>)
        ensures
            bytes@ == file_as_bytes(self@),
            all_wf(self@),
    {
        proof {
            use_type_invariant(self);
            self.lemma_well_formed();
        }
        let mut bytes: Vec<u8> = Vec::new();
        let signature = SIGNATURE;
        bytes.extend_from_slice(signature.as_slice());
        let mut i: usize = 0;
        while i < self.chunks.len()
            invariant
                i <= self.chunks@.len(),
                self@.len() == self.chunks@.len(),
                bytes@ == SIGNATURE@ + chunks_as_bytes(self@.take(i as int)),
            decreases self.chunks@.len() - i,
        {
            let part = self.chunks[i].as_bytes();
            bytes.extend_from_slice(part.as_slice());
            proof {
                lemma_chunks_as_bytes_push(self@.take(i as int), self@[i as int]);
                assert(self@.take(i + 1) =~= self@.take(i as int).push(self@[i as int]));
                assert(bytes@ =~= SIGNATURE@ + chunks_as_bytes(self@.take(i + 1)));
            }
            i += 1;
        }
        assert(self@.take(i as int) =~= self@);
        bytes
    }
}

/// `done` followed by what reading the rest gave.
spec fn followed_by(done: Seq<ChunkView>, rest: Result<Seq<ChunkView>, ParseError>)
    -> Result<Seq<ChunkView>, ParseError> {
    match rest {
        Ok(more) => Ok(done + more),
        Err(e) => Err(e),
    }
}

impl<'a> TryFromSpecImpl<&'a [u8]> for Png {
    /// A file owns its chunks, and no spec function can build them: what
    /// `try_from` returns is stated on `try_from` itself, over views.
    open spec fn obeys_try_from_spec() -> bool {
        false
    }

    open spec fn try_from_spec(bytes: &'a [u8]) -> Result<Self, ParseError> {
        arbitrary()
    }
}

impl<'a> TryFrom<&'a [u8]> for Png {
    type Error = ParseError;

    /// Reads a file from `bytes`, which must hold the whole file.
    fn try_from(bytes: &'a [u8]) -> (r: Result<Self, ParseError>)
        ensures
            match r {
                Ok(png) => file_from_bytes(bytes@) == Ok::<Seq<ChunkView>, ParseError>(png@),
                Err(e) => file_from_bytes(bytes@) == Err::<Seq<ChunkView>, ParseError>(e),
            },
    {
        if bytes.len() < 8 {
            return Err(ParseError { kind: Error::TruncatedFile, offset: 0 });
        }
        if !starts_with_signature(bytes) {
            return Err(ParseError { kind: Error::BadSignature, offset: 0 });
        }
        let mut chunks: Vec<Chunk> = Vec::new();
        let mut at: usize = 8;
        while at < bytes.len()
            invariant
                8 <= at <= bytes@.len(),
                bytes@.subrange(0, 8) == SIGNATURE@,
                forall|i: int| 0 <= i < chunks@.len() ==> (#[trigger] chunks@[i]).well_formed(),
                chunks_from(bytes@, 8) == followed_by(
                    chunks@.map_values(|c: Chunk| c@),
                    chunks_from(bytes@, at as int),
                ),
            decreases bytes@.len() - at,
        {
            let record = record_from(bytes, at);
            match Chunk::try_from(record) {
                Err(kind) => {
                    return Err(ParseError { kind, offset: at });
                },
                Ok(chunk) => {
                    proof {
                        use_type_invariant(&chunk);
                        let done = chunks@.map_values(|c: Chunk| c@);
                        let next = at + FRAME + chunk@.data.len();
                        assert(chunks@.push(chunk).map_values(|c: Chunk| c@) =~= done.push(
                            chunk@,
                        ));
                        match chunks_from(bytes@, next) {
                            Ok(more) => {
                                assert(done + (seq![chunk@] + more) =~= done.push(chunk@) + more);
                            },
                            Err(_) => {},
                        }
                    }
                    at = at + record.len();
                    chunks.push(chunk);
                },
            }
        }
        let png = Png { chunks };
        Ok(png)
    }
}

/// Whether `bytes` begin with the signature.
fn starts_with_signature(bytes: &[u8]) -> (r: bool)
    requires
        bytes@.len() >= 8,
    ensures
        r == (bytes@.subrange(0, 8) == SIGNATURE@),
{
    let signature = SIGNATURE;
    let mut i: usize = 0;
    while i < 8
        invariant
            i <= 8,
            bytes@.len() >= 8,
            signature == SIGNATURE,
            forall|j: int| 0 <= j < i ==> bytes@[j] == #[trigger] SIGNATURE@[j],
        decreases 8 - i,
    {
        if bytes[i] != signature[i] {
            return false;
        }
        i += 1;
    }
    assert(bytes@.subrange(0, 8) =~= SIGNATURE@);
    true
}

/// The bytes of the chunk that begins at offset `at`.
fn record_from(bytes: &[u8], at: usize) -> (record: &[u8])
    requires
        at <= bytes@.len(),
    ensures
        record@ == record_at(bytes@, at as int),
{
    let rest = slice_subrange(bytes, at, bytes.len());
    if rest.len() < FRAME {
        return rest;
    }
    let length = from_be_bytes(array4_from_slice(slice_subrange(rest, 0, 4)));
    if length as usize > rest.len() - FRAME {
        return rest;
    }
    slice_subrange(rest, 0, FRAME + length as usize)
}

/// The first chunk of a type has one place only, and where it has one, some
/// chunk has the type.
pub proof fn lemma_first_of_type(chunks: Seq<ChunkView>, code: Seq<char>, at: int)
    requires
        is_first_of_type(chunks, code, at),
    ensures
        first_of_type(chunks, code) == at,
        !none_of_type(chunks, code),
{
}

/// Where a chunk has type `code`, there is a first one, at or before it.
pub proof fn lemma_first_of_type_exists(chunks: Seq<ChunkView>, code: Seq<char>, upto: int)
    requires
        0 <= upto < chunks.len(),
        has_type(chunks[upto], code),
    ensures
        is_first_of_type(chunks, code, first_of_type(chunks, code)),
        first_of_type(chunks, code) <= upto,
    decreases upto,
{
    if exists|j: int| 0 <= j < upto && has_type(chunks[j], code) {
        let j = choose|j: int| 0 <= j < upto && has_type(chunks[j], code);
        lemma_first_of_type_exists(chunks, code, j);
    } else {
        lemma_first_of_type(chunks, code, upto);
    }
}

/// Adding a chunk makes the file one chunk longer and changes nothing
/// else: the chunks that were there keep their order, and a chunk of type
/// `terminator` that was last is last still.
pub proof fn lemma_inserted(chunks: Seq<ChunkView>, chunk: ChunkView, terminator: Seq<char>)
    ensures
        ({
            let place = place_of_insertion(chunks, terminator);
            let after = inserted(chunks, chunk, terminator);
            &&& 0 <= place <= chunks.len()
            &&& after.len() == chunks.len() + 1
            &&& after[place] == chunk
            &&& after.remove(place) == chunks
            &&& chunks.len() > 0 && has_type(chunks.last(), terminator) ==> after.last()
                == chunks.last()
        }),
{
}

/// Chunks written one after the other are the first ones written, then the
/// others written.
pub proof fn lemma_chunks_as_bytes_concat(a: Seq<ChunkView>, b: Seq<ChunkView>)
    ensures
        chunks_as_bytes(a + b) == chunks_as_bytes(a) + chunks_as_bytes(b),
    decreases a.len(),
{
    if a.len() > 0 {
        lemma_chunks_as_bytes_concat(a.drop_first(), b);
        assert((a + b).drop_first() =~= a.drop_first() + b);
    }
}

/// Writing one chunk more adds its bytes at the end.
pub proof fn lemma_chunks_as_bytes_push(chunks: Seq<ChunkView>, chunk: ChunkView)
    ensures
        chunks_as_bytes(chunks.push(chunk)) == chunks_as_bytes(chunks) + chunk.as_bytes(),
{
    let one = seq![chunk];
    assert(chunks_as_bytes(one.drop_first()) =~= Seq::<u8>::empty());
    lemma_chunks_as_bytes_concat(chunks, one);
    assert(chunks.push(chunk) =~= chunks + one);
}

/// Fewer than eight bytes hold no file: reading them fails for want of
/// bytes.
pub proof fn lemma_short_file_is_truncated(bytes: Seq<u8>)
    requires
        bytes.len() < 8,
    ensures
        file_from_bytes(bytes) == Err::<Seq<ChunkView>, ParseError>(
            ParseError { kind: Error::TruncatedFile, offset: 0 },
        ),
{
}

/// Eight bytes or more that do not begin with the signature are no PNG
/// file, whatever follows.
pub proof fn lemma_wrong_signature_is_refused(bytes: Seq<u8>)
    requires
        bytes.len() >= 8,
        bytes.subrange(0, 8) != SIGNATURE@,
    ensures
        file_from_bytes(bytes) == Err::<Seq<ChunkView>, ParseError>(
            ParseError { kind: Error::BadSignature, offset: 0 },
        ),
{
}

/// Chunks written behind any bytes are read back from there as they were.
proof fn lemma_chunks_from_written(before: Seq<u8>, chunks: Seq<ChunkView>)
    requires
        all_wf(chunks),
    ensures
        chunks_from(before + chunks_as_bytes(chunks), before.len() as int) == Ok::<
            Seq<ChunkView>,
            ParseError,
        >(chunks),
    decreases chunks.len(),
{
    let bytes = before + chunks_as_bytes(chunks);
    let at = before.len() as int;
    if chunks.len() == 0 {
        assert(chunks =~= Seq::<ChunkView>::empty());
    } else {
        let first = chunks[0];
        let others = chunks.drop_first();
        lemma_from_bytes_of_as_bytes(first);
        let rest = bytes.subrange(at, bytes.len() as int);
        assert(rest.subrange(0, 4) =~= first.as_bytes().subrange(0, 4));
        assert(record_at(bytes, at) == first.as_bytes());
        lemma_chunks_from_written(before + first.as_bytes(), others);
        assert(before + first.as_bytes() + chunks_as_bytes(others) =~= bytes);
        assert(seq![first] + others =~= chunks);
    }
}

/// Reading a file that was written gives its chunks back, in their order.
pub proof fn lemma_file_from_bytes_of_as_bytes(chunks: Seq<ChunkView>)
    requires
        all_wf(chunks),
    ensures
        file_from_bytes(file_as_bytes(chunks)) == Ok::<Seq<ChunkView>, ParseError>(chunks),
{
    let bytes = file_as_bytes(chunks);
    assert(bytes.subrange(0, 8) =~= SIGNATURE@);
    lemma_chunks_from_written(SIGNATURE@, chunks);
}

/// Chunks that were read from some offset on are well-formed, and written
/// one after the other they are the bytes from that offset on.
proof fn lemma_chunks_from_read(bytes: Seq<u8>, at: int)
    requires
        0 <= at <= bytes.len(),
        chunks_from(bytes, at) is Ok,
    ensures
        all_wf(chunks_from(bytes, at).unwrap()),
        chunks_as_bytes(chunks_from(bytes, at).unwrap()) == bytes.subrange(
            at,
            bytes.len() as int,
        ),
    decreases bytes.len() - at,
{
    let chunks = chunks_from(bytes, at).unwrap();
    if at < bytes.len() {
        let record = record_at(bytes, at);
        let first = ChunkView::from_bytes(record).unwrap();
        let next = at + FRAME + first.data.len();
        lemma_as_bytes_of_from_bytes(record);
        lemma_chunks_from_read(bytes, next);
        let others = chunks_from(bytes, next).unwrap();
        assert(chunks.drop_first() =~= others);
    }
}

/// Writing a file that was read gives the bytes it was read from, and
/// whatever is read is well-formed.
pub proof fn lemma_file_as_bytes_of_from_bytes(bytes: Seq<u8>)
    requires
        file_from_bytes(bytes) is Ok,
    ensures
        all_wf(file_from_bytes(bytes).unwrap()),
        file_as_bytes(file_from_bytes(bytes).unwrap()) == bytes,
{
    lemma_chunks_from_read(bytes, 8);
}

} // verus!
