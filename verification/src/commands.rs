//! The four commands, from the bytes of a file to the bytes or the text that
//! come of it. Reading and writing files is left to the caller.

use vstd::prelude::*;
use vstd::slice::slice_to_vec;
use vstd::utf8::*;
use crate::args::Cmd;
use crate::chunk::{Chunk, ChunkView, MAX_PAYLOAD};
use crate::chunk_type::{is_type_code, is_type_text, ChunkType};
use crate::error::{Error, ParseError};
use crate::png::{
    file_as_bytes,
    file_from_bytes,
    first_of_type,
    has_type,
    inserted,
    is_first_of_type,
    lemma_file_as_bytes_of_from_bytes,
    lemma_file_from_bytes_of_as_bytes,
    lemma_first_of_type_exists,
    listing,
    none_of_type,
    place_of_insertion,
    Png,
    TERMINATOR,
};
use crate::text::{ascii_text, lemma_ascii_is_utf8};

verus! {

/// Where `encode` and `remove` write when no other path is given.
pub const DEFAULT_OUTPUT: &'static str = "./test.png";

/// Why a command failed.
#[derive(Clone, Copy, Debug, PartialEq, Eq, Structural)]
pub enum CommandError {
    /// The file could not be read as PNG.
    File(ParseError),
    /// The file was read, and what was to be done with it failed.
    Chunk(Error),
}

/// The chunk that `encode` adds: the given type code around the UTF-8
/// encoding of the message.
pub open spec fn message_chunk(code: Seq<u8>, message: Seq<char>) -> ChunkView {
    ChunkView { chunk_type: code, data: encode_utf8(message) }
}

/// What `encode` makes of a file: the file with a chunk for the message
/// added, before a closing `IEND` chunk if there is one.
pub open spec fn encoded(file: Seq<u8>, code: Seq<u8>, message: Seq<char>) -> Result<
    Seq<u8>,
    CommandError,
> {
    match file_from_bytes(file) {
        Err(e) => Err(CommandError::File(e)),
        Ok(chunks) => if encode_utf8(message).len() > MAX_PAYLOAD {
            Err(CommandError::Chunk(Error::PayloadTooLarge))
        } else {
            Ok(file_as_bytes(inserted(chunks, message_chunk(code, message), TERMINATOR@)))
        },
    }
}

/// What `decode` finds in a file: the text in the first chunk with the type
/// code `code`.
pub open spec fn decoded(file: Seq<u8>, code: Seq<u8>) -> Result<Seq<char>, CommandError> {
    match file_from_bytes(file) {
        Err(e) => Err(CommandError::File(e)),
        Ok(chunks) => if none_of_type(chunks, ascii_text(code)) {
            Err(CommandError::Chunk(Error::ChunkNotFound))
        } else {
            let data = chunks[first_of_type(chunks, ascii_text(code))].data;
            if valid_utf8(data) {
                Ok(decode_utf8(data))
            } else {
                Err(CommandError::Chunk(Error::InvalidUtf8))
            }
        },
    }
}

/// What `remove` makes of a file: the file without its first chunk with the
/// type code `code`.
pub open spec fn removed(file: Seq<u8>, code: Seq<u8>) -> Result<Seq<u8>, CommandError> {
    match file_from_bytes(file) {
        Err(e) => Err(CommandError::File(e)),
        Ok(chunks) => if none_of_type(chunks, ascii_text(code)) {
            Err(CommandError::Chunk(Error::ChunkNotFound))
        } else {
            Ok(file_as_bytes(chunks.remove(first_of_type(chunks, ascii_text(code)))))
        },
    }
}

/// What `print` shows of a file: the listing of its chunks.
pub open spec fn printed(file: Seq<u8>) -> Result<Seq<char>, CommandError> {
    match file_from_bytes(file) {
        Err(e) => Err(CommandError::File(e)),
        Ok(chunks) => Ok(listing(chunks)),
    }
}

/// The chunk with the type code that `chunk_type` spells and the UTF-8
/// encoding of `data` as its payload.
pub fn chunk_from_strings(chunk_type: &str, data: &str) -> (r: Result<Chunk, Error>)
    ensures
        match r {
            Ok(chunk) => {
                &&& is_type_text(chunk_type@)
                &&& encode_utf8(data@).len() <= MAX_PAYLOAD
                &&& chunk@ == message_chunk(encode_utf8(chunk_type@), data@)
                &&& chunk@.wf()
            },
            Err(e) => if is_type_text(chunk_type@) {
                e == Error::PayloadTooLarge && encode_utf8(data@).len() > MAX_PAYLOAD
            } else {
                e == Error::InvalidChunkType
            },
        },
{
    let chunk_type = match ChunkType::try_from(chunk_type) {
        Ok(t) => t,
        Err(e) => {
            return Err(e);
        },
    };
    let data = slice_to_vec(data.as_bytes());
    Chunk::new(chunk_type, data)
}

/// Reads `file` as PNG.
fn read_png(file: &[u8]) -> (r: Result<Png, CommandError>)
    ensures
        match r {
            Ok(png) => file_from_bytes(file@) == Ok::<Seq<ChunkView>, ParseError>(png@),
            Err(CommandError::File(e)) => file_from_bytes(file@) == Err::<
                Seq<ChunkView>,
                ParseError,
            >(e),
            Err(CommandError::Chunk(_)) => false,
        },
{
    match Png::try_from(file) {
        Ok(png) => Ok(png),
        Err(e) => Err(CommandError::File(e)),
    }
}

/// Adds a chunk of type `chunk_type` that holds `message` to the PNG file
/// `file`, and returns the new file.
pub fn encode(file: &[u8], chunk_type: &ChunkType, message: &str) -> (r: Result<
    Vec<u8>,
    CommandError,
>)
    ensures
        match r {
            Ok(out) => encoded(file@, chunk_type@, message@) == Ok::<Seq<u8>, CommandError>(out@),
            Err(e) => encoded(file@, chunk_type@, message@) == Err::<Seq<u8>, CommandError>(e),
        },
{
    let mut png = match read_png(file) {
        Ok(png) => png,
        Err(e) => {
            return Err(e);
        },
    };
    let code = chunk_type.to_string();
    proof {
        use_type_invariant(chunk_type);
        chunk_type.lemma_well_formed();
        lemma_ascii_is_utf8(chunk_type@);
    }
    let chunk = match chunk_from_strings(code.as_str(), message) {
        Ok(chunk) => chunk,
        Err(e) => {
            return Err(CommandError::Chunk(e));
        },
    };
    png.insert_chunk(chunk);
    Ok(png.as_bytes())
}

/// The text that the PNG file `file` holds in its first chunk of type
/// `chunk_type`.
pub fn decode(file: &[u8], chunk_type: &ChunkType) -> (r: Result<String, CommandError>)
    ensures
        match r {
            Ok(text) => decoded(file@, chunk_type@) == Ok::<Seq<char>, CommandError>(text@),
            Err(e) => decoded(file@, chunk_type@) == Err::<Seq<char>, CommandError>(e),
        },
{
    let png = match read_png(file) {
        Ok(png) => png,
        Err(e) => {
            return Err(e);
        },
    };
    let code = chunk_type.to_string();
    let chunk = match png.chunk_by_type(code.as_str()) {
        Some(chunk) => chunk,
        None => {
            return Err(CommandError::Chunk(Error::ChunkNotFound));
        },
    };
    match chunk.data_as_string() {
        Ok(text) => Ok(text),
        Err(e) => Err(CommandError::Chunk(e)),
    }
}

/// The PNG file `file` without its first chunk of type `chunk_type`.
pub fn remove(file: &[u8], chunk_type: &ChunkType) -> (r: Result<Vec<u8>, CommandError>)
    ensures
        match r {
            Ok(out) => removed(file@, chunk_type@) == Ok::<Seq<u8>, CommandError>(out@),
            Err(e) => removed(file@, chunk_type@) == Err::<Seq<u8>, CommandError>(e),
        },
{
    let mut png = match read_png(file) {
        Ok(png) => png,
        Err(e) => {
            return Err(e);
        },
    };
    let code = chunk_type.to_string();
    match png.remove_chunk(code.as_str()) {
        Ok(_) => Ok(png.as_bytes()),
        Err(e) => Err(CommandError::Chunk(e)),
    }
}

/// The listing of the chunks of the PNG file `file`.
pub fn print(file: &[u8]) -> (r: Result<String, CommandError>)
    ensures
        match r {
            Ok(text) => printed(file@) == Ok::<Seq<char>, CommandError>(text@),
            Err(e) => printed(file@) == Err::<Seq<char>, CommandError>(e),
        },
{
    match read_png(file) {
        Ok(png) => Ok(png.to_string()),
        Err(e) => Err(e),
    }
}

/// What is to be done once a command has run.
#[derive(Debug)]
pub enum Outcome {
    /// Write the bytes to the file at the path.
    Write { path: String, bytes: Vec<u8> },
    /// Show the text to the operator.
    Show { text: String },
}

/// What an `Outcome` holds.
pub enum OutcomeView {
    Write { path: Seq<char>, bytes: Seq<u8> },
    Show { text: Seq<char> },
}

impl View for Outcome {
    type V = OutcomeView;

    open spec fn view(&self) -> OutcomeView {
        match self {
            Outcome::Write { path, bytes } => OutcomeView::Write { path: path@, bytes: bytes@ },
            Outcome::Show { text } => OutcomeView::Show { text: text@ },
        }
    }
}

/// The outcome that writes `bytes`, if there are any to write.
pub open spec fn written(path: Seq<char>, bytes: Result<Seq<u8>, CommandError>) -> Result<
    OutcomeView,
    CommandError,
> {
    match bytes {
        Ok(bytes) => Ok(OutcomeView::Write { path, bytes }),
        Err(e) => Err(e),
    }
}

/// The outcome that shows `text`, if there is any to show.
pub open spec fn shown(text: Result<Seq<char>, CommandError>) -> Result<OutcomeView, CommandError> {
    match text {
        Ok(text) => Ok(OutcomeView::Show { text }),
        Err(e) => Err(e),
    }
}

/// What comes of the command `cmd` when its file holds `input`. `encode`
/// writes to its output path, or to `DEFAULT_OUTPUT` if it has none;
/// `remove` writes to `DEFAULT_OUTPUT`; `decode` and `print` show text.
pub open spec fn outcome(cmd: Cmd, input: Seq<u8>) -> Result<OutcomeView, CommandError> {
    match cmd {
        Cmd::Encode { file, chunk_type, message, output } => written(
            match output {
                Some(path) => path@,
                None => DEFAULT_OUTPUT@,
            },
            encoded(input, chunk_type@, message@),
        ),
        Cmd::Decode { file, chunk_type } => shown(decoded(input, chunk_type@)),
        Cmd::Remove { file, chunk_type } => written(DEFAULT_OUTPUT@, removed(input, chunk_type@)),
        Cmd::Print { file } => shown(printed(input)),
    }
}

/// Runs `cmd` on `input`, the bytes of the file that the command names.
/// Nothing is read or written here: the outcome says what remains to be
/// done.
pub fn run(cmd: &Cmd, input: &[u8]) -> (r: Result<Outcome, CommandError>)
    ensures
        match r {
            Ok(done) => outcome(*cmd, input@) == Ok::<OutcomeView, CommandError>(done@),
            Err(e) => outcome(*cmd, input@) == Err::<OutcomeView, CommandError>(e),
        },
{
    match cmd {
        Cmd::Encode { chunk_type, message, output, .. } => {
            let bytes = match encode(input, chunk_type, message.as_str()) {
                Ok(bytes) => bytes,
                Err(e) => {
                    return Err(e);
                },
            };
            let path = match output {
                Some(path) => path.clone(),
                None => DEFAULT_OUTPUT.to_owned(),
            };
            Ok(Outcome::Write { path, bytes })
        },
        Cmd::Decode { chunk_type, .. } => {
            match decode(input, chunk_type) {
                Ok(text) => Ok(Outcome::Show { text }),
                Err(e) => Err(e),
            }
        },
        Cmd::Remove { chunk_type, .. } => {
            match remove(input, chunk_type) {
                Ok(bytes) => Ok(Outcome::Write { path: DEFAULT_OUTPUT.to_owned(), bytes }),
                Err(e) => Err(e),
            }
        },
        Cmd::Print { .. } => {
            match print(input) {
                Ok(text) => Ok(Outcome::Show { text }),
                Err(e) => Err(e),
            }
        },
    }
}

/// What was hidden is found again: after `encode` has added a message under
/// a type code, `decode` with that type code gives the message.
///
/// `decode` reads the first chunk of the type. So where the file held such a
/// chunk already, before the place of the new one, that chunk must hold the
/// same message; a file without a chunk of the type always qualifies.
pub proof fn lemma_decode_after_encode(file: Seq<u8>, code: Seq<u8>, message: Seq<char>)
    requires
        is_type_code(code),
        encode_utf8(message).len() <= MAX_PAYLOAD,
        file_from_bytes(file) is Ok,
        ({
            let chunks = file_from_bytes(file).unwrap();
            let place = place_of_insertion(chunks, TERMINATOR@);
            forall|at: int|
                is_first_of_type(chunks.take(place), ascii_text(code), at) ==> chunks[at].data
                    == encode_utf8(message)
        }),
    ensures
        encoded(file, code, message) is Ok,
        decoded(encoded(file, code, message).unwrap(), code) == Ok::<Seq<char>, CommandError>(
            message,
        ),
{
    let text = ascii_text(code);
    let chunks = file_from_bytes(file).unwrap();
    let added = message_chunk(code, message);
    let place = place_of_insertion(chunks, TERMINATOR@);
    let after = inserted(chunks, added, TERMINATOR@);
    lemma_file_as_bytes_of_from_bytes(file);
    lemma_file_from_bytes_of_as_bytes(after);
    lemma_first_of_type_exists(after, text, place);
    let first = first_of_type(after, text);
    if first < place {
        assert(is_first_of_type(chunks.take(place), text, first)) by {
            assert forall|j: int| 0 <= j < first implies !has_type(
                #[trigger] chunks.take(place)[j],
                text,
            ) by {
                assert(chunks.take(place)[j] == after[j]);
            }
        }
    }
    encode_utf8_valid_utf8(message);
    encode_utf8_decode_utf8(message);
}

/// What was added can be taken out again: where a file holds no chunk of a
/// type, `encode` with that type followed by `remove` with it gives the file
/// back, byte for byte. No chunk of the type is left, and the others stand
/// as they stood.
pub proof fn lemma_remove_after_encode(file: Seq<u8>, code: Seq<u8>, message: Seq<char>)
    requires
        is_type_code(code),
        encode_utf8(message).len() <= MAX_PAYLOAD,
        file_from_bytes(file) is Ok,
        none_of_type(file_from_bytes(file).unwrap(), ascii_text(code)),
    ensures
        encoded(file, code, message) is Ok,
        removed(encoded(file, code, message).unwrap(), code) == Ok::<Seq<u8>, CommandError>(file),
        decoded(file, code) == Err::<Seq<char>, CommandError>(
            CommandError::Chunk(Error::ChunkNotFound),
        ),
{
    let text = ascii_text(code);
    let chunks = file_from_bytes(file).unwrap();
    let added = message_chunk(code, message);
    let place = place_of_insertion(chunks, TERMINATOR@);
    let after = inserted(chunks, added, TERMINATOR@);
    lemma_file_as_bytes_of_from_bytes(file);
    lemma_file_from_bytes_of_as_bytes(after);
    assert(is_first_of_type(after, text, place));
    assert(after.remove(place) =~= chunks);
}

} // verus!
