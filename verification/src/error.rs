//! The failures that the codec reports.

use vstd::prelude::*;

verus! {

/// Why a value could not be built, read or found.
#[derive(Clone, Copy, Debug, PartialEq, Eq, Structural)]
pub enum Error {
    /// A type code is not made of exactly four ASCII letters.
    InvalidChunkType,
    /// Fewer than twelve bytes were offered where a chunk was expected.
    TruncatedChunk,
    /// Fewer than eight bytes were offered where a file was expected.
    TruncatedFile,
    /// The stored checksum differs from the checksum of the type code and payload.
    CrcMismatch,
    /// The declared payload length disagrees with the number of bytes present.
    LengthMismatch,
    /// The buffer does not begin with the PNG signature.
    BadSignature,
    /// No chunk of the file carries the type code that was asked for.
    ChunkNotFound,
    /// A payload is not valid UTF-8 text.
    InvalidUtf8,
    /// A payload is longer than the length field of a chunk may declare.
    PayloadTooLarge,
}

/// A failure met while reading a file, with the offset in the file of the
/// first byte of what could not be read: 0 for the signature, else the start
/// of a chunk.
#[derive(Clone, Copy, Debug, PartialEq, Eq, Structural)]
pub struct ParseError {
    pub kind: Error,
    pub offset: usize,
}

} // verus!
