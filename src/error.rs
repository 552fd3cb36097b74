use vstd::prelude::*;

verus! {

/// The ways in which decoding, lookup or removal can fail.
#[derive(Clone, Copy, Debug, PartialEq, Eq, Structural)]
pub enum PngError {
    /// A chunk tag is not four ASCII letters, or its reserved bit is not valid.
    InvalidChunkType,
    /// A chunk declares more bytes than the buffer still holds.
    TruncatedChunk,
    /// A chunk's stored checksum disagrees with the one computed over its tag and data.
    CrcMismatch,
    /// The buffer does not start with the eight-byte PNG signature.
    BadSignature,
    /// Chunk data asked for as text is not valid UTF-8.
    InvalidUtf8,
    /// No chunk has the requested type.
    ChunkNotFound,
}

} // verus!
