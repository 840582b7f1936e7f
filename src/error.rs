use vstd::prelude::*;

verus! {

/// The ways in which reading or editing a container can fail.
#[derive(Debug, Clone, Copy, PartialEq, Eq, Structural)]
pub enum FormatError {
    /// The buffer cannot hold even an empty chunk.
    TooShort,
    /// The declared payload length runs past the end of the buffer.
    Truncated,
    /// The stored checksum disagrees with the one computed over type and payload.
    CrcMismatch,
    /// The buffer does not start with the container signature.
    BadSignature,
    /// A readable type code is not exactly four ASCII letters.
    InvalidTypeCode,
    /// Bytes that were to be read as text are not valid UTF-8.
    InvalidUtf8,
    /// No chunk of the requested type is present.
    ChunkNotFound,
}

} // verus!
