use vstd::prelude::*;

verus! {

/// Every way in which building, decoding or editing can fail.
#[derive(Debug, Clone, Copy, PartialEq, Eq, Structural)]
pub enum ChunkError {
    /// A type code held a byte, or a string held a character, that is not an ASCII letter,
    /// or the string was not four characters long.
    InvalidTypeCode,
    /// The input ended in the middle of a record.
    TruncatedInput,
    /// The checksum stored in a record disagrees with the one computed over it.
    ChecksumMismatch,
    /// The buffer does not start with the container's signature.
    BadSignature,
    /// Bytes remain after the record that was asked for.
    TrailingData,
    /// No chunk of the requested type is present.
    NotFound,
    /// The payload is not valid UTF-8.
    NotUtf8,
}

} // verus!
