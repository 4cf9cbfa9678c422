use vstd::prelude::*;

verus! {

/// Every way in which an operation of this library can fail.
#[derive(Debug, PartialEq, Eq, Structural, Clone, Copy)]
pub enum PngError {
    /// The buffer does not begin with the PNG signature.
    InvalidSignature,
    /// A type code holds a byte or character that is not an ASCII letter.
    InvalidTypeCode,
    /// Fewer bytes are left than a field declares.
    TruncatedBuffer,
    /// The stored checksum differs from the one computed over type and data.
    ChecksumMismatch,
    /// The chunk's data, read as text, is not valid UTF-8.
    InvalidUtf8,
    /// No chunk of the requested type is present.
    ChunkNotFound,
}

} // verus!
