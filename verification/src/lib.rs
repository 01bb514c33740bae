//! Codec for the PNG chunk container format: 4-byte chunk type tags with
//! their property bits, length-prefixed checksummed chunk records, and the
//! signature-led stream of chunks that makes up a whole file.

use vstd::prelude::*;

pub mod bytes;
pub mod chunk;
pub mod chunk_type;
pub mod png;
mod text;

verus! {

/// Every failure the codec can report, one variant per cause.
#[derive(Clone, Copy, Debug, PartialEq, Eq, Structural)]
pub enum PngError {
    /// A chunk type byte is not ASCII alphabetic.
    InvalidTypeBytes,
    /// A chunk type string is not exactly 4 bytes long.
    WrongLength,
    /// A buffer is below the 12-byte minimum for a chunk record.
    TooShort,
    /// A chunk record's stored checksum or length field disagrees with its contents.
    ChecksumMismatch,
    /// A chunk payload is not valid UTF-8.
    NotUtf8,
    /// A buffer does not start with the 8-byte signature.
    BadSignature,
    /// No chunk with the requested type exists.
    ChunkNotFound,
    /// A payload's byte count does not fit in 32 bits.
    PayloadTooLarge,
}

} // verus!
