//! The error surface of the index core: corruption detected by the codec
//! layer, illegal arguments rejected at write time, and operations attempted
//! on a closed writer.

use vstd::prelude::*;

verus! {

/// Why a codec-framed file was judged corrupt. Each variant carries the
/// values that the check compared, so a caller can report
/// remaining-versus-expected byte counts and the like.
#[derive(Debug, Clone, Copy, PartialEq, Eq)]
#[allow(inconsistent_fields)]
pub enum CorruptionKind {
    /// The leading four bytes are not the codec magic.
    MagicMismatch { actual: i32 },
    /// The codec name stored in the header is not the expected one.
    CodecMismatch,
    /// The stored format version lies outside the supported range.
    VersionMismatch { actual: i32, min: i32, max: i32 },
    /// The stored segment id is not the expected one (wrong file).
    IdMismatch,
    /// The stored suffix is not the expected one.
    SuffixMismatch,
    /// Fewer bytes remain before end-of-file than a footer needs.
    Truncated { remaining: i64, expected: i64 },
    /// More bytes remain before end-of-file than a footer needs.
    Extended { remaining: i64, expected: i64 },
    /// The trailing four-byte magic is not the footer magic.
    FooterMagicMismatch { actual: i32 },
    /// The footer names a checksum algorithm other than the only defined one.
    UnknownAlgorithmId { id: i32 },
    /// The stored checksum has its high 32 bits set.
    ChecksumHighBits { value: i64 },
    /// The stored checksum does not match the computed one.
    ChecksumMismatch { expected: i64, actual: i64 },
    /// A read ran past the end of the input.
    UnexpectedEof,
    /// A variable-length integer did not fit its declared width.
    MalformedVInt,
}

/// Which argument a write-side function rejected.
#[derive(Debug, Clone, Copy, PartialEq, Eq)]
pub enum ArgumentKind {
    /// Codec names must be shorter than 128 bytes.
    CodecNameTooLong { len: usize },
    /// Suffixes must be shorter than 256 bytes.
    SuffixTooLong { len: usize },
    /// Segment ids must be exactly 16 bytes.
    InvalidId { len: usize },
}

/// A failure of the index core.
#[derive(Debug, Clone, Copy, PartialEq, Eq)]
pub enum IndexError {
    /// A codec file failed verification; fatal for the affected segment.
    CorruptIndex(CorruptionKind),
    /// A caller-supplied value was rejected before anything was written.
    IllegalArgument(ArgumentKind),
    /// An operation was attempted after `close()`.
    AlreadyClosed,
}

} // verus!
