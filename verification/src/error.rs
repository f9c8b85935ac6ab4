//! The ways in which a pack stream can be refused.

use vstd::prelude::*;

verus! {

/// A failure of the byte source itself, or of the compressed data read from it.
#[derive(Clone, Copy, Debug, PartialEq, Eq, Structural)]
pub enum IoFault {
    /// The bytes ended where more were owed.
    UnexpectedEof,
    /// The bytes are no valid compressed stream.
    InvalidInput,
}

/// A stream whose bytes were all read but break the format.
#[derive(Clone, Copy, Debug, PartialEq, Eq, Structural)]
pub enum FormatError {
    /// The first four bytes are not the magic literal.
    BadMagic,
    /// The version field holds something other than the supported version.
    UnsupportedVersion { found: u32 },
    /// The three type bits of an object header name no object type.
    UnknownObjectType { tag: u8 },
    /// A payload does not account for the size its header declares.
    SizeMismatch { declared: u64, actual: u64 },
    /// Bytes follow the trailer.
    TrailingData { remaining: usize },
}

/// Every failure is final: nothing is retried and nothing is skipped.
#[derive(Clone, Copy, Debug, PartialEq, Eq, Structural)]
pub enum PackError {
    Format(FormatError),
    Io(IoFault),
}

/// The error of a stream that ends too early.
pub open spec fn eof() -> PackError {
    PackError::Io(IoFault::UnexpectedEof)
}

/// The error that an outcome carries, if it carries one.
pub open spec fn failure<T>(r: Result<T, PackError>) -> Option<PackError> {
    match r {
        Ok(_) => None,
        Err(e) => Some(e),
    }
}

/// The error of a payload that does not account for its declared size.
pub open spec fn size_mismatch(declared: u64, actual: int) -> PackError {
    PackError::Format(FormatError::SizeMismatch { declared, actual: actual as u64 })
}

} // verus!
