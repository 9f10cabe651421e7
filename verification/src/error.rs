//! Failures of encoding and decoding.
//!
//! The first failure aborts the whole operation. Contracts speak of an
//! error's [`ErrorKind`]: the variant and its numeric payload, without the
//! human-readable text some variants carry.

use core::fmt::Display;
use core::str::Utf8Error;
use vstd::prelude::*;
use vstd::string::to_string_from_display_ensures;

verus! {

/// `core::str::Utf8Error`, carried through unopened.
#[verifier::external_type_specification]
#[verifier::external_body]
pub struct ExUtf8Error(Utf8Error);

/// Why the byte source could not deliver.
#[derive(Debug, Clone, Copy, PartialEq, Eq, Structural)]
pub enum IoFailure {
    /// The input ended before the bytes that the format asks for.
    UnexpectedEof,
    /// The byte source failed in another way. Reading from memory never
    /// does; the variant is there for callers that read from elsewhere.
    Other,
}

/// Everything that can go wrong while encoding or decoding.
#[derive(Debug)]
pub enum UbjsonError {
    /// The byte source failed; this includes a premature end of input.
    Io(IoFailure),
    /// The bytes or the value break the structure of the format.
    InvalidFormat(String),
    /// The input ended while a value was being parsed.
    UnexpectedEof,
    /// Text on the wire is not UTF-8.
    InvalidUtf8(Utf8Error),
    /// A container holds more entries than the configured limit.
    SizeLimitExceeded(usize),
    /// Containers nest deeper than the configured limit.
    DepthLimitExceeded(usize),
    /// A kind that is recognized but not allowed where it stands.
    UnsupportedType(String),
    /// A failure reported by a data-binding layer.
    Serde(String),
    /// A byte that is no marker where a marker is expected.
    InvalidTypeMarker(u8),
    /// A container's declared count and its content disagree.
    LengthMismatch { expected: usize, actual: usize },
    /// High-precision text that is no decimal numeral.
    InvalidHighPrecision(String),
    /// A character payload that is not exactly one scalar.
    InvalidChar(String),
}

/// An error without its text: what contracts compare.
#[derive(Debug, Clone, Copy, PartialEq, Eq, Structural)]
pub enum ErrorKind {
    Io,
    InvalidFormat,
    UnexpectedEof,
    InvalidUtf8,
    SizeLimitExceeded(usize),
    DepthLimitExceeded(usize),
    UnsupportedType,
    Serde,
    InvalidTypeMarker(u8),
    LengthMismatch { expected: usize, actual: usize },
    InvalidHighPrecision,
    InvalidChar,
}

impl UbjsonError {
    /// The error's variant and numeric payload.
    pub open spec fn spec_kind(&self) -> ErrorKind {
        match self {
            UbjsonError::Io(_) => ErrorKind::Io,
            UbjsonError::InvalidFormat(_) => ErrorKind::InvalidFormat,
            UbjsonError::UnexpectedEof => ErrorKind::UnexpectedEof,
            UbjsonError::InvalidUtf8(_) => ErrorKind::InvalidUtf8,
            UbjsonError::SizeLimitExceeded(limit) => ErrorKind::SizeLimitExceeded(*limit),
            UbjsonError::DepthLimitExceeded(limit) => ErrorKind::DepthLimitExceeded(*limit),
            UbjsonError::UnsupportedType(_) => ErrorKind::UnsupportedType,
            UbjsonError::Serde(_) => ErrorKind::Serde,
            UbjsonError::InvalidTypeMarker(byte) => ErrorKind::InvalidTypeMarker(*byte),
            UbjsonError::LengthMismatch { expected, actual } => ErrorKind::LengthMismatch {
                expected: *expected,
                actual: *actual,
            },
            UbjsonError::InvalidHighPrecision(_) => ErrorKind::InvalidHighPrecision,
            UbjsonError::InvalidChar(_) => ErrorKind::InvalidChar,
        }
    }

    /// The error's variant and numeric payload.
    #[verifier::when_used_as_spec(spec_kind)]
    pub fn kind(&self) -> (kind: ErrorKind)
        ensures
            kind == self.spec_kind(),
    {
        match self {
            UbjsonError::Io(_) => ErrorKind::Io,
            UbjsonError::InvalidFormat(_) => ErrorKind::InvalidFormat,
            UbjsonError::UnexpectedEof => ErrorKind::UnexpectedEof,
            UbjsonError::InvalidUtf8(_) => ErrorKind::InvalidUtf8,
            UbjsonError::SizeLimitExceeded(limit) => ErrorKind::SizeLimitExceeded(*limit),
            UbjsonError::DepthLimitExceeded(limit) => ErrorKind::DepthLimitExceeded(*limit),
            UbjsonError::UnsupportedType(_) => ErrorKind::UnsupportedType,
            UbjsonError::Serde(_) => ErrorKind::Serde,
            UbjsonError::InvalidTypeMarker(byte) => ErrorKind::InvalidTypeMarker(*byte),
            UbjsonError::LengthMismatch { expected, actual } => ErrorKind::LengthMismatch {
                expected: *expected,
                actual: *actual,
            },
            UbjsonError::InvalidHighPrecision(_) => ErrorKind::InvalidHighPrecision,
            UbjsonError::InvalidChar(_) => ErrorKind::InvalidChar,
        }
    }

    /// An `InvalidFormat` error whose text is `msg` as it displays.
    pub fn invalid_format<T: Display>(msg: T) -> (error: UbjsonError)
        ensures
            error matches UbjsonError::InvalidFormat(text) && to_string_from_display_ensures::<T>(
                &msg,
                text,
            ),
    {
        UbjsonError::InvalidFormat(msg.to_string())
    }

    /// An `UnsupportedType` error whose text is `msg` as it displays.
    pub fn unsupported_type<T: Display>(msg: T) -> (error: UbjsonError)
        ensures
            error matches UbjsonError::UnsupportedType(text) && to_string_from_display_ensures::<T>(
                &msg,
                text,
            ),
    {
        UbjsonError::UnsupportedType(msg.to_string())
    }

    /// A `Serde` error whose text is `msg` as it displays.
    pub fn serde<T: Display>(msg: T) -> (error: UbjsonError)
        ensures
            error matches UbjsonError::Serde(text) && to_string_from_display_ensures::<T>(
                &msg,
                text,
            ),
    {
        UbjsonError::Serde(msg.to_string())
    }
}

} // verus!
