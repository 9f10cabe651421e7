//! Wire markers of the UBJSON format.
//!
//! Every value on the wire starts with one marker byte. [`UbjsonType`] names
//! the eighteen markers of the format and classifies them; the two markers
//! that introduce an optimized container header are plain constants, in
//! [`optimization`].

use vstd::prelude::*;

use crate::error::UbjsonError;

pub mod optimization;

pub use optimization::{COUNT_MARKER, TYPE_MARKER};

verus! {

/// The marker that starts a value on the wire.
#[derive(Debug, Clone, Copy, PartialEq, Eq, Hash, Structural)]
pub enum UbjsonType {
    /// Null value, `Z`.
    Null,
    /// Padding without a value, `N`.
    NoOp,
    /// Boolean true, `T`.
    True,
    /// Boolean false, `F`.
    False,
    /// Signed 8-bit integer, `i`.
    Int8,
    /// Unsigned 8-bit integer, `U`.
    UInt8,
    /// Signed 16-bit integer, `I`.
    Int16,
    /// Signed 32-bit integer, `l`.
    Int32,
    /// Signed 64-bit integer, `L`.
    Int64,
    /// 32-bit floating point number, `d`.
    Float32,
    /// 64-bit floating point number, `D`.
    Float64,
    /// High-precision number carried as text, `H`.
    HighPrecision,
    /// One Unicode scalar, `C`.
    Char,
    /// UTF-8 text, `S`.
    String,
    /// Start of an array, `[`.
    ArrayStart,
    /// End of an array, `]`.
    ArrayEnd,
    /// Start of an object, `{`.
    ObjectStart,
    /// End of an object, `}`.
    ObjectEnd,
}

impl UbjsonType {
    /// The marker's byte on the wire.
    pub open spec fn byte(self) -> u8 {
        match self {
            UbjsonType::Null => 0x5A,
            UbjsonType::NoOp => 0x4E,
            UbjsonType::True => 0x54,
            UbjsonType::False => 0x46,
            UbjsonType::Int8 => 0x69,
            UbjsonType::UInt8 => 0x55,
            UbjsonType::Int16 => 0x49,
            UbjsonType::Int32 => 0x6C,
            UbjsonType::Int64 => 0x4C,
            UbjsonType::Float32 => 0x64,
            UbjsonType::Float64 => 0x44,
            UbjsonType::HighPrecision => 0x48,
            UbjsonType::Char => 0x43,
            UbjsonType::String => 0x53,
            UbjsonType::ArrayStart => 0x5B,
            UbjsonType::ArrayEnd => 0x5D,
            UbjsonType::ObjectStart => 0x7B,
            UbjsonType::ObjectEnd => 0x7D,
        }
    }

    /// The marker that a byte stands for, if it stands for one.
    pub open spec fn marker_of(byte: u8) -> Option<UbjsonType> {
        if byte == 0x5A {
            Some(UbjsonType::Null)
        } else if byte == 0x4E {
            Some(UbjsonType::NoOp)
        } else if byte == 0x54 {
            Some(UbjsonType::True)
        } else if byte == 0x46 {
            Some(UbjsonType::False)
        } else if byte == 0x69 {
            Some(UbjsonType::Int8)
        } else if byte == 0x55 {
            Some(UbjsonType::UInt8)
        } else if byte == 0x49 {
            Some(UbjsonType::Int16)
        } else if byte == 0x6C {
            Some(UbjsonType::Int32)
        } else if byte == 0x4C {
            Some(UbjsonType::Int64)
        } else if byte == 0x64 {
            Some(UbjsonType::Float32)
        } else if byte == 0x44 {
            Some(UbjsonType::Float64)
        } else if byte == 0x48 {
            Some(UbjsonType::HighPrecision)
        } else if byte == 0x43 {
            Some(UbjsonType::Char)
        } else if byte == 0x53 {
            Some(UbjsonType::String)
        } else if byte == 0x5B {
            Some(UbjsonType::ArrayStart)
        } else if byte == 0x5D {
            Some(UbjsonType::ArrayEnd)
        } else if byte == 0x7B {
            Some(UbjsonType::ObjectStart)
        } else if byte == 0x7D {
            Some(UbjsonType::ObjectEnd)
        } else {
            None
        }
    }

    /// Markers of values that are not containers.
    pub open spec fn primitive(self) -> bool {
        !(self is NoOp || self is ArrayStart || self is ArrayEnd || self is ObjectStart
            || self is ObjectEnd)
    }

    /// Markers of numbers: the integers, the floats and high-precision text.
    pub open spec fn numeric(self) -> bool {
        self.integer() || self.float() || self is HighPrecision
    }

    /// Markers of the five fixed-width integers.
    pub open spec fn integer(self) -> bool {
        self is Int8 || self is UInt8 || self is Int16 || self is Int32 || self is Int64
    }

    /// Markers of the two floating point widths.
    pub open spec fn float(self) -> bool {
        self is Float32 || self is Float64
    }

    /// Reads a byte as a marker. A byte that is no marker is reported as
    /// `InvalidTypeMarker` together with the byte.
    pub fn from_byte(byte: u8) -> (result: Result<UbjsonType, UbjsonError>)
        ensures
            match result {
                Ok(marker) => Self::marker_of(byte) == Some(marker),
                Err(e) => Self::marker_of(byte) is None && e == UbjsonError::InvalidTypeMarker(
                    byte,
                ),
            },
    {
        match byte {
            0x5A => Ok(UbjsonType::Null),
            0x4E => Ok(UbjsonType::NoOp),
            0x54 => Ok(UbjsonType::True),
            0x46 => Ok(UbjsonType::False),
            0x69 => Ok(UbjsonType::Int8),
            0x55 => Ok(UbjsonType::UInt8),
            0x49 => Ok(UbjsonType::Int16),
            0x6C => Ok(UbjsonType::Int32),
            0x4C => Ok(UbjsonType::Int64),
            0x64 => Ok(UbjsonType::Float32),
            0x44 => Ok(UbjsonType::Float64),
            0x48 => Ok(UbjsonType::HighPrecision),
            0x43 => Ok(UbjsonType::Char),
            0x53 => Ok(UbjsonType::String),
            0x5B => Ok(UbjsonType::ArrayStart),
            0x5D => Ok(UbjsonType::ArrayEnd),
            0x7B => Ok(UbjsonType::ObjectStart),
            0x7D => Ok(UbjsonType::ObjectEnd),
            _ => Err(UbjsonError::InvalidTypeMarker(byte)),
        }
    }

    /// The marker's byte on the wire.
    pub fn to_byte(self) -> (byte: u8)
        ensures
            byte == self.byte(),
            Self::marker_of(byte) == Some(self),
    {
        match self {
            UbjsonType::Null => 0x5A,
            UbjsonType::NoOp => 0x4E,
            UbjsonType::True => 0x54,
            UbjsonType::False => 0x46,
            UbjsonType::Int8 => 0x69,
            UbjsonType::UInt8 => 0x55,
            UbjsonType::Int16 => 0x49,
            UbjsonType::Int32 => 0x6C,
            UbjsonType::Int64 => 0x4C,
            UbjsonType::Float32 => 0x64,
            UbjsonType::Float64 => 0x44,
            UbjsonType::HighPrecision => 0x48,
            UbjsonType::Char => 0x43,
            UbjsonType::String => 0x53,
            UbjsonType::ArrayStart => 0x5B,
            UbjsonType::ArrayEnd => 0x5D,
            UbjsonType::ObjectStart => 0x7B,
            UbjsonType::ObjectEnd => 0x7D,
        }
    }

    /// Whether the marker starts a value that is not a container.
    pub fn is_primitive(self) -> (result: bool)
        ensures
            result == self.primitive(),
    {
        match self {
            UbjsonType::NoOp
            | UbjsonType::ArrayStart
            | UbjsonType::ArrayEnd
            | UbjsonType::ObjectStart
            | UbjsonType::ObjectEnd => false,
            _ => true,
        }
    }

    /// Whether the marker opens an array or an object.
    pub fn is_container_start(self) -> (result: bool)
        ensures
            result == (self is ArrayStart || self is ObjectStart),
    {
        match self {
            UbjsonType::ArrayStart | UbjsonType::ObjectStart => true,
            _ => false,
        }
    }

    /// Whether the marker closes an array or an object.
    pub fn is_container_end(self) -> (result: bool)
        ensures
            result == (self is ArrayEnd || self is ObjectEnd),
    {
        match self {
            UbjsonType::ArrayEnd | UbjsonType::ObjectEnd => true,
            _ => false,
        }
    }

    /// Whether the marker starts a number.
    pub fn is_numeric(self) -> (result: bool)
        ensures
            result == self.numeric(),
    {
        match self {
            UbjsonType::Int8
            | UbjsonType::UInt8
            | UbjsonType::Int16
            | UbjsonType::Int32
            | UbjsonType::Int64
            | UbjsonType::Float32
            | UbjsonType::Float64
            | UbjsonType::HighPrecision => true,
            _ => false,
        }
    }

    /// Whether the marker starts a fixed-width integer.
    pub fn is_integer(self) -> (result: bool)
        ensures
            result == self.integer(),
    {
        match self {
            UbjsonType::Int8
            | UbjsonType::UInt8
            | UbjsonType::Int16
            | UbjsonType::Int32
            | UbjsonType::Int64 => true,
            _ => false,
        }
    }

    /// Whether the marker starts a floating point number.
    pub fn is_float(self) -> (result: bool)
        ensures
            result == self.float(),
    {
        match self {
            UbjsonType::Float32 | UbjsonType::Float64 => true,
            _ => false,
        }
    }

    /// The marker's name in diagnostics.
    pub fn name(self) -> (result: &'static str)
        ensures
            result@ == self.name_text(),
    {
        match self {
            UbjsonType::Null => "null",
            UbjsonType::NoOp => "no-op",
            UbjsonType::True => "true",
            UbjsonType::False => "false",
            UbjsonType::Int8 => "int8",
            UbjsonType::UInt8 => "uint8",
            UbjsonType::Int16 => "int16",
            UbjsonType::Int32 => "int32",
            UbjsonType::Int64 => "int64",
            UbjsonType::Float32 => "float32",
            UbjsonType::Float64 => "float64",
            UbjsonType::HighPrecision => "high-precision",
            UbjsonType::Char => "char",
            UbjsonType::String => "string",
            UbjsonType::ArrayStart => "array-start",
            UbjsonType::ArrayEnd => "array-end",
            UbjsonType::ObjectStart => "object-start",
            UbjsonType::ObjectEnd => "object-end",
        }
    }

    /// The text that [`UbjsonType::name`] returns.
    pub open spec fn name_text(self) -> Seq<char> {
        match self {
            UbjsonType::Null => "null"@,
            UbjsonType::NoOp => "no-op"@,
            UbjsonType::True => "true"@,
            UbjsonType::False => "false"@,
            UbjsonType::Int8 => "int8"@,
            UbjsonType::UInt8 => "uint8"@,
            UbjsonType::Int16 => "int16"@,
            UbjsonType::Int32 => "int32"@,
            UbjsonType::Int64 => "int64"@,
            UbjsonType::Float32 => "float32"@,
            UbjsonType::Float64 => "float64"@,
            UbjsonType::HighPrecision => "high-precision"@,
            UbjsonType::Char => "char"@,
            UbjsonType::String => "string"@,
            UbjsonType::ArrayStart => "array-start"@,
            UbjsonType::ArrayEnd => "array-end"@,
            UbjsonType::ObjectStart => "object-start"@,
            UbjsonType::ObjectEnd => "object-end"@,
        }
    }

    /// The marker's name as an owned string.
    pub fn to_string(&self) -> (result: String)
        ensures
            result@ == self.name_text(),
    {
        self.name().to_owned()
    }
}

/// A marker survives the trip through its byte, and no two markers share a
/// byte.
pub proof fn lemma_marker_byte_round_trip(marker: UbjsonType)
    ensures
        UbjsonType::marker_of(marker.byte()) == Some(marker),
{
}

/// A byte that stands for a marker is that marker's byte.
pub proof fn lemma_byte_marker_round_trip(byte: u8)
    requires
        UbjsonType::marker_of(byte) is Some,
    ensures
        UbjsonType::marker_of(byte)->0.byte() == byte,
{
}

} // verus!
