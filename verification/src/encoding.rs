//! Byte-exact reading and writing of the primitive payloads.
//!
//! Integers travel big-endian in two's complement, lengths as the narrowest
//! integer kind that holds them, text as a length followed by UTF-8 bytes,
//! and a character as the UTF-8 bytes of one scalar.
//!
//! What is read is stated over the whole input and a position in it: a
//! `parse_*` function gives the value together with the position behind it,
//! or the kind of the failure together with the position at which reading
//! stopped. A reader never goes back: after a failure it stands behind the
//! last byte it took, and at the end of the input where that ran out. What
//! is written is stated as the bytes that are appended.

use core::str::Utf8Error;
use vstd::prelude::*;
use vstd::string::StringSliceAdditionalSpecFns;
use vstd::utf8::*;

use crate::error::{ErrorKind, IoFailure, UbjsonError};
use crate::types::UbjsonType;

verus! {

/// `core::str::from_utf8`: succeeds exactly on well-formed UTF-8, and the
/// string it returns then consists of the bytes it was given.
pub assume_specification[ core::str::from_utf8 ](v: &[u8]) -> (result: Result<&str, Utf8Error>)
    ensures
        result is Ok <==> valid_utf8(v@),
        result is Ok ==> result->Ok_0.spec_bytes() == v@,
;

/// A value read at some position, with the position behind it; or why it
/// could not be read, with the position at which reading stopped. Reading
/// stops behind the last byte that was taken; a read that runs out of input
/// takes what is left.
pub type Parsed<T> = Result<(T, int), (ErrorKind, int)>;

/// The number of values that `width` bytes can hold.
pub open spec fn limit(width: nat) -> nat
    decreases width,
{
    if width == 0 {
        1
    } else {
        256 * limit((width - 1) as nat)
    }
}

/// The number that `width` bytes at `pos` spell, most significant byte first.
pub open spec fn be_value(data: Seq<u8>, pos: int, width: nat) -> nat
    decreases width,
{
    if width == 0 {
        0
    } else {
        be_value(data, pos, (width - 1) as nat) * 256 + data[pos + width - 1] as nat
    }
}

/// The `width` low bytes of `value`, most significant byte first.
pub open spec fn be_bytes(value: nat, width: nat) -> Seq<u8>
    decreases width,
{
    if width == 0 {
        Seq::empty()
    } else {
        be_bytes(value / 256, (width - 1) as nat).push((value % 256) as u8)
    }
}

/// Two's complement: the signed reading of an unsigned number of `width`
/// bytes.
pub open spec fn signed(value: nat, width: nat) -> int {
    if 2 * value >= limit(width) {
        value - limit(width)
    } else {
        value as int
    }
}

/// Two's complement: the unsigned number that stands for a signed one in
/// `width` bytes.
pub open spec fn unsigned(value: int, width: nat) -> nat {
    if value < 0 {
        (value + limit(width)) as nat
    } else {
        value as nat
    }
}

/// `data` holds `bytes` from `pos` on.
pub open spec fn holds_at(data: Seq<u8>, pos: int, bytes: Seq<u8>) -> bool {
    &&& 0 <= pos
    &&& pos + bytes.len() <= data.len()
    &&& forall|i: int| 0 <= i < bytes.len() ==> #[trigger] data[pos + i] == bytes[i]
}

/// An unsigned number of `width` bytes at `pos`.
pub open spec fn parse_unsigned(data: Seq<u8>, pos: int, width: nat) -> Parsed<nat> {
    if 0 <= pos && pos + width <= data.len() {
        Ok((be_value(data, pos, width), pos + width))
    } else {
        Err((ErrorKind::Io, data.len() as int))
    }
}

/// A signed number of `width` bytes at `pos`.
pub open spec fn parse_signed(data: Seq<u8>, pos: int, width: nat) -> Parsed<int> {
    match parse_unsigned(data, pos, width) {
        Ok((value, next)) => Ok((signed(value, width), next)),
        Err(e) => Err(e),
    }
}

/// The marker at `pos`.
pub open spec fn parse_marker(data: Seq<u8>, pos: int) -> Parsed<UbjsonType> {
    if 0 <= pos < data.len() {
        match UbjsonType::marker_of(data[pos]) {
            Some(marker) => Ok((marker, pos + 1)),
            None => Err((ErrorKind::InvalidTypeMarker(data[pos]), pos + 1)),
        }
    } else {
        Err((ErrorKind::Io, data.len() as int))
    }
}

/// A length whose marker has been read: a signed number of `width` bytes
/// that is not negative and fits the platform.
pub open spec fn parse_signed_length(data: Seq<u8>, pos: int, width: nat) -> Parsed<usize> {
    match parse_signed(data, pos, width) {
        Ok((value, next)) => if 0 <= value <= usize::MAX {
            Ok((value as usize, next))
        } else {
            Err((ErrorKind::InvalidFormat, next))
        },
        Err(e) => Err(e),
    }
}

/// A length at `pos`: the marker of an integer kind, then that integer.
pub open spec fn parse_length(data: Seq<u8>, pos: int) -> Parsed<usize> {
    match parse_marker(data, pos) {
        Err(e) => Err(e),
        Ok((marker, next)) => match marker {
            UbjsonType::UInt8 => match parse_unsigned(data, next, 1) {
                Ok((value, after)) => Ok((value as usize, after)),
                Err(e) => Err(e),
            },
            UbjsonType::Int8 => parse_signed_length(data, next, 1),
            UbjsonType::Int16 => parse_signed_length(data, next, 2),
            UbjsonType::Int32 => parse_signed_length(data, next, 4),
            UbjsonType::Int64 => parse_signed_length(data, next, 8),
            _ => Err((ErrorKind::InvalidFormat, next)),
        },
    }
}

/// A length on the wire: the narrowest of the kinds UInt8, Int16, Int32 and
/// Int64 that holds it, and the number in that kind.
pub open spec fn encode_length(length: nat) -> Seq<u8> {
    if length <= 0xFF {
        seq![UbjsonType::UInt8.byte()] + be_bytes(length, 1)
    } else if length <= 0x7FFF {
        seq![UbjsonType::Int16.byte()] + be_bytes(length, 2)
    } else if length <= 0x7FFF_FFFF {
        seq![UbjsonType::Int32.byte()] + be_bytes(length, 4)
    } else {
        seq![UbjsonType::Int64.byte()] + be_bytes(length, 8)
    }
}

/// Text at `pos`: a length, then that many bytes of UTF-8.
pub open spec fn parse_text(data: Seq<u8>, pos: int) -> Parsed<Seq<char>> {
    match parse_length(data, pos) {
        Err(e) => Err(e),
        Ok((length, start)) => if start + length > data.len() {
            Err((ErrorKind::Io, data.len() as int))
        } else if !valid_utf8(data.subrange(start, start + length)) {
            Err((ErrorKind::InvalidUtf8, start + length))
        } else {
            Ok((decode_utf8(data.subrange(start, start + length)), start + length))
        },
    }
}

/// Text on the wire: the length of its UTF-8 bytes, then the bytes.
pub open spec fn encode_text(text: Seq<char>) -> Seq<u8> {
    encode_length(encode_utf8(text).len()) + encode_utf8(text)
}

/// How many bytes a character takes, judged by its first byte alone.
pub open spec fn char_width(lead: u8) -> nat {
    if lead < 0x80 {
        1
    } else if lead < 0xE0 {
        2
    } else if lead < 0xF0 {
        3
    } else {
        4
    }
}

/// A character at `pos`: as many bytes as the first one announces, which
/// must be the UTF-8 of exactly one scalar.
pub open spec fn parse_char(data: Seq<u8>, pos: int) -> Parsed<char> {
    if !(0 <= pos < data.len()) {
        Err((ErrorKind::Io, data.len() as int))
    } else if char_width(data[pos]) == 1 {
        Ok((data[pos] as char, pos + 1))
    } else if pos + char_width(data[pos]) > data.len() {
        Err((ErrorKind::Io, data.len() as int))
    } else if !valid_utf8(data.subrange(pos, pos + char_width(data[pos]))) {
        Err((ErrorKind::InvalidUtf8, pos + char_width(data[pos])))
    } else if decode_utf8(data.subrange(pos, pos + char_width(data[pos]))).len() != 1 {
        Err((ErrorKind::InvalidChar, pos + char_width(data[pos])))
    } else {
        Ok(
            (
                decode_utf8(data.subrange(pos, pos + char_width(data[pos])))[0],
                pos + char_width(data[pos]),
            ),
        )
    }
}

/// The four widths in use hold 2^8, 2^16, 2^32 and 2^64 values.
pub proof fn lemma_limits()
    ensures
        limit(0) == 1,
        limit(1) == 0x100,
        limit(2) == 0x1_0000,
        limit(3) == 0x100_0000,
        limit(4) == 0x1_0000_0000,
        limit(5) == 0x100_0000_0000,
        limit(6) == 0x1_0000_0000_0000,
        limit(7) == 0x100_0000_0000_0000,
        limit(8) == 0x1_0000_0000_0000_0000,
{
    reveal_with_fuel(limit, 9);
}

/// `width` bytes spell a number below `limit(width)`.
pub proof fn lemma_be_value_bound(data: Seq<u8>, pos: int, width: nat)
    ensures
        be_value(data, pos, width) < limit(width),
    decreases width,
{
    if width > 0 {
        lemma_be_value_bound(data, pos, (width - 1) as nat);
    }
}

/// `be_bytes` gives `width` bytes.
pub proof fn lemma_be_bytes_len(value: nat, width: nat)
    ensures
        be_bytes(value, width).len() == width,
    decreases width,
{
    if width > 0 {
        lemma_be_bytes_len(value / 256, (width - 1) as nat);
    }
}

/// Reading back the bytes of a number that fits gives the number.
pub proof fn lemma_be_round_trip(data: Seq<u8>, pos: int, value: nat, width: nat)
    requires
        value < limit(width),
        holds_at(data, pos, be_bytes(value, width)),
    ensures
        be_value(data, pos, width) == value,
    decreases width,
{
    if width > 0 {
        let rest = (width - 1) as nat;
        let bytes = be_bytes(value, width);
        lemma_be_bytes_len(value, width);
        lemma_be_bytes_len(value / 256, rest);
        assert forall|i: int| 0 <= i < rest implies #[trigger] data[pos + i] == be_bytes(
            value / 256,
            rest,
        )[i] by {
            assert(data[pos + i] == bytes[i]);
        }
        lemma_be_round_trip(data, pos, value / 256, rest);
        assert(data[pos + rest] == bytes[rest as int]);
    }
}

/// The signed reading undoes the unsigned one.
pub proof fn lemma_signed_round_trip(value: int, width: nat)
    requires
        -(limit(width) as int) <= 2 * value < limit(width),
    ensures
        unsigned(value, width) < limit(width),
        signed(unsigned(value, width), width) == value,
{
}

/// Where bytes are held, their front part is held, and their back part is
/// held behind it.
pub proof fn lemma_holds_at_split(data: Seq<u8>, pos: int, front: Seq<u8>, back: Seq<u8>)
    requires
        holds_at(data, pos, front + back),
    ensures
        holds_at(data, pos, front),
        holds_at(data, pos + front.len(), back),
{
    assert forall|i: int| 0 <= i < front.len() implies #[trigger] data[pos + i] == front[i] by {
        assert((front + back)[i] == front[i]);
    }
    assert forall|i: int| 0 <= i < back.len() implies #[trigger] data[pos + front.len() + i]
        == back[i] by {
        assert(data[pos + (front.len() + i)] == (front + back)[front.len() + i]);
    }
}

/// A marker that is written is the marker that is read.
pub proof fn lemma_marker_round_trip(data: Seq<u8>, pos: int, marker: UbjsonType)
    requires
        holds_at(data, pos, seq![marker.byte()]),
    ensures
        parse_marker(data, pos) == Ok::<(UbjsonType, int), (ErrorKind, int)>((marker, pos + 1)),
{
    assert(data[pos + 0] == seq![marker.byte()][0]);
}

/// An unsigned number that is written is the number that is read.
pub proof fn lemma_unsigned_round_trip(data: Seq<u8>, pos: int, value: nat, width: nat)
    requires
        value < limit(width),
        holds_at(data, pos, be_bytes(value, width)),
    ensures
        parse_unsigned(data, pos, width) == Ok::<(nat, int), (ErrorKind, int)>((value, pos + width)),
{
    lemma_be_bytes_len(value, width);
    lemma_be_round_trip(data, pos, value, width);
}

/// A signed number that is written is the number that is read.
pub proof fn lemma_signed_value_round_trip(data: Seq<u8>, pos: int, value: int, width: nat)
    requires
        -(limit(width) as int) <= 2 * value < limit(width),
        holds_at(data, pos, be_bytes(unsigned(value, width), width)),
    ensures
        parse_signed(data, pos, width) == Ok::<(int, int), (ErrorKind, int)>((value, pos + width)),
{
    lemma_signed_round_trip(value, width);
    lemma_unsigned_round_trip(data, pos, unsigned(value, width), width);
}

/// A length that is written is the length that is read, as long as it is
/// one that can be read at all: it fits a signed 64-bit integer and the
/// platform.
pub proof fn lemma_length_round_trip(data: Seq<u8>, pos: int, length: nat)
    requires
        length <= usize::MAX,
        length <= 0x7FFF_FFFF_FFFF_FFFF,
        holds_at(data, pos, encode_length(length)),
    ensures
        parse_length(data, pos) == Ok::<(usize, int), (ErrorKind, int)>(
            (length as usize, pos + encode_length(length).len()),
        ),
{
    lemma_limits();
    let width: nat = if length <= 0xFF {
        1
    } else if length <= 0x7FFF {
        2
    } else if length <= 0x7FFF_FFFF {
        4
    } else {
        8
    };
    let marker = if length <= 0xFF {
        UbjsonType::UInt8
    } else if length <= 0x7FFF {
        UbjsonType::Int16
    } else if length <= 0x7FFF_FFFF {
        UbjsonType::Int32
    } else {
        UbjsonType::Int64
    };
    assert(encode_length(length) == seq![marker.byte()] + be_bytes(length, width));
    lemma_be_bytes_len(length, width);
    lemma_holds_at_split(data, pos, seq![marker.byte()], be_bytes(length, width));
    lemma_marker_round_trip(data, pos, marker);
    if length <= 0xFF {
        lemma_unsigned_round_trip(data, pos + 1, length, 1);
    } else {
        assert(unsigned(length as int, width) == length);
        lemma_signed_value_round_trip(data, pos + 1, length as int, width);
    }
}

/// Text that is written is the text that is read, as long as its length can
/// be read.
pub proof fn lemma_text_round_trip(data: Seq<u8>, pos: int, text: Seq<char>)
    requires
        encode_utf8(text).len() <= usize::MAX,
        encode_utf8(text).len() <= 0x7FFF_FFFF_FFFF_FFFF,
        holds_at(data, pos, encode_text(text)),
    ensures
        parse_text(data, pos) == Ok::<(Seq<char>, int), (ErrorKind, int)>(
            (text, pos + encode_text(text).len()),
        ),
{
    let raw = encode_utf8(text);
    let head = encode_length(raw.len());
    lemma_holds_at_split(data, pos, head, raw);
    lemma_length_round_trip(data, pos, raw.len());
    let start = pos + head.len();
    assert(data.subrange(start, start + raw.len()) =~= raw) by {
        assert forall|i: int| 0 <= i < raw.len() implies data.subrange(start, start + raw.len())[i]
            == raw[i] by {
            assert(data[start + i] == raw[i]);
        }
    }
    encode_utf8_valid_utf8(text);
    encode_utf8_decode_utf8(text);
}

/// A character that is written is the character that is read.
pub proof fn lemma_char_round_trip(data: Seq<u8>, pos: int, c: char)
    requires
        holds_at(data, pos, encode_scalar(c as u32)),
    ensures
        parse_char(data, pos) == Ok::<(char, int), (ErrorKind, int)>(
            (c, pos + encode_scalar(c as u32).len()),
        ),
{
    let bytes = encode_scalar(c as u32);
    let chars = seq![c];
    assert(encode_utf8(chars) =~= bytes) by {
        reveal_with_fuel(encode_utf8, 2);
        assert(chars.drop_first() =~= Seq::<char>::empty());
    }
    encode_utf8_first_scalar(chars);
    encode_utf8_valid_utf8(chars);
    encode_utf8_decode_utf8(chars);
    char_is_scalar(c);
    assert(data[pos + 0] == bytes[0]);
    let width = char_width(data[pos]);
    assert(width == bytes.len());
    if width == 1 {
        let scalar = c as u32;
        assert(scalar & 0x7F == scalar) by (bit_vector)
            requires
                scalar <= 0x7F,
        ;
    } else {
        assert(data.subrange(pos, pos + width) =~= bytes) by {
            assert forall|i: int| 0 <= i < bytes.len() implies data.subrange(pos, pos + width)[i]
                == bytes[i] by {
                assert(data[pos + i] == bytes[i]);
            }
        }
    }
}

/// A cursor over bytes in memory. It only ever moves forward, and never past
/// the end: what a failed read has taken stays taken.
pub struct ByteReader<'a> {
    data: &'a [u8],
    pos: usize,
}

impl<'a> ByteReader<'a> {
    #[verifier::type_invariant]
    spec fn in_bounds(self) -> bool {
        self.pos <= self.data@.len()
    }

    /// The whole input, read or not.
    pub closed spec fn bytes(&self) -> Seq<u8> {
        self.data@
    }

    /// How many bytes have been read.
    pub closed spec fn offset(&self) -> int {
        self.pos as int
    }

    /// A reader at the start of `data`.
    pub fn new(data: &'a [u8]) -> (reader: Self)
        ensures
            reader.bytes() == data@,
            reader.offset() == 0,
    {
        ByteReader { data, pos: 0 }
    }

    /// How many bytes have been read.
    pub fn position(&self) -> (pos: usize)
        ensures
            pos == self.offset(),
            0 <= self.offset() <= self.bytes().len(),
    {
        proof {
            use_type_invariant(self);
        }
        self.pos
    }

    /// How many bytes are left.
    pub fn remaining(&self) -> (left: usize)
        ensures
            left == self.bytes().len() - self.offset(),
    {
        proof {
            use_type_invariant(self);
        }
        self.data.len() - self.pos
    }

    /// The next byte, which stays unread.
    pub fn peek(&self) -> (byte: Option<u8>)
        ensures
            0 <= self.offset() <= self.bytes().len(),
            match byte {
                Some(b) => self.offset() < self.bytes().len() && b == self.bytes()[self.offset()],
                None => self.offset() == self.bytes().len(),
            },
    {
        proof {
            use_type_invariant(self);
        }
        if self.pos < self.data.len() {
            Some(self.data[self.pos])
        } else {
            None
        }
    }

    /// Reads one byte.
    pub fn read_byte(&mut self) -> (result: Result<u8, UbjsonError>)
        ensures
            final(self).bytes() == old(self).bytes(),
            0 <= old(self).offset() <= old(self).bytes().len(),
            match result {
                Ok(b) => {
                    &&& old(self).offset() < old(self).bytes().len()
                    &&& b == old(self).bytes()[old(self).offset()]
                    &&& final(self).offset() == old(self).offset() + 1
                },
                Err(e) => old(self).offset() == old(self).bytes().len() && e == UbjsonError::Io(
                    IoFailure::UnexpectedEof,
                ) && final(self).offset() == old(self).offset(),
            },
    {
        proof {
            use_type_invariant(&*self);
        }
        if self.pos < self.data.len() {
            let b = self.data[self.pos];
            self.pos = self.pos + 1;
            Ok(b)
        } else {
            Err(UbjsonError::Io(IoFailure::UnexpectedEof))
        }
    }

    /// Reads `count` bytes. Where fewer are left, the read fails and takes
    /// what is left.
    pub fn read_exact(&mut self, count: usize) -> (result: Result<&'a [u8], UbjsonError>)
        ensures
            final(self).bytes() == old(self).bytes(),
            0 <= old(self).offset() <= old(self).bytes().len(),
            match result {
                Ok(slice) => {
                    &&& old(self).offset() + count <= old(self).bytes().len()
                    &&& slice@ == old(self).bytes().subrange(
                        old(self).offset(),
                        old(self).offset() + count,
                    )
                    &&& final(self).offset() == old(self).offset() + count
                },
                Err(e) => {
                    &&& old(self).offset() + count > old(self).bytes().len()
                    &&& e == UbjsonError::Io(IoFailure::UnexpectedEof)
                    &&& final(self).offset() == old(self).bytes().len()
                },
            },
    {
        proof {
            use_type_invariant(&*self);
        }
        if count <= self.data.len() - self.pos {
            let start = self.pos;
            let slice = vstd::slice::slice_subrange(self.data, start, start + count);
            self.pos = start + count;
            Ok(slice)
        } else {
            self.pos = self.data.len();
            Err(UbjsonError::Io(IoFailure::UnexpectedEof))
        }
    }
}

/// The number spelled by the `width` bytes of `data` that start at `start`.
fn be_number(data: &[u8], start: usize, width: usize) -> (value: u64)
    requires
        width <= 8,
        start + width <= data@.len(),
    ensures
        value == be_value(data@, start as int, width as nat),
    decreases width,
{
    if width == 0 {
        0
    } else {
        let high = be_number(data, start, width - 1);
        proof {
            lemma_be_value_bound(data@, start as int, (width - 1) as nat);
            lemma_limits();
            vstd::slice::axiom_spec_len(data);
        }
        high * 256 + data[start + (width - 1)] as u64
    }
}

/// Reads an unsigned number of `width` bytes.
fn read_unsigned(reader: &mut ByteReader, width: usize) -> (result: Result<u64, UbjsonError>)
    requires
        width <= 8,
    ensures
        final(reader).bytes() == old(reader).bytes(),
        old(reader).offset() <= final(reader).offset() <= old(reader).bytes().len(),
        match result {
            Ok(value) => parse_unsigned(old(reader).bytes(), old(reader).offset(), width as nat)
                == Ok::<(nat, int), (ErrorKind, int)>((value as nat, final(reader).offset())),
            Err(e) => parse_unsigned(old(reader).bytes(), old(reader).offset(), width as nat)
                == Err::<(nat, int), (ErrorKind, int)>((e.kind(), final(reader).offset())),
        },
{
    match reader.read_exact(width) {
        Ok(slice) => {
            let value = be_number(slice, 0, width);
            proof {
                lemma_be_value_slice(
                    old(reader).bytes(),
                    old(reader).offset(),
                    width as nat,
                    width as nat,
                );
            }
            Ok(value)
        },
        Err(e) => Err(e),
    }
}

/// A number read from a slice of the input is the number read from the
/// input itself.
proof fn lemma_be_value_slice(data: Seq<u8>, pos: int, len: nat, width: nat)
    requires
        0 <= pos,
        pos + len <= data.len(),
        width <= len,
    ensures
        be_value(data.subrange(pos, pos + len), 0, width) == be_value(data, pos, width),
    decreases width,
{
    if width > 0 {
        lemma_be_value_slice(data, pos, len, (width - 1) as nat);
    }
}

/// Appends the `width` low bytes of `value`, most significant byte first.
fn write_unsigned(writer: &mut Vec<u8>, value: u64, width: usize)
    requires
        width <= 8,
    ensures
        final(writer)@ == old(writer)@ + be_bytes(value as nat, width as nat),
    decreases width,
{
    if width > 0 {
        write_unsigned(writer, value / 256, width - 1);
        writer.push((value % 256) as u8);
        assert(writer@ == old(writer)@ + be_bytes(value as nat, width as nat));
    } else {
        assert(writer@ == old(writer)@ + be_bytes(value as nat, width as nat));
    }
}

/// Appends `bytes`.
pub fn write_bytes(writer: &mut Vec<u8>, bytes: &[u8])
    ensures
        final(writer)@ == old(writer)@ + bytes@,
{
    let mut i: usize = 0;
    while i < bytes.len()
        invariant
            i <= bytes@.len(),
            writer@ == old(writer)@ + bytes@.subrange(0, i as int),
        decreases bytes@.len() - i,
    {
        writer.push(bytes[i]);
        i = i + 1;
        assert(writer@ == old(writer)@ + bytes@.subrange(0, i as int));
    }
    assert(bytes@.subrange(0, i as int) == bytes@);
}

/// Reads one byte and takes it for a marker.
pub fn read_type_marker(reader: &mut ByteReader) -> (result: Result<UbjsonType, UbjsonError>)
    ensures
        final(reader).bytes() == old(reader).bytes(),
        old(reader).offset() <= final(reader).offset() <= old(reader).bytes().len(),
        match result {
            Ok(marker) => parse_marker(old(reader).bytes(), old(reader).offset()) == Ok::<
                (UbjsonType, int),
                (ErrorKind, int),
            >((marker, final(reader).offset())),
            Err(e) => parse_marker(old(reader).bytes(), old(reader).offset()) == Err::<
                (UbjsonType, int),
                (ErrorKind, int),
            >((e.kind(), final(reader).offset())),
        },
{
    match reader.read_byte() {
        Ok(byte) => UbjsonType::from_byte(byte),
        Err(e) => Err(e),
    }
}

/// Appends a marker's byte. Writing to memory cannot fail.
pub fn write_type_marker(writer: &mut Vec<u8>, type_marker: UbjsonType) -> (result: Result<
    (),
    UbjsonError,
>)
    ensures
        result is Ok,
        final(writer)@ == old(writer)@.push(type_marker.byte()),
{
    writer.push(type_marker.to_byte());
    Ok(())
}

/// Reads a length: an integer of any of the five kinds, with its marker,
/// that is neither negative nor beyond `usize`. Another marker in its place
/// is an `InvalidFormat`.
pub fn read_length(reader: &mut ByteReader) -> (result: Result<usize, UbjsonError>)
    ensures
        final(reader).bytes() == old(reader).bytes(),
        old(reader).offset() <= final(reader).offset() <= old(reader).bytes().len(),
        match result {
            Ok(length) => parse_length(old(reader).bytes(), old(reader).offset()) == Ok::<
                (usize, int),
                (ErrorKind, int),
            >((length, final(reader).offset())),
            Err(e) => parse_length(old(reader).bytes(), old(reader).offset()) == Err::<
                (usize, int),
                (ErrorKind, int),
            >((e.kind(), final(reader).offset())),
        },
{
    let marker = match read_type_marker(reader) {
        Ok(marker) => marker,
        Err(e) => {
            return Err(e);
        },
    };
    let value: Result<i64, UbjsonError> = match marker {
        UbjsonType::UInt8 => match read_uint8(reader) {
            Ok(v) => Ok(v as i64),
            Err(e) => Err(e),
        },
        UbjsonType::Int8 => match read_int8(reader) {
            Ok(v) => Ok(v as i64),
            Err(e) => Err(e),
        },
        UbjsonType::Int16 => match read_int16(reader) {
            Ok(v) => Ok(v as i64),
            Err(e) => Err(e),
        },
        UbjsonType::Int32 => match read_int32(reader) {
            Ok(v) => Ok(v as i64),
            Err(e) => Err(e),
        },
        UbjsonType::Int64 => read_int64(reader),
        _ => Err(UbjsonError::InvalidFormat("Invalid length type marker".to_owned())),
    };
    match value {
        Ok(v) => {
            if v < 0 {
                Err(UbjsonError::InvalidFormat("Negative length not allowed".to_owned()))
            } else if v as u64 > usize::MAX as u64 {
                Err(UbjsonError::InvalidFormat("Length too large for platform".to_owned()))
            } else {
                Ok(v as usize)
            }
        },
        Err(e) => Err(e),
    }
}

/// Appends a length in the narrowest kind that holds it.
pub fn write_length(writer: &mut Vec<u8>, length: usize) -> (result: Result<(), UbjsonError>)
    ensures
        result is Ok,
        final(writer)@ == old(writer)@ + encode_length(length as nat),
{
    if length <= 0xFF {
        writer.push(UbjsonType::UInt8.to_byte());
        write_unsigned(writer, length as u64, 1);
    } else if length <= 0x7FFF {
        writer.push(UbjsonType::Int16.to_byte());
        write_unsigned(writer, length as u64, 2);
    } else if length <= 0x7FFF_FFFF {
        writer.push(UbjsonType::Int32.to_byte());
        write_unsigned(writer, length as u64, 4);
    } else {
        writer.push(UbjsonType::Int64.to_byte());
        write_unsigned(writer, length as u64, 8);
    }
    assert(writer@ == old(writer)@ + encode_length(length as nat));
    Ok(())
}

/// Reads a signed 8-bit integer.
pub fn read_int8(reader: &mut ByteReader) -> (result: Result<i8, UbjsonError>)
    ensures
        final(reader).bytes() == old(reader).bytes(),
        old(reader).offset() <= final(reader).offset() <= old(reader).bytes().len(),
        match result {
            Ok(value) => parse_signed(old(reader).bytes(), old(reader).offset(), 1) == Ok::<
                (int, int),
                (ErrorKind, int),
            >((value as int, final(reader).offset())),
            Err(e) => parse_signed(old(reader).bytes(), old(reader).offset(), 1) == Err::<
                (int, int),
                (ErrorKind, int),
            >((e.kind(), final(reader).offset())),
        },
{
    proof {
        lemma_limits();
        lemma_be_value_bound(old(reader).bytes(), old(reader).offset(), 1);
    }
    match read_unsigned(reader, 1) {
        Ok(raw) => if raw >= 0x80 {
            Ok((raw as i16 - 0x100) as i8)
        } else {
            Ok(raw as i8)
        },
        Err(e) => Err(e),
    }
}

/// Appends a signed 8-bit integer.
pub fn write_int8(writer: &mut Vec<u8>, value: i8) -> (result: Result<(), UbjsonError>)
    ensures
        result is Ok,
        final(writer)@ == old(writer)@ + be_bytes(unsigned(value as int, 1), 1),
{
    proof {
        lemma_limits();
    }
    let raw: u64 = if value < 0 {
        (value as i16 + 0x100) as u64
    } else {
        value as u64
    };
    write_unsigned(writer, raw, 1);
    Ok(())
}

/// Reads an unsigned 8-bit integer.
pub fn read_uint8(reader: &mut ByteReader) -> (result: Result<u8, UbjsonError>)
    ensures
        final(reader).bytes() == old(reader).bytes(),
        old(reader).offset() <= final(reader).offset() <= old(reader).bytes().len(),
        match result {
            Ok(value) => parse_unsigned(old(reader).bytes(), old(reader).offset(), 1) == Ok::<
                (nat, int),
                (ErrorKind, int),
            >((value as nat, final(reader).offset())),
            Err(e) => parse_unsigned(old(reader).bytes(), old(reader).offset(), 1) == Err::<
                (nat, int),
                (ErrorKind, int),
            >((e.kind(), final(reader).offset())),
        },
{
    proof {
        lemma_limits();
        lemma_be_value_bound(old(reader).bytes(), old(reader).offset(), 1);
    }
    match read_unsigned(reader, 1) {
        Ok(raw) => Ok(raw as u8),
        Err(e) => Err(e),
    }
}

/// Appends an unsigned 8-bit integer.
pub fn write_uint8(writer: &mut Vec<u8>, value: u8) -> (result: Result<(), UbjsonError>)
    ensures
        result is Ok,
        final(writer)@ == old(writer)@ + be_bytes(value as nat, 1),
{
    write_unsigned(writer, value as u64, 1);
    Ok(())
}

/// Reads a signed 16-bit integer, most significant byte first.
pub fn read_int16(reader: &mut ByteReader) -> (result: Result<i16, UbjsonError>)
    ensures
        final(reader).bytes() == old(reader).bytes(),
        old(reader).offset() <= final(reader).offset() <= old(reader).bytes().len(),
        match result {
            Ok(value) => parse_signed(old(reader).bytes(), old(reader).offset(), 2) == Ok::<
                (int, int),
                (ErrorKind, int),
            >((value as int, final(reader).offset())),
            Err(e) => parse_signed(old(reader).bytes(), old(reader).offset(), 2) == Err::<
                (int, int),
                (ErrorKind, int),
            >((e.kind(), final(reader).offset())),
        },
{
    proof {
        lemma_limits();
        lemma_be_value_bound(old(reader).bytes(), old(reader).offset(), 2);
    }
    match read_unsigned(reader, 2) {
        Ok(raw) => if raw >= 0x8000 {
            Ok((raw as i32 - 0x1_0000) as i16)
        } else {
            Ok(raw as i16)
        },
        Err(e) => Err(e),
    }
}

/// Appends a signed 16-bit integer, most significant byte first.
pub fn write_int16(writer: &mut Vec<u8>, value: i16) -> (result: Result<(), UbjsonError>)
    ensures
        result is Ok,
        final(writer)@ == old(writer)@ + be_bytes(unsigned(value as int, 2), 2),
{
    proof {
        lemma_limits();
    }
    let raw: u64 = if value < 0 {
        (value as i32 + 0x1_0000) as u64
    } else {
        value as u64
    };
    write_unsigned(writer, raw, 2);
    Ok(())
}

/// Reads a signed 32-bit integer, most significant byte first.
pub fn read_int32(reader: &mut ByteReader) -> (result: Result<i32, UbjsonError>)
    ensures
        final(reader).bytes() == old(reader).bytes(),
        old(reader).offset() <= final(reader).offset() <= old(reader).bytes().len(),
        match result {
            Ok(value) => parse_signed(old(reader).bytes(), old(reader).offset(), 4) == Ok::<
                (int, int),
                (ErrorKind, int),
            >((value as int, final(reader).offset())),
            Err(e) => parse_signed(old(reader).bytes(), old(reader).offset(), 4) == Err::<
                (int, int),
                (ErrorKind, int),
            >((e.kind(), final(reader).offset())),
        },
{
    proof {
        lemma_limits();
        lemma_be_value_bound(old(reader).bytes(), old(reader).offset(), 4);
    }
    match read_unsigned(reader, 4) {
        Ok(raw) => if raw >= 0x8000_0000 {
            Ok((raw as i64 - 0x1_0000_0000) as i32)
        } else {
            Ok(raw as i32)
        },
        Err(e) => Err(e),
    }
}

/// Appends a signed 32-bit integer, most significant byte first.
pub fn write_int32(writer: &mut Vec<u8>, value: i32) -> (result: Result<(), UbjsonError>)
    ensures
        result is Ok,
        final(writer)@ == old(writer)@ + be_bytes(unsigned(value as int, 4), 4),
{
    proof {
        lemma_limits();
    }
    let raw: u64 = if value < 0 {
        (value as i64 + 0x1_0000_0000) as u64
    } else {
        value as u64
    };
    write_unsigned(writer, raw, 4);
    Ok(())
}

/// Reads a signed 64-bit integer, most significant byte first.
pub fn read_int64(reader: &mut ByteReader) -> (result: Result<i64, UbjsonError>)
    ensures
        final(reader).bytes() == old(reader).bytes(),
        old(reader).offset() <= final(reader).offset() <= old(reader).bytes().len(),
        match result {
            Ok(value) => parse_signed(old(reader).bytes(), old(reader).offset(), 8) == Ok::<
                (int, int),
                (ErrorKind, int),
            >((value as int, final(reader).offset())),
            Err(e) => parse_signed(old(reader).bytes(), old(reader).offset(), 8) == Err::<
                (int, int),
                (ErrorKind, int),
            >((e.kind(), final(reader).offset())),
        },
{
    proof {
        lemma_limits();
        lemma_be_value_bound(old(reader).bytes(), old(reader).offset(), 8);
    }
    match read_unsigned(reader, 8) {
        Ok(raw) => if raw >= 0x8000_0000_0000_0000 {
            Ok((raw as i128 - 0x1_0000_0000_0000_0000) as i64)
        } else {
            Ok(raw as i64)
        },
        Err(e) => Err(e),
    }
}

/// Appends a signed 64-bit integer, most significant byte first.
pub fn write_int64(writer: &mut Vec<u8>, value: i64) -> (result: Result<(), UbjsonError>)
    ensures
        result is Ok,
        final(writer)@ == old(writer)@ + be_bytes(unsigned(value as int, 8), 8),
{
    proof {
        lemma_limits();
    }
    let raw: u64 = if value < 0 {
        (value as i128 + 0x1_0000_0000_0000_0000) as u64
    } else {
        value as u64
    };
    write_unsigned(writer, raw, 8);
    Ok(())
}

/// Reads the bit pattern of a 32-bit float, most significant byte first.
pub fn read_float32(reader: &mut ByteReader) -> (result: Result<u32, UbjsonError>)
    ensures
        final(reader).bytes() == old(reader).bytes(),
        old(reader).offset() <= final(reader).offset() <= old(reader).bytes().len(),
        match result {
            Ok(bits) => parse_unsigned(old(reader).bytes(), old(reader).offset(), 4) == Ok::<
                (nat, int),
                (ErrorKind, int),
            >((bits as nat, final(reader).offset())),
            Err(e) => parse_unsigned(old(reader).bytes(), old(reader).offset(), 4) == Err::<
                (nat, int),
                (ErrorKind, int),
            >((e.kind(), final(reader).offset())),
        },
{
    proof {
        lemma_limits();
        lemma_be_value_bound(old(reader).bytes(), old(reader).offset(), 4);
    }
    match read_unsigned(reader, 4) {
        Ok(raw) => Ok(raw as u32),
        Err(e) => Err(e),
    }
}

/// Appends the bit pattern of a 32-bit float, most significant byte first.
pub fn write_float32(writer: &mut Vec<u8>, bits: u32) -> (result: Result<(), UbjsonError>)
    ensures
        result is Ok,
        final(writer)@ == old(writer)@ + be_bytes(bits as nat, 4),
{
    write_unsigned(writer, bits as u64, 4);
    Ok(())
}

/// Reads the bit pattern of a 64-bit float, most significant byte first.
pub fn read_float64(reader: &mut ByteReader) -> (result: Result<u64, UbjsonError>)
    ensures
        final(reader).bytes() == old(reader).bytes(),
        old(reader).offset() <= final(reader).offset() <= old(reader).bytes().len(),
        match result {
            Ok(bits) => parse_unsigned(old(reader).bytes(), old(reader).offset(), 8) == Ok::<
                (nat, int),
                (ErrorKind, int),
            >((bits as nat, final(reader).offset())),
            Err(e) => parse_unsigned(old(reader).bytes(), old(reader).offset(), 8) == Err::<
                (nat, int),
                (ErrorKind, int),
            >((e.kind(), final(reader).offset())),
        },
{
    read_unsigned(reader, 8)
}

/// Appends the bit pattern of a 64-bit float, most significant byte first.
pub fn write_float64(writer: &mut Vec<u8>, bits: u64) -> (result: Result<(), UbjsonError>)
    ensures
        result is Ok,
        final(writer)@ == old(writer)@ + be_bytes(bits as nat, 8),
{
    write_unsigned(writer, bits, 8);
    Ok(())
}

/// Reads text: a length, then that many bytes, which must be UTF-8.
pub fn read_string(reader: &mut ByteReader) -> (result: Result<String, UbjsonError>)
    ensures
        final(reader).bytes() == old(reader).bytes(),
        old(reader).offset() <= final(reader).offset() <= old(reader).bytes().len(),
        match result {
            Ok(text) => parse_text(old(reader).bytes(), old(reader).offset()) == Ok::<
                (Seq<char>, int),
                (ErrorKind, int),
            >((text@, final(reader).offset())),
            Err(e) => parse_text(old(reader).bytes(), old(reader).offset()) == Err::<
                (Seq<char>, int),
                (ErrorKind, int),
            >((e.kind(), final(reader).offset())),
        },
{
    broadcast use encode_utf8_decode_utf8;

    let length = match read_length(reader) {
        Ok(length) => length,
        Err(e) => {
            return Err(e);
        },
    };
    let raw = match reader.read_exact(length) {
        Ok(raw) => raw,
        Err(e) => {
            return Err(e);
        },
    };
    match core::str::from_utf8(raw) {
        Ok(text) => Ok(text.to_owned()),
        Err(e) => Err(UbjsonError::InvalidUtf8(e)),
    }
}

/// Appends text: the length of its UTF-8 bytes, then the bytes.
pub fn write_string(writer: &mut Vec<u8>, value: &str) -> (result: Result<(), UbjsonError>)
    ensures
        result is Ok,
        final(writer)@ == old(writer)@ + encode_text(value@),
{
    let bytes = value.as_bytes();
    let _ = write_length(writer, bytes.len());
    write_bytes(writer, bytes);
    assert(writer@ == old(writer)@ + encode_text(value@));
    Ok(())
}

/// Reads one character. Its first byte tells how many bytes it takes; those
/// bytes must be UTF-8 and spell exactly one scalar.
pub fn read_char(reader: &mut ByteReader) -> (result: Result<char, UbjsonError>)
    ensures
        final(reader).bytes() == old(reader).bytes(),
        old(reader).offset() <= final(reader).offset() <= old(reader).bytes().len(),
        match result {
            Ok(c) => parse_char(old(reader).bytes(), old(reader).offset()) == Ok::<
                (char, int),
                (ErrorKind, int),
            >((c, final(reader).offset())),
            Err(e) => parse_char(old(reader).bytes(), old(reader).offset()) == Err::<
                (char, int),
                (ErrorKind, int),
            >((e.kind(), final(reader).offset())),
        },
{
    broadcast use encode_utf8_decode_utf8;

    let lead = match reader.peek() {
        Some(lead) => lead,
        None => {
            return Err(UbjsonError::Io(IoFailure::UnexpectedEof));
        },
    };
    let width: usize = if lead < 0x80 {
        1
    } else if lead < 0xE0 {
        2
    } else if lead < 0xF0 {
        3
    } else {
        4
    };
    let raw = match reader.read_exact(width) {
        Ok(raw) => raw,
        Err(e) => {
            return Err(e);
        },
    };
    if width == 1 {
        return Ok(lead as char);
    }
    match core::str::from_utf8(raw) {
        Ok(text) => {
            if text.unicode_len() != 1 {
                Err(UbjsonError::InvalidChar("Expected a single character".to_owned()))
            } else {
                Ok(text.get_char(0))
            }
        },
        Err(e) => Err(UbjsonError::InvalidUtf8(e)),
    }
}

/// Appends the UTF-8 bytes of one character.
pub fn write_char(writer: &mut Vec<u8>, value: char) -> (result: Result<(), UbjsonError>)
    ensures
        result is Ok,
        final(writer)@ == old(writer)@ + encode_scalar(value as u32),
{
    let scalar = value as u32;
    proof {
        char_is_scalar(value);
    }
    if scalar <= 0x7F {
        writer.push(masked(scalar, 0x7F));
    } else if scalar <= 0x7FF {
        writer.push(0xC0 | masked(scalar >> 6, 0x1F));
        writer.push(0x80 | masked(scalar, 0x3F));
    } else if scalar <= 0xFFFF {
        writer.push(0xE0 | masked(scalar >> 12, 0x0F));
        writer.push(0x80 | masked(scalar >> 6, 0x3F));
        writer.push(0x80 | masked(scalar, 0x3F));
    } else {
        writer.push(0xF0 | masked(scalar >> 18, 0x7));
        writer.push(0x80 | masked(scalar >> 12, 0x3F));
        writer.push(0x80 | masked(scalar >> 6, 0x3F));
        writer.push(0x80 | masked(scalar, 0x3F));
    }
    assert(writer@ == old(writer)@ + encode_scalar(value as u32));
    Ok(())
}

/// The bits of a number under a mask of at most eight bits, as a byte.
fn masked(bits: u32, mask: u32) -> (byte: u8)
    requires
        mask <= 0xFF,
    ensures
        byte == (bits & mask) as u8,
{
    assert(bits & mask <= 0xFF) by (bit_vector)
        requires
            mask <= 0xFF,
    ;
    (bits & mask) as u8
}

} // verus!
