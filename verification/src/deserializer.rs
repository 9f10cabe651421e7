//! Decoding: from bytes to a value.
//!
//! [`parse_value`] states which value stands at a position of the input and
//! where it ends, or why there is none and where reading stopped. It reads
//! the input once, from left to right, and the first violation decides the
//! failure. [`UbjsonDeserializer`] computes exactly that.
//!
//! Two limits bound the work that any input can cause. No value is read at
//! a nesting depth that is not below `max_depth`, be it a value with a
//! marker or an entry of a strongly-typed container; so with a limit of
//! zero nothing can be read at all. No container takes an entry once it holds
//! `max_size` of them; a container with an end marker is asked for room
//! before it looks for that marker, so it holds fewer than `max_size`
//! entries, while a counted container may hold exactly `max_size`.

use vstd::prelude::*;
use vstd::string::is_ascii_spec_bytes;
use vstd::utf8::*;

use crate::encoding::{
    parse_char, parse_length, parse_marker, parse_signed, parse_text, parse_unsigned, read_char,
    read_float32, read_float64, read_int16, read_int32, read_int64, read_int8, read_length,
    read_string, read_type_marker, read_uint8, ByteReader, Parsed,
};
use crate::error::{ErrorKind, IoFailure, UbjsonError};
use crate::types::{UbjsonType, COUNT_MARKER, TYPE_MARKER};
use crate::value::{
    has_key, lemma_view_array, lemma_view_typed_array, view_all, UbjsonMap, UbjsonValue,
    ValueModel,
};

verus! {

/// The nesting depth below which a decoder reads unless told otherwise.
pub const DEFAULT_MAX_DEPTH: usize = 1000;

/// The number of entries that a container may hold unless told otherwise.
pub const DEFAULT_MAX_SIZE: usize = 1_000_000;

/// A decimal digit.
pub open spec fn is_digit(c: char) -> bool {
    '0' <= c <= '9'
}

/// A plus or minus sign.
pub open spec fn is_sign(c: char) -> bool {
    c == '+' || c == '-'
}

/// The letter that introduces an exponent.
pub open spec fn is_exponent_mark(c: char) -> bool {
    c == 'e' || c == 'E'
}

/// Where the mantissa starts: behind the leading sign, if there is one.
pub open spec fn mantissa_start(text: Seq<char>) -> int {
    if text.len() > 0 && is_sign(text[0]) {
        1
    } else {
        0
    }
}

/// The position of the first exponent mark at or behind `from`; the length
/// of the text if there is none.
pub open spec fn exponent_position(text: Seq<char>, from: int) -> int
    decreases text.len() - from,
{
    if from >= text.len() {
        text.len() as int
    } else if is_exponent_mark(text[from]) {
        from
    } else {
        exponent_position(text, from + 1)
    }
}

/// Where the digits of the exponent start: behind the exponent mark and the
/// sign that may follow it.
pub open spec fn exponent_digits_start(text: Seq<char>, mark: int) -> int {
    if mark + 1 < text.len() && is_sign(text[mark + 1]) {
        mark + 2
    } else {
        mark + 1
    }
}

/// The grammar of a high-precision number: an optional sign; a mantissa of
/// digits with at most one decimal point and at least one digit; and
/// optionally an exponent mark, an optional sign, and digits, of which
/// there may be none.
pub open spec fn is_high_precision(text: Seq<char>) -> bool {
    let start = mantissa_start(text);
    let mark = exponent_position(text, start);
    &&& forall|i: int| start <= i < mark ==> is_digit(#[trigger] text[i]) || text[i] == '.'
    &&& forall|i: int, j: int|
        start <= i < j < mark ==> !(#[trigger] text[i] == '.' && #[trigger] text[j] == '.')
    &&& exists|i: int| start <= i < mark && is_digit(#[trigger] text[i])
    &&& forall|i: int|
        exponent_digits_start(text, mark) <= i < text.len() ==> is_digit(#[trigger] text[i])
}

/// The payload of a primitive kind at `pos`: the value whose marker is
/// `kind` and whose bytes start at `pos`. High-precision text must obey its
/// grammar. A kind that is not primitive has no payload.
pub open spec fn parse_payload(data: Seq<u8>, pos: int, kind: UbjsonType) -> Parsed<ValueModel> {
    match kind {
        UbjsonType::Null => Ok((ValueModel::Null, pos)),
        UbjsonType::True => Ok((ValueModel::Bool(true), pos)),
        UbjsonType::False => Ok((ValueModel::Bool(false), pos)),
        UbjsonType::Int8 => match parse_signed(data, pos, 1) {
            Ok((n, next)) => Ok((ValueModel::Int8(n as i8), next)),
            Err(e) => Err(e),
        },
        UbjsonType::UInt8 => match parse_unsigned(data, pos, 1) {
            Ok((n, next)) => Ok((ValueModel::UInt8(n as u8), next)),
            Err(e) => Err(e),
        },
        UbjsonType::Int16 => match parse_signed(data, pos, 2) {
            Ok((n, next)) => Ok((ValueModel::Int16(n as i16), next)),
            Err(e) => Err(e),
        },
        UbjsonType::Int32 => match parse_signed(data, pos, 4) {
            Ok((n, next)) => Ok((ValueModel::Int32(n as i32), next)),
            Err(e) => Err(e),
        },
        UbjsonType::Int64 => match parse_signed(data, pos, 8) {
            Ok((n, next)) => Ok((ValueModel::Int64(n as i64), next)),
            Err(e) => Err(e),
        },
        UbjsonType::Float32 => match parse_unsigned(data, pos, 4) {
            Ok((bits, next)) => Ok((ValueModel::Float32(bits as u32), next)),
            Err(e) => Err(e),
        },
        UbjsonType::Float64 => match parse_unsigned(data, pos, 8) {
            Ok((bits, next)) => Ok((ValueModel::Float64(bits as u64), next)),
            Err(e) => Err(e),
        },
        UbjsonType::HighPrecision => match parse_text(data, pos) {
            Ok((text, next)) => if is_high_precision(text) {
                Ok((ValueModel::HighPrecision(text), next))
            } else {
                Err((ErrorKind::InvalidHighPrecision, next))
            },
            Err(e) => Err(e),
        },
        UbjsonType::Char => match parse_char(data, pos) {
            Ok((c, next)) => Ok((ValueModel::Char(c), next)),
            Err(e) => Err(e),
        },
        UbjsonType::String => match parse_text(data, pos) {
            Ok((text, next)) => Ok((ValueModel::String(text), next)),
            Err(e) => Err(e),
        },
        _ => Err((ErrorKind::UnsupportedType, pos)),
    }
}

/// One entry of a strongly-typed container, which lies at `depth`: its
/// payload, if that depth is below the limit.
pub open spec fn parse_entry(
    data: Seq<u8>,
    pos: int,
    kind: UbjsonType,
    depth: nat,
    max_depth: usize,
) -> Parsed<ValueModel> {
    if depth >= max_depth {
        Err((ErrorKind::DepthLimitExceeded(max_depth), pos))
    } else {
        parse_payload(data, pos, kind)
    }
}

/// The payloads of a counted strongly-typed array behind those in `done`:
/// payloads are read until there are `count` of them.
pub open spec fn parse_counted_payloads(
    data: Seq<u8>,
    pos: int,
    kind: UbjsonType,
    depth: nat,
    max_depth: usize,
    count: nat,
    max_size: usize,
    done: Seq<ValueModel>,
) -> Parsed<Seq<ValueModel>>
    decreases count - done.len(),
{
    if done.len() >= count {
        Ok((done, pos))
    } else if done.len() >= max_size {
        Err((ErrorKind::SizeLimitExceeded(max_size), pos))
    } else {
        match parse_entry(data, pos, kind, depth, max_depth) {
            Err(e) => Err(e),
            Ok((value, next)) => parse_counted_payloads(
                data,
                next,
                kind,
                depth,
                max_depth,
                count,
                max_size,
                done.push(value),
            ),
        }
    }
}

/// The payloads of an uncounted strongly-typed array behind those in
/// `done`: payloads are read until the end marker stands where the next one
/// would start.
pub open spec fn parse_open_payloads(
    data: Seq<u8>,
    pos: int,
    kind: UbjsonType,
    depth: nat,
    max_depth: usize,
    max_size: usize,
    done: Seq<ValueModel>,
) -> Parsed<Seq<ValueModel>>
    decreases max_size - done.len(),
{
    if done.len() >= max_size {
        Err((ErrorKind::SizeLimitExceeded(max_size), pos))
    } else if !(0 <= pos < data.len()) {
        Err((ErrorKind::Io, data.len() as int))
    } else if data[pos] == UbjsonType::ArrayEnd.byte() {
        Ok((done, pos + 1))
    } else {
        match parse_entry(data, pos, kind, depth, max_depth) {
            Err(e) => Err(e),
            Ok((value, next)) => parse_open_payloads(
                data,
                next,
                kind,
                depth,
                max_depth,
                max_size,
                done.push(value),
            ),
        }
    }
}

/// One pair of a strongly-typed object: a key that is not in `done`, and
/// the payload of its value.
pub open spec fn parse_typed_pair(
    data: Seq<u8>,
    pos: int,
    kind: UbjsonType,
    depth: nat,
    max_depth: usize,
    done: Seq<(Seq<char>, ValueModel)>,
) -> Parsed<(Seq<char>, ValueModel)> {
    match parse_text(data, pos) {
        Err(e) => Err(e),
        Ok((key, next)) => if has_key(done, key) {
            Err((ErrorKind::InvalidFormat, next))
        } else {
            match parse_entry(data, next, kind, depth, max_depth) {
                Err(e) => Err(e),
                Ok((value, after)) => Ok(((key, value), after)),
            }
        },
    }
}

/// The pairs of a counted strongly-typed object behind those in `done`.
pub open spec fn parse_counted_pairs(
    data: Seq<u8>,
    pos: int,
    kind: UbjsonType,
    depth: nat,
    max_depth: usize,
    count: nat,
    max_size: usize,
    done: Seq<(Seq<char>, ValueModel)>,
) -> Parsed<Seq<(Seq<char>, ValueModel)>>
    decreases count - done.len(),
{
    if done.len() >= count {
        Ok((done, pos))
    } else if done.len() >= max_size {
        Err((ErrorKind::SizeLimitExceeded(max_size), pos))
    } else {
        match parse_typed_pair(data, pos, kind, depth, max_depth, done) {
            Err(e) => Err(e),
            Ok((pair, next)) => parse_counted_pairs(
                data,
                next,
                kind,
                depth,
                max_depth,
                count,
                max_size,
                done.push(pair),
            ),
        }
    }
}

/// The pairs of an uncounted strongly-typed object behind those in `done`.
pub open spec fn parse_open_pairs(
    data: Seq<u8>,
    pos: int,
    kind: UbjsonType,
    depth: nat,
    max_depth: usize,
    max_size: usize,
    done: Seq<(Seq<char>, ValueModel)>,
) -> Parsed<Seq<(Seq<char>, ValueModel)>>
    decreases max_size - done.len(),
{
    if done.len() >= max_size {
        Err((ErrorKind::SizeLimitExceeded(max_size), pos))
    } else if !(0 <= pos < data.len()) {
        Err((ErrorKind::Io, data.len() as int))
    } else if data[pos] == UbjsonType::ObjectEnd.byte() {
        Ok((done, pos + 1))
    } else {
        match parse_typed_pair(data, pos, kind, depth, max_depth, done) {
            Err(e) => Err(e),
            Ok((pair, next)) => parse_open_pairs(
                data,
                next,
                kind,
                depth,
                max_depth,
                max_size,
                done.push(pair),
            ),
        }
    }
}

/// The kind that a strongly-typed container declares at `pos`, behind `$`.
/// It must be primitive.
pub open spec fn parse_declared_kind(data: Seq<u8>, pos: int) -> Parsed<UbjsonType> {
    match parse_marker(data, pos) {
        Err(e) => Err(e),
        Ok((kind, next)) => if kind.primitive() {
            Ok((kind, next))
        } else {
            Err((ErrorKind::UnsupportedType, next))
        },
    }
}

/// A strongly-typed array behind its `$`: the kind; then either `#`, the
/// count and that many payloads, or payloads up to the end marker.
pub open spec fn parse_typed_array(
    data: Seq<u8>,
    pos: int,
    depth: nat,
    max_depth: usize,
    max_size: usize,
) -> Parsed<ValueModel> {
    match parse_declared_kind(data, pos) {
        Err(e) => Err(e),
        Ok((kind, next)) => if 0 <= next < data.len() && data[next] == COUNT_MARKER {
            match parse_length(data, next + 1) {
                Err(e) => Err(e),
                Ok((count, start)) => match parse_counted_payloads(
                    data,
                    start,
                    kind,
                    depth,
                    max_depth,
                    count as nat,
                    max_size,
                    Seq::empty(),
                ) {
                    Err(e) => Err(e),
                    Ok((elements, after)) => Ok(
                        (
                            ValueModel::StronglyTypedArray {
                                element_type: kind,
                                count: Some(count),
                                elements,
                            },
                            after,
                        ),
                    ),
                },
            }
        } else {
            match parse_open_payloads(data, next, kind, depth, max_depth, max_size, Seq::empty()) {
                Err(e) => Err(e),
                Ok((elements, after)) => Ok(
                    (
                        ValueModel::StronglyTypedArray { element_type: kind, count: None, elements },
                        after,
                    ),
                ),
            }
        },
    }
}

/// A strongly-typed object behind its `$`: the kind; then either `#`, the
/// count and that many pairs, or pairs up to the end marker.
pub open spec fn parse_typed_object(
    data: Seq<u8>,
    pos: int,
    depth: nat,
    max_depth: usize,
    max_size: usize,
) -> Parsed<ValueModel> {
    match parse_declared_kind(data, pos) {
        Err(e) => Err(e),
        Ok((kind, next)) => if 0 <= next < data.len() && data[next] == COUNT_MARKER {
            match parse_length(data, next + 1) {
                Err(e) => Err(e),
                Ok((count, start)) => match parse_counted_pairs(
                    data,
                    start,
                    kind,
                    depth,
                    max_depth,
                    count as nat,
                    max_size,
                    Seq::empty(),
                ) {
                    Err(e) => Err(e),
                    Ok((pairs, after)) => Ok(
                        (
                            ValueModel::StronglyTypedObject {
                                value_type: kind,
                                count: Some(count),
                                pairs,
                            },
                            after,
                        ),
                    ),
                },
            }
        } else {
            match parse_open_pairs(data, next, kind, depth, max_depth, max_size, Seq::empty()) {
                Err(e) => Err(e),
                Ok((pairs, after)) => Ok(
                    (ValueModel::StronglyTypedObject { value_type: kind, count: None, pairs }, after),
                ),
            }
        },
    }
}

/// The value at `pos`, at nesting depth `depth`: its marker, and what the
/// marker announces.
pub open spec fn parse_value(
    data: Seq<u8>,
    pos: int,
    depth: nat,
    max_depth: usize,
    max_size: usize,
) -> Parsed<ValueModel>
    decreases max_depth - depth, 0int, data.len() - pos, 1int,
{
    if depth >= max_depth {
        Err((ErrorKind::DepthLimitExceeded(max_depth), pos))
    } else {
        match parse_marker(data, pos) {
            Err(e) => Err(e),
            Ok((marker, _)) => parse_marked(data, pos + 1, marker, depth, max_depth, max_size),
        }
    }
}

/// The value whose marker has been read and whose payload or body starts
/// at `pos`. Padding is followed by the value that it stands before, at the
/// same depth. The body of a container lies one level deeper. An end marker
/// is no value.
pub open spec fn parse_marked(
    data: Seq<u8>,
    pos: int,
    marker: UbjsonType,
    depth: nat,
    max_depth: usize,
    max_size: usize,
) -> Parsed<ValueModel>
    decreases max_depth - depth, 0int, data.len() - pos, 2int,
{
    match marker {
        UbjsonType::NoOp => parse_value(data, pos, depth, max_depth, max_size),
        UbjsonType::ArrayStart => if depth + 1 > max_depth {
            Err((ErrorKind::DepthLimitExceeded(max_depth), pos))
        } else {
            parse_array(data, pos, depth + 1, max_depth, max_size)
        },
        UbjsonType::ObjectStart => if depth + 1 > max_depth {
            Err((ErrorKind::DepthLimitExceeded(max_depth), pos))
        } else {
            parse_object(data, pos, depth + 1, max_depth, max_size)
        },
        UbjsonType::ArrayEnd | UbjsonType::ObjectEnd => Err((ErrorKind::InvalidFormat, pos)),
        _ => parse_payload(data, pos, marker),
    }
}

/// The body of an array, whose elements lie at `depth`. `$` opens the
/// strongly-typed form; `#` in its place is a count without a kind, which
/// the format does not have.
pub open spec fn parse_array(
    data: Seq<u8>,
    pos: int,
    depth: nat,
    max_depth: usize,
    max_size: usize,
) -> Parsed<ValueModel>
    decreases max_depth - depth, 2int, 0int, 0int,
{
    if 0 <= pos < data.len() && data[pos] == TYPE_MARKER {
        parse_typed_array(data, pos + 1, depth, max_depth, max_size)
    } else if 0 <= pos < data.len() && data[pos] == COUNT_MARKER {
        Err((ErrorKind::InvalidFormat, pos + 1))
    } else {
        parse_items(data, pos, depth, max_depth, max_size, Seq::empty())
    }
}

/// The elements of an array behind those in `done`, up to the end marker.
pub open spec fn parse_items(
    data: Seq<u8>,
    pos: int,
    depth: nat,
    max_depth: usize,
    max_size: usize,
    done: Seq<ValueModel>,
) -> Parsed<ValueModel>
    decreases max_depth - depth, 1int, max_size - done.len(), 0int,
{
    if done.len() >= max_size {
        Err((ErrorKind::SizeLimitExceeded(max_size), pos))
    } else {
        match parse_marker(data, pos) {
            Err(e) => Err(e),
            Ok((marker, _)) => if marker is ArrayEnd {
                Ok((ValueModel::Array(done), pos + 1))
            } else if depth >= max_depth {
                Err((ErrorKind::DepthLimitExceeded(max_depth), pos + 1))
            } else {
                match parse_marked(data, pos + 1, marker, depth, max_depth, max_size) {
                    Err(e) => Err(e),
                    Ok((value, next)) => parse_items(
                        data,
                        next,
                        depth,
                        max_depth,
                        max_size,
                        done.push(value),
                    ),
                }
            },
        }
    }
}

/// The body of an object, whose values lie at `depth`.
pub open spec fn parse_object(
    data: Seq<u8>,
    pos: int,
    depth: nat,
    max_depth: usize,
    max_size: usize,
) -> Parsed<ValueModel>
    decreases max_depth - depth, 2int, 0int, 0int,
{
    if 0 <= pos < data.len() && data[pos] == TYPE_MARKER {
        parse_typed_object(data, pos + 1, depth, max_depth, max_size)
    } else if 0 <= pos < data.len() && data[pos] == COUNT_MARKER {
        Err((ErrorKind::InvalidFormat, pos + 1))
    } else {
        parse_pairs(data, pos, depth, max_depth, max_size, Seq::empty())
    }
}

/// The pairs of an object behind those in `done`, up to the end marker. A
/// key is a length and UTF-8 bytes, without a marker of its own, and may
/// not be in `done`.
pub open spec fn parse_pairs(
    data: Seq<u8>,
    pos: int,
    depth: nat,
    max_depth: usize,
    max_size: usize,
    done: Seq<(Seq<char>, ValueModel)>,
) -> Parsed<ValueModel>
    decreases max_depth - depth, 1int, max_size - done.len(), 0int,
{
    if done.len() >= max_size {
        Err((ErrorKind::SizeLimitExceeded(max_size), pos))
    } else if !(0 <= pos < data.len()) {
        Err((ErrorKind::Io, data.len() as int))
    } else if data[pos] == UbjsonType::ObjectEnd.byte() {
        Ok((ValueModel::Object(done), pos + 1))
    } else {
        match parse_text(data, pos) {
            Err(e) => Err(e),
            Ok((key, next)) => if has_key(done, key) {
                Err((ErrorKind::InvalidFormat, next))
            } else {
                match parse_value(data, next, depth, max_depth, max_size) {
                    Err(e) => Err(e),
                    Ok((value, after)) => parse_pairs(
                        data,
                        after,
                        depth,
                        max_depth,
                        max_size,
                        done.push((key, value)),
                    ),
                }
            },
        }
    }
}

/// The value that the input starts with. What follows it is not read.
pub open spec fn decode(data: Seq<u8>, max_depth: usize, max_size: usize) -> Result<
    ValueModel,
    ErrorKind,
> {
    match parse_value(data, 0, 0, max_depth, max_size) {
        Ok((value, _)) => Ok(value),
        Err((kind, _)) => Err(kind),
    }
}

/// Turns bytes into values.
pub struct UbjsonDeserializer<'a> {
    reader: ByteReader<'a>,
    max_depth: usize,
    max_size: usize,
    current_depth: usize,
}

/// Whether a byte is the ASCII code of a decimal digit.
fn is_digit_byte(byte: u8) -> (result: bool)
    ensures
        result == (0x30 <= byte <= 0x39),
{
    0x30 <= byte && byte <= 0x39
}

/// Whether a byte is the ASCII code of a plus or minus sign.
fn is_sign_byte(byte: u8) -> (result: bool)
    ensures
        result == (byte == 0x2B || byte == 0x2D),
{
    byte == 0x2B || byte == 0x2D
}

/// Text that obeys the grammar of high-precision numbers is ASCII.
proof fn lemma_high_precision_is_ascii(text: Seq<char>)
    requires
        is_high_precision(text),
    ensures
        is_ascii_chars(text),
{
    let start = mantissa_start(text);
    let mark = exponent_position(text, start);
    lemma_exponent_position(text, start);
    assert forall|i: int| 0 <= i < text.len() implies '\0' <= #[trigger] text[i] <= '\u{7f}' by {
        if i < start {
        } else if i < mark {
            assert(is_digit(text[i]) || text[i] == '.');
        } else if i == mark {
        } else if i < exponent_digits_start(text, mark) {
        } else {
            assert(is_digit(text[i]));
        }
    }
}

/// The first exponent mark at or behind `from` lies in the text or at its
/// end, is an exponent mark if it lies in the text, and has none before it.
proof fn lemma_exponent_position(text: Seq<char>, from: int)
    requires
        0 <= from <= text.len(),
    ensures
        from <= exponent_position(text, from) <= text.len(),
        exponent_position(text, from) < text.len() ==> is_exponent_mark(
            text[exponent_position(text, from)],
        ),
        forall|i: int|
            from <= i < exponent_position(text, from) ==> !is_exponent_mark(#[trigger] text[i]),
    decreases text.len() - from,
{
    if from < text.len() && !is_exponent_mark(text[from]) {
        lemma_exponent_position(text, from + 1);
    }
}

impl<'a> UbjsonDeserializer<'a> {
    /// The whole input.
    pub closed spec fn input(&self) -> Seq<u8> {
        self.reader.bytes()
    }

    /// How many bytes of the input have been read.
    pub closed spec fn position(&self) -> int {
        self.reader.offset()
    }

    /// The depth at which the next value is read.
    pub closed spec fn depth(&self) -> usize {
        self.current_depth
    }

    /// The depth below which values must lie.
    pub closed spec fn depth_limit(&self) -> usize {
        self.max_depth
    }

    /// The number of entries at which a container is full.
    pub closed spec fn size_limit(&self) -> usize {
        self.max_size
    }

    /// What reading does to the decoder: input and settings stay, and the
    /// position does not go back.
    spec fn moved(before: UbjsonDeserializer<'a>, after: UbjsonDeserializer<'a>) -> bool {
        &&& after.reader.bytes() == before.reader.bytes()
        &&& after.max_depth == before.max_depth
        &&& after.max_size == before.max_size
        &&& after.current_depth == before.current_depth
        &&& after.reader.offset() >= before.reader.offset()
    }

    /// What reading a value does to the decoder: the value is what stands
    /// at the old position, and the new position lies behind it.
    spec fn value_step(
        before: UbjsonDeserializer<'a>,
        after: UbjsonDeserializer<'a>,
        result: Result<UbjsonValue, UbjsonError>,
        expected: Parsed<ValueModel>,
    ) -> bool {
        &&& Self::moved(before, after)
        &&& match result {
            Ok(value) => expected == Ok::<(ValueModel, int), (ErrorKind, int)>(
                (value@, after.reader.offset()),
            ),
            Err(e) => expected == Err::<(ValueModel, int), (ErrorKind, int)>(
                (e.kind(), after.reader.offset()),
            ),
        }
    }

    /// A decoder with the default limits.
    pub fn new(reader: ByteReader<'a>) -> (deserializer: UbjsonDeserializer<'a>)
        ensures
            deserializer.input() == reader.bytes(),
            deserializer.position() == reader.offset(),
            deserializer.depth() == 0,
            deserializer.depth_limit() == DEFAULT_MAX_DEPTH,
            deserializer.size_limit() == DEFAULT_MAX_SIZE,
    {
        UbjsonDeserializer {
            reader,
            max_depth: DEFAULT_MAX_DEPTH,
            max_size: DEFAULT_MAX_SIZE,
            current_depth: 0,
        }
    }

    /// A decoder with the given limits.
    pub fn with_limits(reader: ByteReader<'a>, max_depth: usize, max_size: usize) -> (deserializer:
        UbjsonDeserializer<'a>)
        ensures
            deserializer.input() == reader.bytes(),
            deserializer.position() == reader.offset(),
            deserializer.depth() == 0,
            deserializer.depth_limit() == max_depth,
            deserializer.size_limit() == max_size,
    {
        UbjsonDeserializer { reader, max_depth, max_size, current_depth: 0 }
    }

    /// Checks text against the grammar of high-precision numbers.
    pub fn validate_high_precision_number(&self, value: &str) -> (result: Result<(), UbjsonError>)
        ensures
            match result {
                Ok(()) => is_high_precision(value@),
                Err(e) => !is_high_precision(value@) && e.kind() == ErrorKind::InvalidHighPrecision,
            },
    {
        broadcast use is_ascii_spec_bytes;

        let ghost text = value@;
        if !value.is_ascii() {
            proof {
                if is_high_precision(text) {
                    lemma_high_precision_is_ascii(text);
                }
            }
            return Err(
                UbjsonError::InvalidHighPrecision("Invalid character in high-precision number".to_owned()),
            );
        }
        let bytes = value.as_bytes();
        let n = bytes.len();
        assert(n == text.len());
        assert(forall|k: int| 0 <= k < n ==> bytes@[k] == text[k] as u8);
        if n == 0 {
            return Err(
                UbjsonError::InvalidHighPrecision("Empty high-precision number".to_owned()),
            );
        }
        let start: usize = if is_sign_byte(bytes[0]) {
            1
        } else {
            0
        };
        assert(start == mantissa_start(text));
        let mut i: usize = start;
        let mut has_digits = false;
        let mut has_decimal = false;
        while i < n && bytes[i] != 0x65 && bytes[i] != 0x45
            invariant
                start <= i <= n,
                n == text.len(),
                n == bytes@.len(),
                text == value@,
                is_ascii_chars(text),
                start == mantissa_start(text),
                forall|k: int| 0 <= k < n ==> bytes@[k] == text[k] as u8,
                exponent_position(text, start as int) == exponent_position(text, i as int),
                forall|k: int| start <= k < i ==> is_digit(#[trigger] text[k]) || text[k] == '.',
                forall|k: int, j: int|
                    start <= k < j < i ==> !(#[trigger] text[k] == '.' && #[trigger] text[j]
                        == '.'),
                has_digits == exists|k: int| start <= k < i && is_digit(#[trigger] text[k]),
                has_decimal == exists|k: int| start <= k < i && #[trigger] text[k] == '.',
            decreases n - i,
        {
            let byte = bytes[i];
            proof {
                lemma_exponent_position(text, i as int);
                lemma_exponent_position(text, i + 1);
                assert(!is_exponent_mark(text[i as int]));
                assert(exponent_position(text, i as int) == exponent_position(text, i + 1));
            }
            if is_digit_byte(byte) {
                assert(is_digit(text[i as int]));
                has_digits = true;
            } else if byte == 0x2E {
                assert(text[i as int] == '.');
                if has_decimal {
                    return Err(
                        UbjsonError::InvalidHighPrecision(
                            "Invalid decimal point in high-precision number".to_owned(),
                        ),
                    );
                }
                has_decimal = true;
            } else {
                assert(!(is_digit(text[i as int]) || text[i as int] == '.'));
                return Err(
                    UbjsonError::InvalidHighPrecision(
                        "Invalid character in high-precision number".to_owned(),
                    ),
                );
            }
            i = i + 1;
        }
        let mark = i;
        proof {
            lemma_exponent_position(text, start as int);
            lemma_exponent_position(text, i as int);
            if i < n {
                assert(is_exponent_mark(text[i as int]));
            }
            assert(exponent_position(text, start as int) == mark);
        }
        if !has_digits {
            return Err(
                UbjsonError::InvalidHighPrecision("No digits found in high-precision number".to_owned()),
            );
        }
        if i < n {
            i = i + 1;
            if i < n && is_sign_byte(bytes[i]) {
                i = i + 1;
            }
            assert(i == exponent_digits_start(text, mark as int));
            while i < n
                invariant
                    mark < n,
                    exponent_digits_start(text, mark as int) <= i <= n,
                    n == text.len(),
                    n == bytes@.len(),
                    text == value@,
                    exponent_position(text, mantissa_start(text)) == mark,
                    forall|k: int|
                        mantissa_start(text) <= k < mark ==> is_digit(#[trigger] text[k])
                            || text[k] == '.',
                    forall|k: int, j: int|
                        mantissa_start(text) <= k < j < mark ==> !(#[trigger] text[k] == '.'
                            && #[trigger] text[j] == '.'),
                    exists|k: int| mantissa_start(text) <= k < mark && is_digit(#[trigger] text[k]),
                    forall|k: int| 0 <= k < n ==> bytes@[k] == text[k] as u8,
                    is_ascii_chars(text),
                    forall|k: int|
                        exponent_digits_start(text, mark as int) <= k < i ==> is_digit(
                            #[trigger] text[k],
                        ),
                decreases n - i,
            {
                if !is_digit_byte(bytes[i]) {
                    assert(!is_digit(text[i as int]));
                    return Err(
                        UbjsonError::InvalidHighPrecision(
                            "Invalid character in high-precision number".to_owned(),
                        ),
                    );
                }
                assert(is_digit(text[i as int]));
                i = i + 1;
            }
        }
        Ok(())
    }

    /// Reads one value. Where there is none, the reason is returned and the
    /// decoder stays where reading stopped.
    pub fn deserialize_value(&mut self) -> (result: Result<UbjsonValue, UbjsonError>)
        ensures
            final(self).input() == old(self).input(),
            final(self).depth() == old(self).depth(),
            final(self).depth_limit() == old(self).depth_limit(),
            final(self).size_limit() == old(self).size_limit(),
            match result {
                Ok(value) => parse_value(
                    old(self).input(),
                    old(self).position(),
                    old(self).depth() as nat,
                    old(self).depth_limit(),
                    old(self).size_limit(),
                ) == Ok::<(ValueModel, int), (ErrorKind, int)>((value@, final(self).position())),
                Err(e) => parse_value(
                    old(self).input(),
                    old(self).position(),
                    old(self).depth() as nat,
                    old(self).depth_limit(),
                    old(self).size_limit(),
                ) == Err::<(ValueModel, int), (ErrorKind, int)>((e.kind(), final(self).position())),
            },
    {
        self.read_value()
    }

    /// Reads the value at the current position: its marker, and what the
    /// marker announces.
    fn read_value(&mut self) -> (result: Result<UbjsonValue, UbjsonError>)
        ensures
            Self::value_step(
                *old(self),
                *final(self),
                result,
                parse_value(
                    old(self).reader.bytes(),
                    old(self).reader.offset(),
                    old(self).current_depth as nat,
                    old(self).max_depth,
                    old(self).max_size,
                ),
            ),
        decreases
                old(self).max_depth - old(self).current_depth,
                0int,
                old(self).reader.bytes().len() - old(self).reader.offset(),
                1int,
    {
        if self.current_depth >= self.max_depth {
            return Err(UbjsonError::DepthLimitExceeded(self.max_depth));
        }
        let type_marker = match read_type_marker(&mut self.reader) {
            Ok(type_marker) => type_marker,
            Err(e) => {
                return Err(e);
            },
        };
        self.deserialize_value_with_type(type_marker)
    }

    /// Reads the value whose marker has been read.
    fn deserialize_value_with_type(&mut self, type_marker: UbjsonType) -> (result: Result<
        UbjsonValue,
        UbjsonError,
    >)
        ensures
            Self::value_step(
                *old(self),
                *final(self),
                result,
                parse_marked(
                    old(self).reader.bytes(),
                    old(self).reader.offset(),
                    type_marker,
                    old(self).current_depth as nat,
                    old(self).max_depth,
                    old(self).max_size,
                ),
            ),
        decreases
                old(self).max_depth - old(self).current_depth,
                0int,
                old(self).reader.bytes().len() - old(self).reader.offset(),
                2int,
    {
        match type_marker {
            UbjsonType::NoOp => self.read_value(),
            UbjsonType::ArrayStart => {
                if self.current_depth >= self.max_depth {
                    return Err(UbjsonError::DepthLimitExceeded(self.max_depth));
                }
                self.current_depth = self.current_depth + 1;
                let result = self.deserialize_array();
                self.current_depth = self.current_depth - 1;
                result
            },
            UbjsonType::ObjectStart => {
                if self.current_depth >= self.max_depth {
                    return Err(UbjsonError::DepthLimitExceeded(self.max_depth));
                }
                self.current_depth = self.current_depth + 1;
                let result = self.deserialize_object();
                self.current_depth = self.current_depth - 1;
                result
            },
            UbjsonType::ArrayEnd | UbjsonType::ObjectEnd => Err(
                UbjsonError::InvalidFormat("Unexpected container end marker".to_owned()),
            ),
            _ => self.read_payload(type_marker),
        }
    }

    /// Reads the body of an array, whose elements lie at the current depth.
    fn deserialize_array(&mut self) -> (result: Result<UbjsonValue, UbjsonError>)
        ensures
            Self::value_step(
                *old(self),
                *final(self),
                result,
                parse_array(
                    old(self).reader.bytes(),
                    old(self).reader.offset(),
                    old(self).current_depth as nat,
                    old(self).max_depth,
                    old(self).max_size,
                ),
            ),
        decreases old(self).max_depth - old(self).current_depth, 2int, 0int, 0int,
    {
        match self.reader.peek() {
            Some(byte) => {
                if byte == TYPE_MARKER {
                    let _ = self.reader.read_byte();
                    return self.deserialize_typed_array();
                }
                if byte == COUNT_MARKER {
                    let _ = self.reader.read_byte();
                    return Err(
                        UbjsonError::InvalidFormat(
                            "Count marker before type marker in container".to_owned(),
                        ),
                    );
                }
            },
            None => {},
        }
        let mut elements: Vec<UbjsonValue> = Vec::new();
        assert(view_all(elements@) =~= Seq::empty());
        loop
            invariant
                Self::moved(*old(self), *self),
                parse_array(
                    old(self).reader.bytes(),
                    old(self).reader.offset(),
                    old(self).current_depth as nat,
                    old(self).max_depth,
                    old(self).max_size,
                ) == parse_items(
                    self.reader.bytes(),
                    self.reader.offset(),
                    self.current_depth as nat,
                    self.max_depth,
                    self.max_size,
                    view_all(elements@),
                ),
            decreases self.max_size - elements.len(),
        {
            if elements.len() >= self.max_size {
                return Err(UbjsonError::SizeLimitExceeded(self.max_size));
            }
            let type_marker = match read_type_marker(&mut self.reader) {
                Ok(type_marker) => type_marker,
                Err(e) => {
                    return Err(e);
                },
            };
            if type_marker == UbjsonType::ArrayEnd {
                proof {
                    lemma_view_array(elements);
                }
                return Ok(UbjsonValue::Array(elements));
            }
            if self.current_depth >= self.max_depth {
                return Err(UbjsonError::DepthLimitExceeded(self.max_depth));
            }
            let element = match self.deserialize_value_with_type(type_marker) {
                Ok(element) => element,
                Err(e) => {
                    return Err(e);
                },
            };
            let ghost before = view_all(elements@);
            elements.push(element);
            assert(view_all(elements@) =~= before.push(element@));
        }
    }

    /// Reads the body of an object, whose values lie at the current depth.
    fn deserialize_object(&mut self) -> (result: Result<UbjsonValue, UbjsonError>)
        ensures
            Self::value_step(
                *old(self),
                *final(self),
                result,
                parse_object(
                    old(self).reader.bytes(),
                    old(self).reader.offset(),
                    old(self).current_depth as nat,
                    old(self).max_depth,
                    old(self).max_size,
                ),
            ),
        decreases old(self).max_depth - old(self).current_depth, 2int, 0int, 0int,
    {
        match self.reader.peek() {
            Some(byte) => {
                if byte == TYPE_MARKER {
                    let _ = self.reader.read_byte();
                    return self.deserialize_typed_object();
                }
                if byte == COUNT_MARKER {
                    let _ = self.reader.read_byte();
                    return Err(
                        UbjsonError::InvalidFormat(
                            "Count marker before type marker in container".to_owned(),
                        ),
                    );
                }
            },
            None => {},
        }
        let mut pairs = UbjsonMap::new();
        loop
            invariant
                Self::moved(*old(self), *self),
                parse_object(
                    old(self).reader.bytes(),
                    old(self).reader.offset(),
                    old(self).current_depth as nat,
                    old(self).max_depth,
                    old(self).max_size,
                ) == parse_pairs(
                    self.reader.bytes(),
                    self.reader.offset(),
                    self.current_depth as nat,
                    self.max_depth,
                    self.max_size,
                    pairs@,
                ),
            decreases self.max_size - pairs@.len(),
        {
            if pairs.len() >= self.max_size {
                return Err(UbjsonError::SizeLimitExceeded(self.max_size));
            }
            match self.reader.peek() {
                None => {
                    return Err(UbjsonError::Io(IoFailure::UnexpectedEof));
                },
                Some(byte) => {
                    if byte == UbjsonType::ObjectEnd.to_byte() {
                        let _ = self.reader.read_byte();
                        return Ok(UbjsonValue::Object(pairs));
                    }
                },
            }
            let key = match read_string(&mut self.reader) {
                Ok(key) => key,
                Err(e) => {
                    return Err(e);
                },
            };
            if pairs.contains_key(key.as_str()) {
                return Err(UbjsonError::InvalidFormat("Duplicate key in object".to_owned()));
            }
            let value = match self.read_value() {
                Ok(value) => value,
                Err(e) => {
                    return Err(e);
                },
            };
            let _ = pairs.insert(key, value);
        }
    }

    /// Reads the payload of a primitive kind.
    fn read_payload(&mut self, kind: UbjsonType) -> (result: Result<UbjsonValue, UbjsonError>)
        ensures
            Self::value_step(
                *old(self),
                *final(self),
                result,
                parse_payload(old(self).reader.bytes(), old(self).reader.offset(), kind),
            ),
    {
        let _ = self.reader.position();
        match kind {
            UbjsonType::Null => Ok(UbjsonValue::Null),
            UbjsonType::True => Ok(UbjsonValue::Bool(true)),
            UbjsonType::False => Ok(UbjsonValue::Bool(false)),
            UbjsonType::Int8 => match read_int8(&mut self.reader) {
                Ok(n) => Ok(UbjsonValue::Int8(n)),
                Err(e) => Err(e),
            },
            UbjsonType::UInt8 => match read_uint8(&mut self.reader) {
                Ok(n) => Ok(UbjsonValue::UInt8(n)),
                Err(e) => Err(e),
            },
            UbjsonType::Int16 => match read_int16(&mut self.reader) {
                Ok(n) => Ok(UbjsonValue::Int16(n)),
                Err(e) => Err(e),
            },
            UbjsonType::Int32 => match read_int32(&mut self.reader) {
                Ok(n) => Ok(UbjsonValue::Int32(n)),
                Err(e) => Err(e),
            },
            UbjsonType::Int64 => match read_int64(&mut self.reader) {
                Ok(n) => Ok(UbjsonValue::Int64(n)),
                Err(e) => Err(e),
            },
            UbjsonType::Float32 => match read_float32(&mut self.reader) {
                Ok(bits) => Ok(UbjsonValue::Float32(bits)),
                Err(e) => Err(e),
            },
            UbjsonType::Float64 => match read_float64(&mut self.reader) {
                Ok(bits) => Ok(UbjsonValue::Float64(bits)),
                Err(e) => Err(e),
            },
            UbjsonType::HighPrecision => match read_string(&mut self.reader) {
                Ok(text) => match self.validate_high_precision_number(text.as_str()) {
                    Ok(()) => Ok(UbjsonValue::HighPrecision(text)),
                    Err(e) => Err(e),
                },
                Err(e) => Err(e),
            },
            UbjsonType::Char => match read_char(&mut self.reader) {
                Ok(c) => Ok(UbjsonValue::Char(c)),
                Err(e) => Err(e),
            },
            UbjsonType::String => match read_string(&mut self.reader) {
                Ok(text) => Ok(UbjsonValue::String(text)),
                Err(e) => Err(e),
            },
            _ => Err(
                UbjsonError::UnsupportedType("Only primitive kinds have a payload".to_owned()),
            ),
        }
    }

    /// Reads one entry of a strongly-typed container: its payload, if the
    /// current depth is below the limit.
    fn read_entry(&mut self, kind: UbjsonType) -> (result: Result<UbjsonValue, UbjsonError>)
        ensures
            Self::value_step(
                *old(self),
                *final(self),
                result,
                parse_entry(
                    old(self).reader.bytes(),
                    old(self).reader.offset(),
                    kind,
                    old(self).current_depth as nat,
                    old(self).max_depth,
                ),
            ),
    {
        if self.current_depth >= self.max_depth {
            return Err(UbjsonError::DepthLimitExceeded(self.max_depth));
        }
        self.read_payload(kind)
    }

    /// Reads the kind that a strongly-typed container declares.
    fn read_declared_kind(&mut self) -> (result: Result<UbjsonType, UbjsonError>)
        ensures
            Self::moved(*old(self), *final(self)),
            match result {
                Ok(kind) => parse_declared_kind(old(self).reader.bytes(), old(self).reader.offset())
                    == Ok::<(UbjsonType, int), (ErrorKind, int)>((kind, final(self).reader.offset())),
                Err(e) => parse_declared_kind(old(self).reader.bytes(), old(self).reader.offset())
                    == Err::<(UbjsonType, int), (ErrorKind, int)>((e.kind(), final(self).reader.offset())),
            },
    {
        match read_type_marker(&mut self.reader) {
            Ok(kind) => if kind.is_primitive() {
                Ok(kind)
            } else {
                Err(
                    UbjsonError::UnsupportedType(
                        "Container types cannot be used in optimized containers".to_owned(),
                    ),
                )
            },
            Err(e) => Err(e),
        }
    }

    /// Reads payloads of one kind until there are `count` of them.
    fn read_counted_payloads(&mut self, kind: UbjsonType, count: usize) -> (result: Result<
        Vec<UbjsonValue>,
        UbjsonError,
    >)
        ensures
            Self::moved(*old(self), *final(self)),
            match result {
                Ok(items) => parse_counted_payloads(
                    old(self).reader.bytes(),
                    old(self).reader.offset(),
                    kind,
                    old(self).current_depth as nat,
                    old(self).max_depth,
                    count as nat,
                    old(self).max_size,
                    Seq::empty(),
                ) == Ok::<(Seq<ValueModel>, int), (ErrorKind, int)>(
                    (view_all(items@), final(self).reader.offset()),
                ),
                Err(e) => parse_counted_payloads(
                    old(self).reader.bytes(),
                    old(self).reader.offset(),
                    kind,
                    old(self).current_depth as nat,
                    old(self).max_depth,
                    count as nat,
                    old(self).max_size,
                    Seq::empty(),
                ) == Err::<(Seq<ValueModel>, int), (ErrorKind, int)>((e.kind(), final(self).reader.offset())),
            },
    {
        let mut items: Vec<UbjsonValue> = Vec::new();
        assert(view_all(items@) =~= Seq::empty());
        while items.len() < count
            invariant
                Self::moved(*old(self), *self),
                parse_counted_payloads(
                    old(self).reader.bytes(),
                    old(self).reader.offset(),
                    kind,
                    old(self).current_depth as nat,
                    old(self).max_depth,
                    count as nat,
                    old(self).max_size,
                    Seq::empty(),
                ) == parse_counted_payloads(
                    self.reader.bytes(),
                    self.reader.offset(),
                    kind,
                    self.current_depth as nat,
                    self.max_depth,
                    count as nat,
                    self.max_size,
                    view_all(items@),
                ),
            decreases count - items.len(),
        {
            if items.len() >= self.max_size {
                return Err(UbjsonError::SizeLimitExceeded(self.max_size));
            }
            let item = match self.read_entry(kind) {
                Ok(item) => item,
                Err(e) => {
                    return Err(e);
                },
            };
            let ghost before = view_all(items@);
            items.push(item);
            assert(view_all(items@) =~= before.push(item@));
        }
        Ok(items)
    }

    /// Reads payloads of one kind up to the end marker of the array.
    fn read_open_payloads(&mut self, kind: UbjsonType) -> (result: Result<
        Vec<UbjsonValue>,
        UbjsonError,
    >)
        ensures
            Self::moved(*old(self), *final(self)),
            match result {
                Ok(items) => parse_open_payloads(
                    old(self).reader.bytes(),
                    old(self).reader.offset(),
                    kind,
                    old(self).current_depth as nat,
                    old(self).max_depth,
                    old(self).max_size,
                    Seq::empty(),
                ) == Ok::<(Seq<ValueModel>, int), (ErrorKind, int)>(
                    (view_all(items@), final(self).reader.offset()),
                ),
                Err(e) => parse_open_payloads(
                    old(self).reader.bytes(),
                    old(self).reader.offset(),
                    kind,
                    old(self).current_depth as nat,
                    old(self).max_depth,
                    old(self).max_size,
                    Seq::empty(),
                ) == Err::<(Seq<ValueModel>, int), (ErrorKind, int)>((e.kind(), final(self).reader.offset())),
            },
    {
        let mut items: Vec<UbjsonValue> = Vec::new();
        assert(view_all(items@) =~= Seq::empty());
        loop
            invariant
                Self::moved(*old(self), *self),
                parse_open_payloads(
                    old(self).reader.bytes(),
                    old(self).reader.offset(),
                    kind,
                    old(self).current_depth as nat,
                    old(self).max_depth,
                    old(self).max_size,
                    Seq::empty(),
                ) == parse_open_payloads(
                    self.reader.bytes(),
                    self.reader.offset(),
                    kind,
                    self.current_depth as nat,
                    self.max_depth,
                    self.max_size,
                    view_all(items@),
                ),
            decreases self.max_size - items.len(),
        {
            if items.len() >= self.max_size {
                return Err(UbjsonError::SizeLimitExceeded(self.max_size));
            }
            match self.reader.peek() {
                None => {
                    return Err(UbjsonError::Io(IoFailure::UnexpectedEof));
                },
                Some(byte) => {
                    if byte == UbjsonType::ArrayEnd.to_byte() {
                        let _ = self.reader.read_byte();
                        return Ok(items);
                    }
                },
            }
            let item = match self.read_entry(kind) {
                Ok(item) => item,
                Err(e) => {
                    return Err(e);
                },
            };
            let ghost before = view_all(items@);
            items.push(item);
            assert(view_all(items@) =~= before.push(item@));
        }
    }

    /// Reads one pair of a strongly-typed object into `pairs`.
    fn read_typed_pair(&mut self, kind: UbjsonType, pairs: &mut UbjsonMap) -> (result: Result<
        (),
        UbjsonError,
    >)
        ensures
            Self::moved(*old(self), *final(self)),
            match result {
                Ok(()) => parse_typed_pair(
                    old(self).reader.bytes(),
                    old(self).reader.offset(),
                    kind,
                    old(self).current_depth as nat,
                    old(self).max_depth,
                    old(pairs)@,
                ) is Ok && final(pairs)@ == old(pairs)@.push(
                    parse_typed_pair(
                        old(self).reader.bytes(),
                        old(self).reader.offset(),
                        kind,
                        old(self).current_depth as nat,
                        old(self).max_depth,
                        old(pairs)@,
                    )->Ok_0.0,
                ) && final(self).reader.offset() == parse_typed_pair(
                    old(self).reader.bytes(),
                    old(self).reader.offset(),
                    kind,
                    old(self).current_depth as nat,
                    old(self).max_depth,
                    old(pairs)@,
                )->Ok_0.1,
                Err(e) => parse_typed_pair(
                    old(self).reader.bytes(),
                    old(self).reader.offset(),
                    kind,
                    old(self).current_depth as nat,
                    old(self).max_depth,
                    old(pairs)@,
                ) == Err::<((Seq<char>, ValueModel), int), (ErrorKind, int)>((e.kind(), final(self).reader.offset())),
            },
    {
        let key = match read_string(&mut self.reader) {
            Ok(key) => key,
            Err(e) => {
                return Err(e);
            },
        };
        if pairs.contains_key(key.as_str()) {
            return Err(UbjsonError::InvalidFormat("Duplicate key in object".to_owned()));
        }
        let value = match self.read_entry(kind) {
            Ok(value) => value,
            Err(e) => {
                return Err(e);
            },
        };
        let _ = pairs.insert(key, value);
        Ok(())
    }

    /// Reads pairs with values of one kind until there are `count` of them.
    fn read_counted_pairs(&mut self, kind: UbjsonType, count: usize) -> (result: Result<
        UbjsonMap,
        UbjsonError,
    >)
        ensures
            Self::moved(*old(self), *final(self)),
            match result {
                Ok(pairs) => parse_counted_pairs(
                    old(self).reader.bytes(),
                    old(self).reader.offset(),
                    kind,
                    old(self).current_depth as nat,
                    old(self).max_depth,
                    count as nat,
                    old(self).max_size,
                    Seq::empty(),
                ) == Ok::<(Seq<(Seq<char>, ValueModel)>, int), (ErrorKind, int)>(
                    (pairs@, final(self).reader.offset()),
                ),
                Err(e) => parse_counted_pairs(
                    old(self).reader.bytes(),
                    old(self).reader.offset(),
                    kind,
                    old(self).current_depth as nat,
                    old(self).max_depth,
                    count as nat,
                    old(self).max_size,
                    Seq::empty(),
                ) == Err::<(Seq<(Seq<char>, ValueModel)>, int), (ErrorKind, int)>((e.kind(), final(self).reader.offset())),
            },
    {
        let mut pairs = UbjsonMap::new();
        while pairs.len() < count
            invariant
                Self::moved(*old(self), *self),
                parse_counted_pairs(
                    old(self).reader.bytes(),
                    old(self).reader.offset(),
                    kind,
                    old(self).current_depth as nat,
                    old(self).max_depth,
                    count as nat,
                    old(self).max_size,
                    Seq::empty(),
                ) == parse_counted_pairs(
                    self.reader.bytes(),
                    self.reader.offset(),
                    kind,
                    self.current_depth as nat,
                    self.max_depth,
                    count as nat,
                    self.max_size,
                    pairs@,
                ),
            decreases count - pairs@.len(),
        {
            if pairs.len() >= self.max_size {
                return Err(UbjsonError::SizeLimitExceeded(self.max_size));
            }
            match self.read_typed_pair(kind, &mut pairs) {
                Ok(()) => {},
                Err(e) => {
                    return Err(e);
                },
            }
        }
        let _ = pairs.len();
        Ok(pairs)
    }

    /// Reads pairs with values of one kind up to the end marker of the
    /// object.
    fn read_open_pairs(&mut self, kind: UbjsonType) -> (result: Result<UbjsonMap, UbjsonError>)
        ensures
            Self::moved(*old(self), *final(self)),
            match result {
                Ok(pairs) => parse_open_pairs(
                    old(self).reader.bytes(),
                    old(self).reader.offset(),
                    kind,
                    old(self).current_depth as nat,
                    old(self).max_depth,
                    old(self).max_size,
                    Seq::empty(),
                ) == Ok::<(Seq<(Seq<char>, ValueModel)>, int), (ErrorKind, int)>(
                    (pairs@, final(self).reader.offset()),
                ),
                Err(e) => parse_open_pairs(
                    old(self).reader.bytes(),
                    old(self).reader.offset(),
                    kind,
                    old(self).current_depth as nat,
                    old(self).max_depth,
                    old(self).max_size,
                    Seq::empty(),
                ) == Err::<(Seq<(Seq<char>, ValueModel)>, int), (ErrorKind, int)>((e.kind(), final(self).reader.offset())),
            },
    {
        let mut pairs = UbjsonMap::new();
        loop
            invariant
                Self::moved(*old(self), *self),
                parse_open_pairs(
                    old(self).reader.bytes(),
                    old(self).reader.offset(),
                    kind,
                    old(self).current_depth as nat,
                    old(self).max_depth,
                    old(self).max_size,
                    Seq::empty(),
                ) == parse_open_pairs(
                    self.reader.bytes(),
                    self.reader.offset(),
                    kind,
                    self.current_depth as nat,
                    self.max_depth,
                    self.max_size,
                    pairs@,
                ),
            decreases self.max_size - pairs@.len(),
        {
            if pairs.len() >= self.max_size {
                return Err(UbjsonError::SizeLimitExceeded(self.max_size));
            }
            match self.reader.peek() {
                None => {
                    return Err(UbjsonError::Io(IoFailure::UnexpectedEof));
                },
                Some(byte) => {
                    if byte == UbjsonType::ObjectEnd.to_byte() {
                        let _ = self.reader.read_byte();
                        return Ok(pairs);
                    }
                },
            }
            match self.read_typed_pair(kind, &mut pairs) {
                Ok(()) => {},
                Err(e) => {
                    return Err(e);
                },
            }
        }
    }

    /// Reads a strongly-typed array behind its `$`.
    fn deserialize_typed_array(&mut self) -> (result: Result<UbjsonValue, UbjsonError>)
        ensures
            Self::value_step(
                *old(self),
                *final(self),
                result,
                parse_typed_array(
                    old(self).reader.bytes(),
                    old(self).reader.offset(),
                    old(self).current_depth as nat,
                    old(self).max_depth,
                    old(self).max_size,
                ),
            ),
    {
        let kind = match self.read_declared_kind() {
            Ok(kind) => kind,
            Err(e) => {
                return Err(e);
            },
        };
        let counted = match self.reader.peek() {
            Some(byte) => byte == COUNT_MARKER,
            None => false,
        };
        if counted {
            let _ = self.reader.read_byte();
            let count = match read_length(&mut self.reader) {
                Ok(count) => count,
                Err(e) => {
                    return Err(e);
                },
            };
            match self.read_counted_payloads(kind, count) {
                Ok(elements) => {
                    proof {
                        lemma_view_typed_array(kind, Some(count), elements);
                    }
                    Ok(
                        UbjsonValue::StronglyTypedArray {
                            element_type: kind,
                            count: Some(count),
                            elements,
                        },
                    )
                },
                Err(e) => Err(e),
            }
        } else {
            match self.read_open_payloads(kind) {
                Ok(elements) => {
                    proof {
                        lemma_view_typed_array(kind, None, elements);
                    }
                    Ok(UbjsonValue::StronglyTypedArray { element_type: kind, count: None, elements })
                },
                Err(e) => Err(e),
            }
        }
    }

    /// Reads a strongly-typed object behind its `$`.
    fn deserialize_typed_object(&mut self) -> (result: Result<UbjsonValue, UbjsonError>)
        ensures
            Self::value_step(
                *old(self),
                *final(self),
                result,
                parse_typed_object(
                    old(self).reader.bytes(),
                    old(self).reader.offset(),
                    old(self).current_depth as nat,
                    old(self).max_depth,
                    old(self).max_size,
                ),
            ),
    {
        let kind = match self.read_declared_kind() {
            Ok(kind) => kind,
            Err(e) => {
                return Err(e);
            },
        };
        let counted = match self.reader.peek() {
            Some(byte) => byte == COUNT_MARKER,
            None => false,
        };
        if counted {
            let _ = self.reader.read_byte();
            let count = match read_length(&mut self.reader) {
                Ok(count) => count,
                Err(e) => {
                    return Err(e);
                },
            };
            match self.read_counted_pairs(kind, count) {
                Ok(pairs) => Ok(
                    UbjsonValue::StronglyTypedObject { value_type: kind, count: Some(count), pairs },
                ),
                Err(e) => Err(e),
            }
        } else {
            match self.read_open_pairs(kind) {
                Ok(pairs) => Ok(
                    UbjsonValue::StronglyTypedObject { value_type: kind, count: None, pairs },
                ),
                Err(e) => Err(e),
            }
        }
    }

    /// How many bytes of the input have been read.
    pub fn bytes_read(&self) -> (count: usize)
        ensures
            count == self.position(),
    {
        self.reader.position()
    }

    /// The current nesting depth.
    pub fn current_depth(&self) -> (depth: usize)
        ensures
            depth == self.depth(),
    {
        self.current_depth
    }

    /// The depth below which values must lie.
    pub fn max_depth(&self) -> (limit: usize)
        ensures
            limit == self.depth_limit(),
    {
        self.max_depth
    }

    /// The number of entries at which a container is full.
    pub fn max_size(&self) -> (limit: usize)
        ensures
            limit == self.size_limit(),
    {
        self.max_size
    }
}

} // verus!
