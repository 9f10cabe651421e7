//! Encoding: from a value to its bytes.
//!
//! [`encode_value`] states which bytes a value has at a nesting depth, or
//! why it has none. [`UbjsonSerializer`] appends exactly those bytes to its
//! output, and leaves the output as it was where the value cannot be
//! encoded.

use vstd::prelude::*;
use vstd::utf8::*;

use crate::encoding::{
    be_bytes, encode_length, encode_text, unsigned, write_char, write_float32, write_float64,
    write_int16, write_int32, write_int64, write_int8, write_length, write_string,
    write_type_marker, write_uint8,
};
use crate::error::{ErrorKind, UbjsonError};
use crate::types::{UbjsonType, COUNT_MARKER, TYPE_MARKER};
use crate::value::{lemma_view_array, lemma_view_typed_array, view_all, UbjsonMap, UbjsonValue, ValueModel};

verus! {

/// The nesting depth up to which an encoder goes unless told otherwise.
pub const DEFAULT_MAX_DEPTH: usize = 1000;

/// The bytes of a primitive value behind its marker. A container has no
/// such bytes.
pub open spec fn encode_payload(value: ValueModel) -> Seq<u8> {
    match value {
        ValueModel::Int8(n) => be_bytes(unsigned(n as int, 1), 1),
        ValueModel::UInt8(n) => be_bytes(n as nat, 1),
        ValueModel::Int16(n) => be_bytes(unsigned(n as int, 2), 2),
        ValueModel::Int32(n) => be_bytes(unsigned(n as int, 4), 4),
        ValueModel::Int64(n) => be_bytes(unsigned(n as int, 8), 8),
        ValueModel::Float32(bits) => be_bytes(bits as nat, 4),
        ValueModel::Float64(bits) => be_bytes(bits as nat, 8),
        ValueModel::HighPrecision(text) => encode_text(text),
        ValueModel::Char(c) => encode_scalar(c as u32),
        ValueModel::String(text) => encode_text(text),
        _ => Seq::empty(),
    }
}

/// Every value is of this kind.
pub open spec fn all_of_kind(items: Seq<ValueModel>, kind: UbjsonType) -> bool {
    forall|i: int| 0 <= i < items.len() ==> (#[trigger] items[i]).kind() == kind
}

/// The values of the pairs, in order.
pub open spec fn values_of(pairs: Seq<(Seq<char>, ValueModel)>) -> Seq<ValueModel> {
    Seq::new(pairs.len(), |i: int| pairs[i].1)
}

/// The one primitive kind that all values share. There is none where there
/// is no value, where the kinds differ, or where the values are containers.
pub open spec fn homogeneous_kind(items: Seq<ValueModel>) -> Option<UbjsonType> {
    if items.len() > 0 && items[0].kind().primitive() && all_of_kind(items, items[0].kind()) {
        Some(items[0].kind())
    } else {
        None
    }
}

/// The payloads of the values, one after the other.
pub open spec fn concat_payloads(items: Seq<ValueModel>) -> Seq<u8>
    decreases items.len(),
{
    if items.len() == 0 {
        Seq::empty()
    } else {
        concat_payloads(items.drop_last()) + encode_payload(items.last())
    }
}

/// The pairs one after the other, each as its key and the payload of its
/// value.
pub open spec fn concat_pairs(pairs: Seq<(Seq<char>, ValueModel)>) -> Seq<u8>
    decreases pairs.len(),
{
    if pairs.len() == 0 {
        Seq::empty()
    } else {
        concat_pairs(pairs.drop_last()) + encode_text(pairs.last().0) + encode_payload(
            pairs.last().1,
        )
    }
}

/// What stands between the start marker and the first entry of a
/// strongly-typed container: `$`, the kind, and, if the container is
/// counted, `#` and the number of entries.
pub open spec fn typed_header(kind: UbjsonType, counted: bool, entries: nat) -> Seq<u8> {
    if counted {
        seq![TYPE_MARKER, kind.byte(), COUNT_MARKER] + encode_length(entries)
    } else {
        seq![TYPE_MARKER, kind.byte()]
    }
}

/// What stands behind the last entry of a strongly-typed container: the end
/// marker, unless the count was written.
pub open spec fn typed_trailer(end: UbjsonType, counted: bool) -> Seq<u8> {
    if counted {
        Seq::empty()
    } else {
        seq![end.byte()]
    }
}

/// A strongly-typed array on the wire. The declared kind must be primitive
/// and every element must be of it. The count that is written is the number
/// of elements.
pub open spec fn encode_typed_array(kind: UbjsonType, counted: bool, items: Seq<ValueModel>)
    -> Result<Seq<u8>, ErrorKind> {
    if !kind.primitive() || !all_of_kind(items, kind) {
        Err(ErrorKind::InvalidFormat)
    } else {
        Ok(
            seq![UbjsonType::ArrayStart.byte()] + typed_header(kind, counted, items.len())
                + concat_payloads(items) + typed_trailer(UbjsonType::ArrayEnd, counted),
        )
    }
}

/// A strongly-typed object on the wire. The declared kind must be primitive
/// and every value must be of it. The count that is written is the number
/// of pairs.
pub open spec fn encode_typed_object(
    kind: UbjsonType,
    counted: bool,
    pairs: Seq<(Seq<char>, ValueModel)>,
) -> Result<Seq<u8>, ErrorKind> {
    if !kind.primitive() || !all_of_kind(values_of(pairs), kind) {
        Err(ErrorKind::InvalidFormat)
    } else {
        Ok(
            seq![UbjsonType::ObjectStart.byte()] + typed_header(kind, counted, pairs.len())
                + concat_pairs(pairs) + typed_trailer(UbjsonType::ObjectEnd, counted),
        )
    }
}

/// A value on the wire at a nesting depth.
///
/// A primitive is its marker and its payload. A container at a depth that
/// is not below `max_depth` has no encoding. An array or object whose
/// entries share one primitive kind takes the strongly-typed, counted form
/// if `optimize` is set; otherwise it is its start marker, its entries one
/// level deeper, and its end marker. The first entry without an encoding
/// decides the failure.
pub open spec fn encode_value(value: ValueModel, depth: nat, optimize: bool, max_depth: usize)
    -> Result<Seq<u8>, ErrorKind>
    decreases value,
{
    match value {
        ValueModel::Array(items) => {
            if depth >= max_depth {
                Err(ErrorKind::DepthLimitExceeded(max_depth))
            } else if optimize && homogeneous_kind(items) is Some {
                encode_typed_array(homogeneous_kind(items)->0, true, items)
            } else {
                match encode_items(items, depth + 1, optimize, max_depth) {
                    Ok(body) => Ok(
                        seq![UbjsonType::ArrayStart.byte()] + body
                            + seq![UbjsonType::ArrayEnd.byte()],
                    ),
                    Err(e) => Err(e),
                }
            }
        },
        ValueModel::Object(pairs) => {
            if depth >= max_depth {
                Err(ErrorKind::DepthLimitExceeded(max_depth))
            } else if optimize && homogeneous_kind(values_of(pairs)) is Some {
                encode_typed_object(homogeneous_kind(values_of(pairs))->0, true, pairs)
            } else {
                match encode_pairs(pairs, depth + 1, optimize, max_depth) {
                    Ok(body) => Ok(
                        seq![UbjsonType::ObjectStart.byte()] + body
                            + seq![UbjsonType::ObjectEnd.byte()],
                    ),
                    Err(e) => Err(e),
                }
            }
        },
        ValueModel::StronglyTypedArray { element_type, count, elements } => {
            if depth >= max_depth {
                Err(ErrorKind::DepthLimitExceeded(max_depth))
            } else {
                encode_typed_array(element_type, count is Some, elements)
            }
        },
        ValueModel::StronglyTypedObject { value_type, count, pairs } => {
            if depth >= max_depth {
                Err(ErrorKind::DepthLimitExceeded(max_depth))
            } else {
                encode_typed_object(value_type, count is Some, pairs)
            }
        },
        _ => Ok(seq![value.kind().byte()] + encode_payload(value)),
    }
}

/// The elements of an array one after the other, each with its marker.
pub open spec fn encode_items(items: Seq<ValueModel>, depth: nat, optimize: bool, max_depth: usize)
    -> Result<Seq<u8>, ErrorKind>
    decreases items,
{
    if items.len() == 0 {
        Ok(Seq::empty())
    } else {
        match encode_items(items.drop_last(), depth, optimize, max_depth) {
            Err(e) => Err(e),
            Ok(front) => match encode_value(items.last(), depth, optimize, max_depth) {
                Err(e) => Err(e),
                Ok(last) => Ok(front + last),
            },
        }
    }
}

/// The pairs of an object one after the other: the key without a marker,
/// then the value with its marker.
pub open spec fn encode_pairs(
    pairs: Seq<(Seq<char>, ValueModel)>,
    depth: nat,
    optimize: bool,
    max_depth: usize,
) -> Result<Seq<u8>, ErrorKind>
    decreases pairs,
{
    if pairs.len() == 0 {
        Ok(Seq::empty())
    } else {
        match encode_pairs(pairs.drop_last(), depth, optimize, max_depth) {
            Err(e) => Err(e),
            Ok(front) => match encode_value(pairs.last().1, depth, optimize, max_depth) {
                Err(e) => Err(e),
                Ok(last) => Ok(front + encode_text(pairs.last().0) + last),
            },
        }
    }
}

/// An array whose leading elements cannot be encoded cannot be encoded
/// either, for the same reason.
pub proof fn lemma_encode_items_failure(
    items: Seq<ValueModel>,
    front: int,
    depth: nat,
    optimize: bool,
    max_depth: usize,
)
    requires
        0 <= front <= items.len(),
        encode_items(items.take(front), depth, optimize, max_depth) is Err,
    ensures
        encode_items(items, depth, optimize, max_depth) == encode_items(
            items.take(front),
            depth,
            optimize,
            max_depth,
        ),
    decreases items.len() - front,
{
    if front < items.len() {
        assert(items.take(front + 1).drop_last() == items.take(front));
        lemma_encode_items_failure(items, front + 1, depth, optimize, max_depth);
    } else {
        assert(items.take(front) == items);
    }
}

/// An object whose leading pairs cannot be encoded cannot be encoded
/// either, for the same reason.
pub proof fn lemma_encode_pairs_failure(
    pairs: Seq<(Seq<char>, ValueModel)>,
    front: int,
    depth: nat,
    optimize: bool,
    max_depth: usize,
)
    requires
        0 <= front <= pairs.len(),
        encode_pairs(pairs.take(front), depth, optimize, max_depth) is Err,
    ensures
        encode_pairs(pairs, depth, optimize, max_depth) == encode_pairs(
            pairs.take(front),
            depth,
            optimize,
            max_depth,
        ),
    decreases pairs.len() - front,
{
    if front < pairs.len() {
        assert(pairs.take(front + 1).drop_last() == pairs.take(front));
        lemma_encode_pairs_failure(pairs, front + 1, depth, optimize, max_depth);
    } else {
        assert(pairs.take(front) == pairs);
    }
}

/// What is written stays in front of what is written after it.
proof fn lemma_prefix_grows(start: Seq<u8>, middle: Seq<u8>, end: Seq<u8>)
    requires
        start.is_prefix_of(middle),
        middle.is_prefix_of(end),
    ensures
        start.is_prefix_of(end),
{
    assert(start =~= end.subrange(0, start.len() as int)) by {
        assert(middle =~= end.subrange(0, middle.len() as int));
        assert(start =~= middle.subrange(0, start.len() as int));
    }
}

/// What is appended to stays in front.
proof fn lemma_prefix_of_sum(start: Seq<u8>, more: Seq<u8>)
    ensures
        start.is_prefix_of(start + more),
{
    assert(start =~= (start + more).subrange(0, start.len() as int));
}

/// Turns values into bytes, which it appends to a buffer of its own.
pub struct UbjsonSerializer {
    writer: Vec<u8>,
    optimize_containers: bool,
    current_depth: usize,
    max_depth: usize,
}

impl UbjsonSerializer {
    /// Default maximum nesting depth.
    pub const DEFAULT_MAX_DEPTH: usize = DEFAULT_MAX_DEPTH;

    /// The bytes written so far.
    pub closed spec fn output(&self) -> Seq<u8> {
        self.writer@
    }

    /// Whether homogeneous containers take the strongly-typed form.
    pub closed spec fn optimizes(&self) -> bool {
        self.optimize_containers
    }

    /// The depth at which the next value is written.
    pub closed spec fn depth(&self) -> usize {
        self.current_depth
    }

    /// The depth below which containers must start.
    pub closed spec fn depth_limit(&self) -> usize {
        self.max_depth
    }

    /// What a step of encoding does to the encoder: the settings stay; the
    /// bytes of the value are appended; and where the value has no bytes,
    /// what was written before is still there.
    spec fn step(
        before: UbjsonSerializer,
        after: UbjsonSerializer,
        result: Result<(), UbjsonError>,
        expected: Result<Seq<u8>, ErrorKind>,
    ) -> bool {
        &&& after.optimize_containers == before.optimize_containers
        &&& after.max_depth == before.max_depth
        &&& after.current_depth == before.current_depth
        &&& match result {
            Ok(()) => expected is Ok && after.writer@ == before.writer@ + expected->Ok_0,
            Err(e) => expected == Err::<Seq<u8>, ErrorKind>(e.kind()) && before.writer@.is_prefix_of(
                after.writer@,
            ),
        }
    }

    /// An encoder that writes behind `writer`, without optimization and
    /// with the default depth limit.
    pub fn new(writer: Vec<u8>) -> (serializer: UbjsonSerializer)
        ensures
            serializer.output() == writer@,
            !serializer.optimizes(),
            serializer.depth() == 0,
            serializer.depth_limit() == DEFAULT_MAX_DEPTH,
    {
        UbjsonSerializer {
            writer,
            optimize_containers: false,
            current_depth: 0,
            max_depth: DEFAULT_MAX_DEPTH,
        }
    }

    /// An encoder with the given optimization setting and the default depth
    /// limit.
    pub fn with_optimization(writer: Vec<u8>, optimize: bool) -> (serializer: UbjsonSerializer)
        ensures
            serializer.output() == writer@,
            serializer.optimizes() == optimize,
            serializer.depth() == 0,
            serializer.depth_limit() == DEFAULT_MAX_DEPTH,
    {
        UbjsonSerializer {
            writer,
            optimize_containers: optimize,
            current_depth: 0,
            max_depth: DEFAULT_MAX_DEPTH,
        }
    }

    /// An encoder with the given depth limit, without optimization.
    pub fn with_depth_limit(writer: Vec<u8>, max_depth: usize) -> (serializer: UbjsonSerializer)
        ensures
            serializer.output() == writer@,
            !serializer.optimizes(),
            serializer.depth() == 0,
            serializer.depth_limit() == max_depth,
    {
        UbjsonSerializer { writer, optimize_containers: false, current_depth: 0, max_depth }
    }

    /// An encoder with the given optimization setting and depth limit.
    pub fn with_settings(writer: Vec<u8>, optimize: bool, max_depth: usize) -> (serializer:
        UbjsonSerializer)
        ensures
            serializer.output() == writer@,
            serializer.optimizes() == optimize,
            serializer.depth() == 0,
            serializer.depth_limit() == max_depth,
    {
        UbjsonSerializer { writer, optimize_containers: optimize, current_depth: 0, max_depth }
    }

    /// Appends the bytes of a value. Where the value has no encoding,
    /// nothing is appended and the reason is returned.
    pub fn serialize_value(&mut self, value: &UbjsonValue) -> (result: Result<(), UbjsonError>)
        ensures
            final(self).optimizes() == old(self).optimizes(),
            final(self).depth() == old(self).depth(),
            final(self).depth_limit() == old(self).depth_limit(),
            match result {
                Ok(()) => encode_value(
                    value@,
                    old(self).depth() as nat,
                    old(self).optimizes(),
                    old(self).depth_limit(),
                ) is Ok && final(self).output() == old(self).output() + encode_value(
                    value@,
                    old(self).depth() as nat,
                    old(self).optimizes(),
                    old(self).depth_limit(),
                )->Ok_0,
                Err(e) => encode_value(
                    value@,
                    old(self).depth() as nat,
                    old(self).optimizes(),
                    old(self).depth_limit(),
                ) == Err::<Seq<u8>, ErrorKind>(e.kind()) && final(self).output() == old(
                    self,
                ).output(),
            },
    {
        let mark = self.writer.len();
        match self.write_value(value) {
            Ok(()) => Ok(()),
            Err(e) => {
                self.writer.truncate(mark);
                Err(e)
            },
        }
    }

    /// Appends the bytes of a value, at whatever depth.
    fn write_value(&mut self, value: &UbjsonValue) -> (result: Result<(), UbjsonError>)
        ensures
            Self::step(
                *old(self),
                *final(self),
                result,
                encode_value(
                    value@,
                    old(self).current_depth as nat,
                    old(self).optimize_containers,
                    old(self).max_depth,
                ),
            ),
        decreases old(self).max_depth - old(self).current_depth, 1int,
    {
        match value {
            UbjsonValue::Null => self.serialize_null(),
            UbjsonValue::Bool(b) => self.serialize_bool(*b),
            UbjsonValue::Int8(n) => self.serialize_int8(*n),
            UbjsonValue::UInt8(n) => self.serialize_uint8(*n),
            UbjsonValue::Int16(n) => self.serialize_int16(*n),
            UbjsonValue::Int32(n) => self.serialize_int32(*n),
            UbjsonValue::Int64(n) => self.serialize_int64(*n),
            UbjsonValue::Float32(bits) => self.serialize_float32(*bits),
            UbjsonValue::Float64(bits) => self.serialize_float64(*bits),
            UbjsonValue::HighPrecision(text) => self.serialize_high_precision(text.as_str()),
            UbjsonValue::Char(c) => self.serialize_char(*c),
            UbjsonValue::String(text) => self.serialize_string(text.as_str()),
            UbjsonValue::Array(items) => {
                proof {
                    lemma_view_array(*items);
                }
                self.serialize_array(items)
            },
            UbjsonValue::Object(map) => self.serialize_object(map),
            UbjsonValue::StronglyTypedArray { element_type, count, elements } => {
                proof {
                    lemma_view_typed_array(*element_type, *count, *elements);
                }
                self.serialize_strongly_typed_array(*element_type, *count, elements)
            },
            UbjsonValue::StronglyTypedObject { value_type, count, pairs } => {
                self.serialize_strongly_typed_object(*value_type, *count, pairs)
            },
        }
    }

    /// Appends a null value.
    fn serialize_null(&mut self) -> (result: Result<(), UbjsonError>)
        ensures
            result is Ok,
            Self::step(
                *old(self),
                *final(self),
                result,
                Ok(seq![UbjsonType::Null.byte()] + encode_payload(ValueModel::Null)),
            ),
    {
        let result = write_type_marker(&mut self.writer, UbjsonType::Null);
        assert(self.writer@ == old(self).writer@ + (seq![UbjsonType::Null.byte()]
            + encode_payload(ValueModel::Null)));
        result
    }

    /// Appends a boolean value.
    fn serialize_bool(&mut self, value: bool) -> (result: Result<(), UbjsonError>)
        ensures
            result is Ok,
            Self::step(
                *old(self),
                *final(self),
                result,
                Ok(
                    seq![ValueModel::Bool(value).kind().byte()] + encode_payload(
                        ValueModel::Bool(value),
                    ),
                ),
            ),
    {
        let type_marker = if value {
            UbjsonType::True
        } else {
            UbjsonType::False
        };
        let result = write_type_marker(&mut self.writer, type_marker);
        assert(self.writer@ == old(self).writer@ + (seq![type_marker.byte()] + encode_payload(
            ValueModel::Bool(value),
        )));
        result
    }

    /// Appends a signed 8-bit integer.
    fn serialize_int8(&mut self, value: i8) -> (result: Result<(), UbjsonError>)
        ensures
            result is Ok,
            Self::step(
                *old(self),
                *final(self),
                result,
                Ok(seq![UbjsonType::Int8.byte()] + encode_payload(ValueModel::Int8(value))),
            ),
    {
        let _ = write_type_marker(&mut self.writer, UbjsonType::Int8);
        let result = write_int8(&mut self.writer, value);
        assert(self.writer@ == old(self).writer@ + (seq![UbjsonType::Int8.byte()] + encode_payload(
            ValueModel::Int8(value),
        )));
        result
    }

    /// Appends an unsigned 8-bit integer.
    fn serialize_uint8(&mut self, value: u8) -> (result: Result<(), UbjsonError>)
        ensures
            result is Ok,
            Self::step(
                *old(self),
                *final(self),
                result,
                Ok(seq![UbjsonType::UInt8.byte()] + encode_payload(ValueModel::UInt8(value))),
            ),
    {
        let _ = write_type_marker(&mut self.writer, UbjsonType::UInt8);
        let result = write_uint8(&mut self.writer, value);
        assert(self.writer@ == old(self).writer@ + (seq![UbjsonType::UInt8.byte()]
            + encode_payload(ValueModel::UInt8(value))));
        result
    }

    /// Appends a signed 16-bit integer.
    fn serialize_int16(&mut self, value: i16) -> (result: Result<(), UbjsonError>)
        ensures
            result is Ok,
            Self::step(
                *old(self),
                *final(self),
                result,
                Ok(seq![UbjsonType::Int16.byte()] + encode_payload(ValueModel::Int16(value))),
            ),
    {
        let _ = write_type_marker(&mut self.writer, UbjsonType::Int16);
        let result = write_int16(&mut self.writer, value);
        assert(self.writer@ == old(self).writer@ + (seq![UbjsonType::Int16.byte()]
            + encode_payload(ValueModel::Int16(value))));
        result
    }

    /// Appends a signed 32-bit integer.
    fn serialize_int32(&mut self, value: i32) -> (result: Result<(), UbjsonError>)
        ensures
            result is Ok,
            Self::step(
                *old(self),
                *final(self),
                result,
                Ok(seq![UbjsonType::Int32.byte()] + encode_payload(ValueModel::Int32(value))),
            ),
    {
        let _ = write_type_marker(&mut self.writer, UbjsonType::Int32);
        let result = write_int32(&mut self.writer, value);
        assert(self.writer@ == old(self).writer@ + (seq![UbjsonType::Int32.byte()]
            + encode_payload(ValueModel::Int32(value))));
        result
    }

    /// Appends a signed 64-bit integer.
    fn serialize_int64(&mut self, value: i64) -> (result: Result<(), UbjsonError>)
        ensures
            result is Ok,
            Self::step(
                *old(self),
                *final(self),
                result,
                Ok(seq![UbjsonType::Int64.byte()] + encode_payload(ValueModel::Int64(value))),
            ),
    {
        let _ = write_type_marker(&mut self.writer, UbjsonType::Int64);
        let result = write_int64(&mut self.writer, value);
        assert(self.writer@ == old(self).writer@ + (seq![UbjsonType::Int64.byte()]
            + encode_payload(ValueModel::Int64(value))));
        result
    }

    /// Appends a 32-bit float, given as its bit pattern.
    fn serialize_float32(&mut self, bits: u32) -> (result: Result<(), UbjsonError>)
        ensures
            result is Ok,
            Self::step(
                *old(self),
                *final(self),
                result,
                Ok(seq![UbjsonType::Float32.byte()] + encode_payload(ValueModel::Float32(bits))),
            ),
    {
        let _ = write_type_marker(&mut self.writer, UbjsonType::Float32);
        let result = write_float32(&mut self.writer, bits);
        assert(self.writer@ == old(self).writer@ + (seq![UbjsonType::Float32.byte()]
            + encode_payload(ValueModel::Float32(bits))));
        result
    }

    /// Appends a 64-bit float, given as its bit pattern.
    fn serialize_float64(&mut self, bits: u64) -> (result: Result<(), UbjsonError>)
        ensures
            result is Ok,
            Self::step(
                *old(self),
                *final(self),
                result,
                Ok(seq![UbjsonType::Float64.byte()] + encode_payload(ValueModel::Float64(bits))),
            ),
    {
        let _ = write_type_marker(&mut self.writer, UbjsonType::Float64);
        let result = write_float64(&mut self.writer, bits);
        assert(self.writer@ == old(self).writer@ + (seq![UbjsonType::Float64.byte()]
            + encode_payload(ValueModel::Float64(bits))));
        result
    }

    /// Appends a high-precision number. The text is written as it is.
    fn serialize_high_precision(&mut self, value: &str) -> (result: Result<(), UbjsonError>)
        ensures
            result is Ok,
            Self::step(
                *old(self),
                *final(self),
                result,
                Ok(
                    seq![UbjsonType::HighPrecision.byte()] + encode_payload(
                        ValueModel::HighPrecision(value@),
                    ),
                ),
            ),
    {
        let _ = write_type_marker(&mut self.writer, UbjsonType::HighPrecision);
        let result = write_string(&mut self.writer, value);
        assert(self.writer@ == old(self).writer@ + (seq![UbjsonType::HighPrecision.byte()]
            + encode_payload(ValueModel::HighPrecision(value@))));
        result
    }

    /// Appends a character.
    fn serialize_char(&mut self, value: char) -> (result: Result<(), UbjsonError>)
        ensures
            result is Ok,
            Self::step(
                *old(self),
                *final(self),
                result,
                Ok(seq![UbjsonType::Char.byte()] + encode_payload(ValueModel::Char(value))),
            ),
    {
        let _ = write_type_marker(&mut self.writer, UbjsonType::Char);
        let result = write_char(&mut self.writer, value);
        assert(self.writer@ == old(self).writer@ + (seq![UbjsonType::Char.byte()] + encode_payload(
            ValueModel::Char(value),
        )));
        result
    }

    /// Appends text.
    fn serialize_string(&mut self, value: &str) -> (result: Result<(), UbjsonError>)
        ensures
            result is Ok,
            Self::step(
                *old(self),
                *final(self),
                result,
                Ok(seq![UbjsonType::String.byte()] + encode_payload(ValueModel::String(value@))),
            ),
    {
        let _ = write_type_marker(&mut self.writer, UbjsonType::String);
        let result = write_string(&mut self.writer, value);
        assert(self.writer@ == old(self).writer@ + (seq![UbjsonType::String.byte()]
            + encode_payload(ValueModel::String(value@))));
        result
    }

    /// Appends an array. Below the depth limit it is written in the
    /// strongly-typed form if that is asked for and possible, and with a
    /// marker on every element otherwise.
    fn serialize_array(&mut self, array: &Vec<UbjsonValue>) -> (result: Result<(), UbjsonError>)
        ensures
            Self::step(
                *old(self),
                *final(self),
                result,
                encode_value(
                    ValueModel::Array(view_all(array@)),
                    old(self).current_depth as nat,
                    old(self).optimize_containers,
                    old(self).max_depth,
                ),
            ),
        decreases old(self).max_depth - old(self).current_depth, 0int,
    {
        if self.current_depth >= self.max_depth {
            return Err(UbjsonError::DepthLimitExceeded(self.max_depth));
        }
        if self.optimize_containers && array.len() > 0 {
            if let Some(element_type) = self.detect_homogeneous_array_type(array) {
                return self.serialize_strongly_typed_array(
                    element_type,
                    Some(array.len()),
                    array,
                );
            }
        }
        let ghost views = view_all(array@);
        let ghost start = self.writer@;
        let ghost depth = (self.current_depth + 1) as nat;
        let _ = write_type_marker(&mut self.writer, UbjsonType::ArrayStart);
        self.current_depth = self.current_depth + 1;
        let mut i: usize = 0;
        while i < array.len()
            invariant
                i <= array.len(),
                views == view_all(array@),
                self.optimize_containers == old(self).optimize_containers,
                self.max_depth == old(self).max_depth,
                self.current_depth == old(self).current_depth + 1,
                old(self).current_depth < old(self).max_depth,
                depth == self.current_depth,
                start == old(self).writer@,
                !(old(self).optimize_containers && homogeneous_kind(views) is Some),
                encode_items(views.take(i as int), depth, self.optimize_containers, self.max_depth)
                    is Ok,
                self.writer@ == start + seq![UbjsonType::ArrayStart.byte()] + encode_items(
                    views.take(i as int),
                    depth,
                    self.optimize_containers,
                    self.max_depth,
                )->Ok_0,
            decreases array.len() - i,
        {
            let ghost before = self.writer@;
            let written = self.write_value(&array[i]);
            proof {
                assert(views.take(i + 1).drop_last() == views.take(i as int));
                assert(views.take(i + 1).last() == array[i as int]@);
            }
            match written {
                Ok(()) => {},
                Err(e) => {
                    self.current_depth = self.current_depth - 1;
                    proof {
                        lemma_encode_items_failure(
                            views,
                            i + 1,
                            depth,
                            self.optimize_containers,
                            self.max_depth,
                        );
                        lemma_prefix_of_sum(
                            start,
                            before.subrange(start.len() as int, before.len() as int),
                        );
                        assert(before =~= start + before.subrange(
                            start.len() as int,
                            before.len() as int,
                        ));
                        lemma_prefix_grows(start, before, self.writer@);
                    }
                    return Err(e);
                },
            }
            i = i + 1;
        }
        self.current_depth = self.current_depth - 1;
        let _ = write_type_marker(&mut self.writer, UbjsonType::ArrayEnd);
        proof {
            assert(views.take(array.len() as int) == views);
            let body = encode_items(views, depth, self.optimize_containers, self.max_depth)->Ok_0;
            assert(self.writer@ == start + (seq![UbjsonType::ArrayStart.byte()] + body
                + seq![UbjsonType::ArrayEnd.byte()]));
        }
        Ok(())
    }

    /// Appends an object. Below the depth limit it is written in the
    /// strongly-typed form if that is asked for and possible; otherwise
    /// every pair is its key, without a marker, and its value, with one.
    fn serialize_object(&mut self, object: &UbjsonMap) -> (result: Result<(), UbjsonError>)
        ensures
            Self::step(
                *old(self),
                *final(self),
                result,
                encode_value(
                    ValueModel::Object(object@),
                    old(self).current_depth as nat,
                    old(self).optimize_containers,
                    old(self).max_depth,
                ),
            ),
        decreases old(self).max_depth - old(self).current_depth, 0int,
    {
        if self.current_depth >= self.max_depth {
            return Err(UbjsonError::DepthLimitExceeded(self.max_depth));
        }
        if self.optimize_containers && object.len() > 0 {
            if let Some(value_type) = self.detect_homogeneous_object_type(object) {
                return self.serialize_strongly_typed_object(
                    value_type,
                    Some(object.len()),
                    object,
                );
            }
        }
        let ghost pairs = object@;
        let ghost start = self.writer@;
        let ghost depth = (self.current_depth + 1) as nat;
        let _ = write_type_marker(&mut self.writer, UbjsonType::ObjectStart);
        self.current_depth = self.current_depth + 1;
        let count = object.len();
        let mut i: usize = 0;
        while i < count
            invariant
                i <= count,
                count == object@.len(),
                pairs == object@,
                self.optimize_containers == old(self).optimize_containers,
                self.max_depth == old(self).max_depth,
                self.current_depth == old(self).current_depth + 1,
                old(self).current_depth < old(self).max_depth,
                depth == self.current_depth,
                start == old(self).writer@,
                !(old(self).optimize_containers && homogeneous_kind(values_of(pairs)) is Some),
                encode_pairs(pairs.take(i as int), depth, self.optimize_containers, self.max_depth)
                    is Ok,
                self.writer@ == start + seq![UbjsonType::ObjectStart.byte()] + encode_pairs(
                    pairs.take(i as int),
                    depth,
                    self.optimize_containers,
                    self.max_depth,
                )->Ok_0,
            decreases count - i,
        {
            let (key, value) = match object.entry_at(i) {
                Some(entry) => entry,
                None => {
                    return Ok(());
                },
            };
            let ghost before = self.writer@;
            let _ = write_string(&mut self.writer, key.as_str());
            let written = self.write_value(value);
            proof {
                assert(pairs.take(i + 1).drop_last() == pairs.take(i as int));
                assert(pairs.take(i + 1).last() == (key@, value@));
                assert(before.is_prefix_of(self.writer@));
            }
            match written {
                Ok(()) => {},
                Err(e) => {
                    self.current_depth = self.current_depth - 1;
                    proof {
                        lemma_encode_pairs_failure(
                            pairs,
                            i + 1,
                            depth,
                            self.optimize_containers,
                            self.max_depth,
                        );
                        lemma_prefix_of_sum(
                            start,
                            before.subrange(start.len() as int, before.len() as int),
                        );
                        assert(before =~= start + before.subrange(
                            start.len() as int,
                            before.len() as int,
                        ));
                        lemma_prefix_grows(start, before, self.writer@);
                    }
                    return Err(e);
                },
            }
            i = i + 1;
        }
        self.current_depth = self.current_depth - 1;
        let _ = write_type_marker(&mut self.writer, UbjsonType::ObjectEnd);
        proof {
            assert(pairs.take(count as int) == pairs);
            let body = encode_pairs(pairs, depth, self.optimize_containers, self.max_depth)->Ok_0;
            assert(self.writer@ == start + (seq![UbjsonType::ObjectStart.byte()] + body
                + seq![UbjsonType::ObjectEnd.byte()]));
        }
        Ok(())
    }

    /// The primitive kind that all elements of an array share, if there is
    /// one.
    fn detect_homogeneous_array_type(&self, array: &Vec<UbjsonValue>) -> (kind: Option<
        UbjsonType,
    >)
        ensures
            kind == homogeneous_kind(view_all(array@)),
    {
        if array.len() == 0 {
            return None;
        }
        let first_type = array[0].get_type();
        if !first_type.is_primitive() {
            return None;
        }
        let ghost views = view_all(array@);
        let mut i: usize = 1;
        while i < array.len()
            invariant
                1 <= i <= array.len(),
                views == view_all(array@),
                first_type == views[0].kind(),
                forall|k: int| 0 <= k < i ==> (#[trigger] views[k]).kind() == first_type,
            decreases array.len() - i,
        {
            if array[i].get_type() != first_type {
                assert(views[i as int].kind() != first_type);
                return None;
            }
            i = i + 1;
        }
        Some(first_type)
    }

    /// The primitive kind that all values of an object share, if there is
    /// one.
    fn detect_homogeneous_object_type(&self, object: &UbjsonMap) -> (kind: Option<UbjsonType>)
        ensures
            kind == homogeneous_kind(values_of(object@)),
    {
        let count = object.len();
        let first_type = match object.entry_at(0) {
            Some((_, value)) => value.get_type(),
            None => {
                return None;
            },
        };
        if !first_type.is_primitive() {
            return None;
        }
        let ghost values = values_of(object@);
        let mut i: usize = 1;
        while i < count
            invariant
                1 <= i <= count,
                count == object@.len(),
                values == values_of(object@),
                first_type == values[0].kind(),
                forall|k: int| 0 <= k < i ==> (#[trigger] values[k]).kind() == first_type,
            decreases count - i,
        {
            match object.entry_at(i) {
                Some((_, value)) => {
                    if value.get_type() != first_type {
                        assert(values[i as int].kind() != first_type);
                        return None;
                    }
                },
                None => {},
            }
            i = i + 1;
        }
        Some(first_type)
    }

    /// Appends an array in the strongly-typed form: the start marker, `$`
    /// and the kind, `#` and the number of elements if `count` is `Some`,
    /// the payloads, and the end marker if `count` is `None`.
    fn serialize_strongly_typed_array(
        &mut self,
        element_type: UbjsonType,
        count: Option<usize>,
        elements: &Vec<UbjsonValue>,
    ) -> (result: Result<(), UbjsonError>)
        ensures
            Self::step(
                *old(self),
                *final(self),
                result,
                if old(self).current_depth >= old(self).max_depth {
                    Err(ErrorKind::DepthLimitExceeded(old(self).max_depth))
                } else {
                    encode_typed_array(element_type, count is Some, view_all(elements@))
                },
            ),
    {
        if self.current_depth >= self.max_depth {
            return Err(UbjsonError::DepthLimitExceeded(self.max_depth));
        }
        if !element_type.is_primitive() {
            return Err(
                UbjsonError::InvalidFormat(
                    "Container types cannot be used in optimized containers".to_owned(),
                ),
            );
        }
        let ghost views = view_all(elements@);
        let ghost start = self.writer@;
        let counted = count.is_some();
        let _ = write_type_marker(&mut self.writer, UbjsonType::ArrayStart);
        self.write_typed_header(element_type, counted, elements.len());
        let ghost head = seq![UbjsonType::ArrayStart.byte()] + typed_header(
            element_type,
            counted,
            views.len(),
        );
        assert(self.writer@ == start + head);
        let mut i: usize = 0;
        while i < elements.len()
            invariant
                i <= elements.len(),
                views == view_all(elements@),
                element_type.primitive(),
                old(self).current_depth < old(self).max_depth,
                self.optimize_containers == old(self).optimize_containers,
                self.max_depth == old(self).max_depth,
                self.current_depth == old(self).current_depth,
                start == old(self).writer@,
                all_of_kind(views.take(i as int), element_type),
                self.writer@ == start + head + concat_payloads(views.take(i as int)),
            decreases elements.len() - i,
        {
            let ghost before = self.writer@;
            let written = self.serialize_value_without_type_marker(&elements[i], element_type);
            proof {
                assert(views.take(i + 1).drop_last() == views.take(i as int));
                assert(views.take(i + 1).last() == elements[i as int]@);
            }
            match written {
                Ok(()) => {
                    assert forall|k: int| 0 <= k < i + 1 implies (#[trigger] views.take(
                        i + 1,
                    )[k]).kind() == element_type by {
                        if k < i {
                            assert(views.take(i as int)[k] == views.take(i + 1)[k]);
                        }
                    }
                },
                Err(e) => {
                    assert(views[i as int].kind() != element_type);
                    proof {
                        lemma_prefix_of_sum(start, head + concat_payloads(views.take(i as int)));
                        assert(start + head + concat_payloads(views.take(i as int)) =~= start + (
                            head + concat_payloads(views.take(i as int))));
                        lemma_prefix_grows(start, before, self.writer@);
                    }
                    return Err(e);
                },
            }
            i = i + 1;
        }
        proof {
            assert(views.take(elements.len() as int) == views);
        }
        if !counted {
            let _ = write_type_marker(&mut self.writer, UbjsonType::ArrayEnd);
        }
        assert(self.writer@ == start + (head + concat_payloads(views) + typed_trailer(
            UbjsonType::ArrayEnd,
            counted,
        )));
        Ok(())
    }

    /// Appends an object in the strongly-typed form: the start marker, `$`
    /// and the kind, `#` and the number of pairs if `count` is `Some`, every
    /// pair as its key and the payload of its value, and the end marker if
    /// `count` is `None`.
    fn serialize_strongly_typed_object(
        &mut self,
        value_type: UbjsonType,
        count: Option<usize>,
        pairs: &UbjsonMap,
    ) -> (result: Result<(), UbjsonError>)
        ensures
            Self::step(
                *old(self),
                *final(self),
                result,
                if old(self).current_depth >= old(self).max_depth {
                    Err(ErrorKind::DepthLimitExceeded(old(self).max_depth))
                } else {
                    encode_typed_object(value_type, count is Some, pairs@)
                },
            ),
    {
        if self.current_depth >= self.max_depth {
            return Err(UbjsonError::DepthLimitExceeded(self.max_depth));
        }
        if !value_type.is_primitive() {
            return Err(
                UbjsonError::InvalidFormat(
                    "Container types cannot be used in optimized containers".to_owned(),
                ),
            );
        }
        let ghost entries = pairs@;
        let ghost start = self.writer@;
        let counted = count.is_some();
        let total = pairs.len();
        let _ = write_type_marker(&mut self.writer, UbjsonType::ObjectStart);
        self.write_typed_header(value_type, counted, total);
        let ghost head = seq![UbjsonType::ObjectStart.byte()] + typed_header(
            value_type,
            counted,
            entries.len(),
        );
        assert(self.writer@ == start + head);
        let mut i: usize = 0;
        while i < total
            invariant
                i <= total,
                total == pairs@.len(),
                entries == pairs@,
                value_type.primitive(),
                old(self).current_depth < old(self).max_depth,
                self.optimize_containers == old(self).optimize_containers,
                self.max_depth == old(self).max_depth,
                self.current_depth == old(self).current_depth,
                start == old(self).writer@,
                all_of_kind(values_of(entries.take(i as int)), value_type),
                self.writer@ == start + head + concat_pairs(entries.take(i as int)),
            decreases total - i,
        {
            let (key, value) = match pairs.entry_at(i) {
                Some(entry) => entry,
                None => {
                    return Ok(());
                },
            };
            let ghost before = self.writer@;
            let _ = write_string(&mut self.writer, key.as_str());
            let written = self.serialize_value_without_type_marker(value, value_type);
            proof {
                assert(entries.take(i + 1).drop_last() == entries.take(i as int));
                assert(entries.take(i + 1).last() == (key@, value@));
                assert(before.is_prefix_of(self.writer@));
            }
            match written {
                Ok(()) => {
                    assert forall|k: int| 0 <= k < i + 1 implies (#[trigger] values_of(
                        entries.take(i + 1),
                    )[k]).kind() == value_type by {
                        if k < i {
                            assert(values_of(entries.take(i as int))[k] == values_of(
                                entries.take(i + 1),
                            )[k]);
                        }
                    }
                },
                Err(e) => {
                    assert(values_of(entries)[i as int].kind() != value_type);
                    proof {
                        lemma_prefix_of_sum(start, head + concat_pairs(entries.take(i as int)));
                        assert(start + head + concat_pairs(entries.take(i as int)) =~= start + (
                            head + concat_pairs(entries.take(i as int))));
                        lemma_prefix_grows(start, before, self.writer@);
                    }
                    return Err(e);
                },
            }
            i = i + 1;
        }
        proof {
            assert(entries.take(total as int) == entries);
            assert forall|k: int| 0 <= k < entries.len() implies (#[trigger] values_of(
                entries,
            )[k]).kind() == value_type by {}
        }
        if !counted {
            let _ = write_type_marker(&mut self.writer, UbjsonType::ObjectEnd);
        }
        assert(self.writer@ == start + (head + concat_pairs(entries) + typed_trailer(
            UbjsonType::ObjectEnd,
            counted,
        )));
        Ok(())
    }

    /// Appends what stands between the start marker and the first entry of
    /// a strongly-typed container.
    fn write_typed_header(&mut self, kind: UbjsonType, counted: bool, entries: usize)
        ensures
            final(self).optimize_containers == old(self).optimize_containers,
            final(self).max_depth == old(self).max_depth,
            final(self).current_depth == old(self).current_depth,
            final(self).writer@ == old(self).writer@ + typed_header(kind, counted, entries as nat),
    {
        self.writer.push(TYPE_MARKER);
        let _ = write_type_marker(&mut self.writer, kind);
        if counted {
            self.writer.push(COUNT_MARKER);
            let _ = write_length(&mut self.writer, entries);
        }
        assert(self.writer@ == old(self).writer@ + typed_header(kind, counted, entries as nat));
    }

    /// Appends the payload of a value of the expected kind, without its
    /// marker. A value of another kind is an `InvalidFormat`, and so is any
    /// value where the expected kind is not primitive.
    fn serialize_value_without_type_marker(
        &mut self,
        value: &UbjsonValue,
        expected_type: UbjsonType,
    ) -> (result: Result<(), UbjsonError>)
        ensures
            Self::step(
                *old(self),
                *final(self),
                result,
                if value@.kind() != expected_type || !expected_type.primitive() {
                    Err(ErrorKind::InvalidFormat)
                } else {
                    Ok(encode_payload(value@))
                },
            ),
    {
        if value.get_type() != expected_type {
            return Err(
                UbjsonError::InvalidFormat(
                    "Value type does not match expected type of the container".to_owned(),
                ),
            );
        }
        let result = match value {
            UbjsonValue::Null => Ok(()),
            UbjsonValue::Bool(_) => Ok(()),
            UbjsonValue::Int8(n) => write_int8(&mut self.writer, *n),
            UbjsonValue::UInt8(n) => write_uint8(&mut self.writer, *n),
            UbjsonValue::Int16(n) => write_int16(&mut self.writer, *n),
            UbjsonValue::Int32(n) => write_int32(&mut self.writer, *n),
            UbjsonValue::Int64(n) => write_int64(&mut self.writer, *n),
            UbjsonValue::Float32(bits) => write_float32(&mut self.writer, *bits),
            UbjsonValue::Float64(bits) => write_float64(&mut self.writer, *bits),
            UbjsonValue::HighPrecision(text) => write_string(&mut self.writer, text.as_str()),
            UbjsonValue::Char(c) => write_char(&mut self.writer, *c),
            UbjsonValue::String(text) => write_string(&mut self.writer, text.as_str()),
            _ => Err(
                UbjsonError::InvalidFormat(
                    "Container types cannot be used in optimized containers".to_owned(),
                ),
            ),
        };
        assert(result is Ok ==> self.writer@ == old(self).writer@ + encode_payload(value@));
        result
    }

    /// The bytes written so far.
    pub fn writer(&self) -> (writer: &Vec<u8>)
        ensures
            writer@ == self.output(),
    {
        &self.writer
    }

    /// The encoder's buffer, open to the caller: what the caller leaves in
    /// it is the encoder's output from then on.
    pub fn writer_mut(&mut self) -> (writer: &mut Vec<u8>)
        ensures
            writer@ == old(self).output(),
            final(self).output() == final(writer)@,
            final(self).optimizes() == old(self).optimizes(),
            final(self).depth() == old(self).depth(),
            final(self).depth_limit() == old(self).depth_limit(),
    {
        &mut self.writer
    }

    /// The encoder's buffer, given up for good.
    pub fn into_writer(self) -> (writer: Vec<u8>)
        ensures
            writer@ == self.output(),
    {
        self.writer
    }
}

} // verus!
