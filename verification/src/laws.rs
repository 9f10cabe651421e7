//! Laws that relate encoding and decoding.
//!
//! The main law is the round trip: what [`encode_value`] writes for a value
//! that has none of the strongly-typed forms in it, [`parse_value`] reads
//! back as that value, provided the value is one that decoding can give at
//! all within its limits.

use vstd::prelude::*;
use vstd::utf8::*;

use crate::deserializer::{
    decode, is_high_precision, parse_array, parse_counted_pairs, parse_counted_payloads,
    parse_declared_kind, parse_items, parse_marked, parse_object, parse_open_pairs,
    parse_entry, parse_open_payloads, parse_pairs, parse_payload, parse_typed_array, parse_typed_object,
    parse_typed_pair, parse_value,
};
use crate::encoding::{
    encode_length, encode_text, holds_at, lemma_be_bytes_len, lemma_char_round_trip,
    lemma_holds_at_split, lemma_limits, lemma_signed_value_round_trip,
    lemma_text_round_trip, lemma_unsigned_round_trip, parse_marker, Parsed,
};
use crate::error::ErrorKind;
use crate::serializer::{
    all_of_kind, encode_items, encode_pairs, encode_payload, encode_typed_array,
    encode_typed_object, encode_value, homogeneous_kind, lemma_encode_items_failure,
    lemma_encode_pairs_failure, values_of,
};
use crate::types::UbjsonType;
use crate::value::{distinct_keys, has_key, same_items, same_pairs, same_value, ValueModel};

verus! {

/// Text whose length in UTF-8 can be read back: it fits a signed 64-bit
/// integer and the platform.
pub open spec fn text_fits(text: Seq<char>) -> bool {
    encode_utf8(text).len() <= usize::MAX && encode_utf8(text).len() <= 0x7FFF_FFFF_FFFF_FFFF
}

/// A value that decoding can give at `depth` within the limits: it has none
/// of the strongly-typed forms in it; it and all that it holds lie below
/// the depth limit; every container in it has room left; no object in it
/// has a key twice; its high-precision numbers obey their grammar; and the
/// lengths of its texts can be read back.
pub open spec fn decodable(value: ValueModel, depth: nat, max_depth: usize, max_size: usize) -> bool
    decreases value,
{
    &&& depth < max_depth
    &&& match value {
        ValueModel::Array(items) => {
            &&& items.len() < max_size
            &&& forall|i: int|
                0 <= i < items.len() ==> decodable(
                    #[trigger] items[i],
                    depth + 1,
                    max_depth,
                    max_size,
                )
        },
        ValueModel::Object(pairs) => {
            &&& pairs.len() < max_size
            &&& distinct_keys(pairs)
            &&& forall|i: int|
                0 <= i < pairs.len() ==> text_fits((#[trigger] pairs[i]).0) && decodable(
                    pairs[i].1,
                    depth + 1,
                    max_depth,
                    max_size,
                )
        },
        ValueModel::StronglyTypedArray { .. } => false,
        ValueModel::StronglyTypedObject { .. } => false,
        ValueModel::HighPrecision(text) => is_high_precision(text) && text_fits(text),
        ValueModel::String(text) => text_fits(text),
        _ => true,
    }
}

/// With a depth limit of zero nothing can be decoded: every input fails
/// with `DepthLimitExceeded(0)`, and not a byte of it is read.
pub proof fn lemma_depth_zero_rejects_all(data: Seq<u8>, pos: int, depth: nat, max_size: usize)
    ensures
        parse_value(data, pos, depth, 0, max_size) == Err::<(ValueModel, int), (ErrorKind, int)>(
            (ErrorKind::DepthLimitExceeded(0), pos),
        ),
{
}

/// Where bytes are held, any front part of them is held.
proof fn lemma_holds_at_prefix(data: Seq<u8>, pos: int, whole: Seq<u8>, front: Seq<u8>)
    requires
        holds_at(data, pos, whole),
        front.is_prefix_of(whole),
    ensures
        holds_at(data, pos, front),
{
    assert forall|i: int| 0 <= i < front.len() implies #[trigger] data[pos + i] == front[i] by {
        assert(front[i] == whole.subrange(0, front.len() as int)[i]);
        assert(data[pos + i] == whole[i]);
    }
}

/// The bytes of a value start with the marker of its kind.
pub proof fn lemma_encoding_starts_with_marker(
    value: ValueModel,
    depth: nat,
    optimize: bool,
    max_depth: usize,
)
    requires
        encode_value(value, depth, optimize, max_depth) is Ok,
    ensures
        encode_value(value, depth, optimize, max_depth)->Ok_0.len() >= 1,
        encode_value(value, depth, optimize, max_depth)->Ok_0[0] == value.kind().byte(),
{
}

/// The elements of an array that can be encoded can be encoded one by one,
/// and the bytes of the first `front` of them are where the bytes of all of
/// them start.
proof fn lemma_encode_items_front(
    items: Seq<ValueModel>,
    front: int,
    depth: nat,
    max_depth: usize,
)
    requires
        0 <= front <= items.len(),
        encode_items(items, depth, false, max_depth) is Ok,
    ensures
        encode_items(items.take(front), depth, false, max_depth) is Ok,
        encode_items(items.take(front), depth, false, max_depth)->Ok_0.is_prefix_of(
            encode_items(items, depth, false, max_depth)->Ok_0,
        ),
        front < items.len() ==> encode_value(items[front], depth, false, max_depth) is Ok
            && encode_items(items.take(front + 1), depth, false, max_depth) == Ok::<
            Seq<u8>,
            ErrorKind,
        >(
            encode_items(items.take(front), depth, false, max_depth)->Ok_0 + encode_value(
                items[front],
                depth,
                false,
                max_depth,
            )->Ok_0,
        ),
    decreases items.len() - front,
{
    if encode_items(items.take(front), depth, false, max_depth) is Err {
        lemma_encode_items_failure(items, front, depth, false, max_depth);
    }
    let whole = encode_items(items, depth, false, max_depth)->Ok_0;
    if front < items.len() {
        lemma_encode_items_front(items, front + 1, depth, max_depth);
        assert(items.take(front + 1).drop_last() == items.take(front));
        assert(items.take(front + 1).last() == items[front]);
        let here = encode_items(items.take(front), depth, false, max_depth)->Ok_0;
        let next = encode_items(items.take(front + 1), depth, false, max_depth)->Ok_0;
        assert(here =~= next.subrange(0, here.len() as int));
        assert(here =~= whole.subrange(0, here.len() as int)) by {
            assert(next =~= whole.subrange(0, next.len() as int));
        }
    } else {
        assert(items.take(front) == items);
        assert(whole =~= whole.subrange(0, whole.len() as int));
    }
}

/// The pairs of an object that can be encoded can be encoded one by one,
/// and the bytes of the first `front` of them are where the bytes of all of
/// them start.
proof fn lemma_encode_pairs_front(
    pairs: Seq<(Seq<char>, ValueModel)>,
    front: int,
    depth: nat,
    max_depth: usize,
)
    requires
        0 <= front <= pairs.len(),
        encode_pairs(pairs, depth, false, max_depth) is Ok,
    ensures
        encode_pairs(pairs.take(front), depth, false, max_depth) is Ok,
        encode_pairs(pairs.take(front), depth, false, max_depth)->Ok_0.is_prefix_of(
            encode_pairs(pairs, depth, false, max_depth)->Ok_0,
        ),
        front < pairs.len() ==> encode_value(pairs[front].1, depth, false, max_depth) is Ok
            && encode_pairs(pairs.take(front + 1), depth, false, max_depth) == Ok::<
            Seq<u8>,
            ErrorKind,
        >(
            encode_pairs(pairs.take(front), depth, false, max_depth)->Ok_0 + encode_text(
                pairs[front].0,
            ) + encode_value(pairs[front].1, depth, false, max_depth)->Ok_0,
        ),
    decreases pairs.len() - front,
{
    if encode_pairs(pairs.take(front), depth, false, max_depth) is Err {
        lemma_encode_pairs_failure(pairs, front, depth, false, max_depth);
    }
    let whole = encode_pairs(pairs, depth, false, max_depth)->Ok_0;
    if front < pairs.len() {
        lemma_encode_pairs_front(pairs, front + 1, depth, max_depth);
        assert(pairs.take(front + 1).drop_last() == pairs.take(front));
        assert(pairs.take(front + 1).last() == pairs[front]);
        let here = encode_pairs(pairs.take(front), depth, false, max_depth)->Ok_0;
        let next = encode_pairs(pairs.take(front + 1), depth, false, max_depth)->Ok_0;
        assert(here =~= next.subrange(0, here.len() as int));
        assert(here =~= whole.subrange(0, here.len() as int)) by {
            assert(next =~= whole.subrange(0, next.len() as int));
        }
    } else {
        assert(pairs.take(front) == pairs);
        assert(whole =~= whole.subrange(0, whole.len() as int));
    }
}

/// The payload of a primitive value that is written is read back as that
/// value.
proof fn lemma_payload_round_trip(value: ValueModel, data: Seq<u8>, pos: int)
    requires
        value.kind().primitive(),
        value is HighPrecision ==> is_high_precision(value->HighPrecision_0) && text_fits(
            value->HighPrecision_0,
        ),
        value is String ==> text_fits(value->String_0),
        holds_at(data, pos, encode_payload(value)),
    ensures
        parse_payload(data, pos, value.kind()) == Ok::<(ValueModel, int), (ErrorKind, int)>(
            (value, pos + encode_payload(value).len()),
        ),
{
    lemma_limits();
    match value {
        ValueModel::Int8(n) => {
            lemma_signed_value_round_trip(data, pos, n as int, 1);
            lemma_be_bytes_len(crate::encoding::unsigned(n as int, 1), 1);
        },
        ValueModel::UInt8(n) => {
            lemma_unsigned_round_trip(data, pos, n as nat, 1);
            lemma_be_bytes_len(n as nat, 1);
        },
        ValueModel::Int16(n) => {
            lemma_signed_value_round_trip(data, pos, n as int, 2);
            lemma_be_bytes_len(crate::encoding::unsigned(n as int, 2), 2);
        },
        ValueModel::Int32(n) => {
            lemma_signed_value_round_trip(data, pos, n as int, 4);
            lemma_be_bytes_len(crate::encoding::unsigned(n as int, 4), 4);
        },
        ValueModel::Int64(n) => {
            lemma_signed_value_round_trip(data, pos, n as int, 8);
            lemma_be_bytes_len(crate::encoding::unsigned(n as int, 8), 8);
        },
        ValueModel::Float32(bits) => {
            lemma_unsigned_round_trip(data, pos, bits as nat, 4);
            lemma_be_bytes_len(bits as nat, 4);
        },
        ValueModel::Float64(bits) => {
            lemma_unsigned_round_trip(data, pos, bits as nat, 8);
            lemma_be_bytes_len(bits as nat, 8);
        },
        ValueModel::HighPrecision(text) => {
            lemma_text_round_trip(data, pos, text);
        },
        ValueModel::Char(c) => {
            lemma_char_round_trip(data, pos, c);
        },
        ValueModel::String(text) => {
            lemma_text_round_trip(data, pos, text);
        },
        _ => {},
    }
}

/// Reading a value is reading its marker and then what the marker
/// announces.
proof fn lemma_value_from_marked(
    value: ValueModel,
    data: Seq<u8>,
    pos: int,
    end: int,
    depth: nat,
    max_depth: usize,
    max_size: usize,
)
    requires
        depth < max_depth,
        0 <= pos < data.len(),
        data[pos] == value.kind().byte(),
        parse_marked(data, pos + 1, value.kind(), depth, max_depth, max_size) == Ok::<
            (ValueModel, int),
            (ErrorKind, int),
        >((value, end)),
    ensures
        parse_value(data, pos, depth, max_depth, max_size) == Ok::<(ValueModel, int), (ErrorKind, int)>(
            (value, end),
        ),
{
    assert(parse_marker(data, pos) == Ok::<(UbjsonType, int), (ErrorKind, int)>(
        (value.kind(), pos + 1),
    ));
}

/// An array whose body is read as its elements is read as the array.
proof fn lemma_array_from_items(
    items: Seq<ValueModel>,
    data: Seq<u8>,
    pos: int,
    end: int,
    depth: nat,
    max_depth: usize,
    max_size: usize,
)
    requires
        depth < max_depth,
        0 <= pos < data.len(),
        data[pos] != crate::types::TYPE_MARKER,
        data[pos] != crate::types::COUNT_MARKER,
        parse_items(data, pos, depth + 1, max_depth, max_size, Seq::empty()) == Ok::<
            (ValueModel, int),
            (ErrorKind, int),
        >((ValueModel::Array(items), end)),
    ensures
        parse_marked(data, pos, UbjsonType::ArrayStart, depth, max_depth, max_size) == Ok::<
            (ValueModel, int),
            (ErrorKind, int),
        >((ValueModel::Array(items), end)),
{
    assert(parse_array(data, pos, depth + 1, max_depth, max_size) == parse_items(
        data,
        pos,
        depth + 1,
        max_depth,
        max_size,
        Seq::empty(),
    ));
}

/// An object whose body is read as its pairs is read as the object.
proof fn lemma_object_from_pairs(
    pairs: Seq<(Seq<char>, ValueModel)>,
    data: Seq<u8>,
    pos: int,
    end: int,
    depth: nat,
    max_depth: usize,
    max_size: usize,
)
    requires
        depth < max_depth,
        0 <= pos < data.len(),
        data[pos] != crate::types::TYPE_MARKER,
        data[pos] != crate::types::COUNT_MARKER,
        parse_pairs(data, pos, depth + 1, max_depth, max_size, Seq::empty()) == Ok::<
            (ValueModel, int),
            (ErrorKind, int),
        >((ValueModel::Object(pairs), end)),
    ensures
        parse_marked(data, pos, UbjsonType::ObjectStart, depth, max_depth, max_size) == Ok::<
            (ValueModel, int),
            (ErrorKind, int),
        >((ValueModel::Object(pairs), end)),
{
    assert(parse_object(data, pos, depth + 1, max_depth, max_size) == parse_pairs(
        data,
        pos,
        depth + 1,
        max_depth,
        max_size,
        Seq::empty(),
    ));
}

/// The body of an array on the wire starts with the marker of its first
/// element or with the end marker, and so with neither `$` nor `#`.
proof fn lemma_array_body_start(
    items: Seq<ValueModel>,
    written_at: nat,
    written_below: usize,
)
    requires
        encode_items(items, written_at, false, written_below) is Ok,
    ensures
        (encode_items(items, written_at, false, written_below)->Ok_0
            + seq![UbjsonType::ArrayEnd.byte()])[0] != crate::types::TYPE_MARKER,
        (encode_items(items, written_at, false, written_below)->Ok_0
            + seq![UbjsonType::ArrayEnd.byte()])[0] != crate::types::COUNT_MARKER,
{
    let body = encode_items(items, written_at, false, written_below)->Ok_0;
    if items.len() > 0 {
        lemma_encode_items_front(items, 0, written_at, written_below);
        lemma_encode_items_front(items, 1, written_at, written_below);
        assert(items.take(0) =~= Seq::<ValueModel>::empty());
        lemma_encoding_starts_with_marker(items[0], written_at, false, written_below);
        let first = encode_value(items[0], written_at, false, written_below)->Ok_0;
        let one = encode_items(items.take(1), written_at, false, written_below)->Ok_0;
        assert(one =~= first);
        assert(one[0] == body.subrange(0, one.len() as int)[0]);
    }
}

/// The body of an object on the wire starts with the length marker of its
/// first key or with the end marker, and so with neither `$` nor `#`.
proof fn lemma_object_body_start(
    pairs: Seq<(Seq<char>, ValueModel)>,
    written_at: nat,
    written_below: usize,
)
    requires
        encode_pairs(pairs, written_at, false, written_below) is Ok,
    ensures
        (encode_pairs(pairs, written_at, false, written_below)->Ok_0
            + seq![UbjsonType::ObjectEnd.byte()])[0] != crate::types::TYPE_MARKER,
        (encode_pairs(pairs, written_at, false, written_below)->Ok_0
            + seq![UbjsonType::ObjectEnd.byte()])[0] != crate::types::COUNT_MARKER,
{
    let body = encode_pairs(pairs, written_at, false, written_below)->Ok_0;
    if pairs.len() > 0 {
        lemma_encode_pairs_front(pairs, 0, written_at, written_below);
        lemma_encode_pairs_front(pairs, 1, written_at, written_below);
        assert(pairs.take(0) =~= Seq::<(Seq<char>, ValueModel)>::empty());
        lemma_text_starts_with_length_marker(pairs[0].0);
        let one = encode_pairs(pairs.take(1), written_at, false, written_below)->Ok_0;
        assert(one[0] == encode_text(pairs[0].0)[0]);
        assert(one[0] == body.subrange(0, one.len() as int)[0]);
    }
}

/// The round trip at a position: where the input holds the bytes of a
/// value, that value is read, and reading ends behind those bytes.
pub proof fn lemma_round_trip_at(
    value: ValueModel,
    data: Seq<u8>,
    pos: int,
    depth: nat,
    max_depth: usize,
    max_size: usize,
    written_at: nat,
    written_below: usize,
)
    requires
        decodable(value, depth, max_depth, max_size),
        encode_value(value, written_at, false, written_below) is Ok,
        holds_at(data, pos, encode_value(value, written_at, false, written_below)->Ok_0),
    ensures
        parse_value(data, pos, depth, max_depth, max_size) == Ok::<(ValueModel, int), (ErrorKind, int)>(
            (value, pos + encode_value(value, written_at, false, written_below)->Ok_0.len()),
        ),
    decreases value, 1nat,
{
    if value is Array {
        lemma_array_round_trip(value, data, pos, depth, max_depth, max_size, written_at, written_below);
    } else if value is Object {
        lemma_object_round_trip(value, data, pos, depth, max_depth, max_size, written_at, written_below);
    } else if value is StronglyTypedArray || value is StronglyTypedObject {
    } else {
        lemma_primitive_round_trip(value, data, pos, depth, max_depth, max_size, written_at, written_below);
    }
}

/// The round trip of a primitive value.
proof fn lemma_primitive_round_trip(
    value: ValueModel,
    data: Seq<u8>,
    pos: int,
    depth: nat,
    max_depth: usize,
    max_size: usize,
    written_at: nat,
    written_below: usize,
)
    requires
        decodable(value, depth, max_depth, max_size),
        encode_value(value, written_at, false, written_below) is Ok,
        holds_at(data, pos, encode_value(value, written_at, false, written_below)->Ok_0),
        value.kind().primitive(),
    ensures
        parse_value(data, pos, depth, max_depth, max_size) == Ok::<(ValueModel, int), (ErrorKind, int)>(
            (value, pos + encode_value(value, written_at, false, written_below)->Ok_0.len()),
        ),
{
    let bytes = encode_value(value, written_at, false, written_below)->Ok_0;
    let kind = value.kind();
    assert(bytes =~= seq![kind.byte()] + encode_payload(value));
    lemma_holds_at_split(data, pos, seq![kind.byte()], encode_payload(value));
    assert(data[pos + 0] == seq![kind.byte()][0]);
    lemma_payload_round_trip(value, data, pos + 1);
    lemma_value_from_marked(value, data, pos, pos + bytes.len(), depth, max_depth, max_size);
}

/// The round trip of an array.
proof fn lemma_array_round_trip(
    value: ValueModel,
    data: Seq<u8>,
    pos: int,
    depth: nat,
    max_depth: usize,
    max_size: usize,
    written_at: nat,
    written_below: usize,
)
    requires
        decodable(value, depth, max_depth, max_size),
        encode_value(value, written_at, false, written_below) is Ok,
        holds_at(data, pos, encode_value(value, written_at, false, written_below)->Ok_0),
        value is Array,
    ensures
        parse_value(data, pos, depth, max_depth, max_size) == Ok::<(ValueModel, int), (ErrorKind, int)>(
            (value, pos + encode_value(value, written_at, false, written_below)->Ok_0.len()),
        ),
    decreases value, 0nat,
{
    let items = value->Array_0;
    let bytes = encode_value(value, written_at, false, written_below)->Ok_0;
    let body = encode_items(items, written_at + 1, false, written_below)->Ok_0;
    let tail = body + seq![UbjsonType::ArrayEnd.byte()];
    assert(bytes =~= seq![UbjsonType::ArrayStart.byte()] + tail);
    lemma_holds_at_split(data, pos, seq![UbjsonType::ArrayStart.byte()], tail);
    assert(data[pos + 0] == seq![UbjsonType::ArrayStart.byte()][0]);
    assert(items.take(0) =~= Seq::<ValueModel>::empty());
    lemma_items_round_trip(
        items,
        0,
        data,
        pos + 1,
        depth + 1,
        max_depth,
        max_size,
        written_at + 1,
        written_below,
    );
    lemma_array_body_start(items, written_at + 1, written_below);
    assert(data[pos + 1 + 0] == tail[0]);
    lemma_array_from_items(items, data, pos + 1, pos + bytes.len(), depth, max_depth, max_size);
    lemma_value_from_marked(value, data, pos, pos + bytes.len(), depth, max_depth, max_size);
}

/// The round trip of an object.
proof fn lemma_object_round_trip(
    value: ValueModel,
    data: Seq<u8>,
    pos: int,
    depth: nat,
    max_depth: usize,
    max_size: usize,
    written_at: nat,
    written_below: usize,
)
    requires
        decodable(value, depth, max_depth, max_size),
        encode_value(value, written_at, false, written_below) is Ok,
        holds_at(data, pos, encode_value(value, written_at, false, written_below)->Ok_0),
        value is Object,
    ensures
        parse_value(data, pos, depth, max_depth, max_size) == Ok::<(ValueModel, int), (ErrorKind, int)>(
            (value, pos + encode_value(value, written_at, false, written_below)->Ok_0.len()),
        ),
    decreases value, 0nat,
{
    let pairs = value->Object_0;
    let bytes = encode_value(value, written_at, false, written_below)->Ok_0;
    let body = encode_pairs(pairs, written_at + 1, false, written_below)->Ok_0;
    let tail = body + seq![UbjsonType::ObjectEnd.byte()];
    assert(bytes =~= seq![UbjsonType::ObjectStart.byte()] + tail);
    lemma_holds_at_split(data, pos, seq![UbjsonType::ObjectStart.byte()], tail);
    assert(data[pos + 0] == seq![UbjsonType::ObjectStart.byte()][0]);
    assert(pairs.take(0) =~= Seq::<(Seq<char>, ValueModel)>::empty());
    lemma_pairs_round_trip(
        pairs,
        0,
        data,
        pos + 1,
        depth + 1,
        max_depth,
        max_size,
        written_at + 1,
        written_below,
    );
    lemma_object_body_start(pairs, written_at + 1, written_below);
    assert(data[pos + 1 + 0] == tail[0]);
    lemma_object_from_pairs(pairs, data, pos + 1, pos + bytes.len(), depth, max_depth, max_size);
    lemma_value_from_marked(value, data, pos, pos + bytes.len(), depth, max_depth, max_size);
}

/// A key on the wire starts with the marker of an integer kind, which is
/// none of the bytes that have a meaning of their own at the start of an
/// object's body.
proof fn lemma_text_starts_with_length_marker(text: Seq<char>)
    ensures
        encode_text(text).len() >= 1,
        encode_text(text)[0] == UbjsonType::UInt8.byte() || encode_text(text)[0]
            == UbjsonType::Int16.byte() || encode_text(text)[0] == UbjsonType::Int32.byte()
            || encode_text(text)[0] == UbjsonType::Int64.byte(),
{
    let head = encode_length(encode_utf8(text).len());
    assert(head.len() >= 1);
    assert(encode_text(text)[0] == head[0]);
}

/// The round trip of the elements of an array: behind the first `done` of
/// them, the rest is read up to the end marker, and the whole array is the
/// result.
proof fn lemma_items_round_trip(
    items: Seq<ValueModel>,
    done: int,
    data: Seq<u8>,
    start: int,
    depth: nat,
    max_depth: usize,
    max_size: usize,
    written_at: nat,
    written_below: usize,
)
    requires
        0 <= done <= items.len(),
        items.len() < max_size,
        forall|i: int|
            0 <= i < items.len() ==> decodable(#[trigger] items[i], depth, max_depth, max_size),
        encode_items(items, written_at, false, written_below) is Ok,
        holds_at(
            data,
            start,
            encode_items(items, written_at, false, written_below)->Ok_0
                + seq![UbjsonType::ArrayEnd.byte()],
        ),
    ensures
        encode_items(items.take(done), written_at, false, written_below) is Ok,
        parse_items(
            data,
            start + encode_items(items.take(done), written_at, false, written_below)->Ok_0.len(),
            depth,
            max_depth,
            max_size,
            items.take(done),
        ) == Ok::<(ValueModel, int), (ErrorKind, int)>(
            (
                ValueModel::Array(items),
                start + encode_items(items, written_at, false, written_below)->Ok_0.len() + 1,
            ),
        ),
    decreases items, items.len() - done,
{
    let body = encode_items(items, written_at, false, written_below)->Ok_0;
    let end = seq![UbjsonType::ArrayEnd.byte()];
    lemma_encode_items_front(items, done, written_at, written_below);
    let front = encode_items(items.take(done), written_at, false, written_below)->Ok_0;
    let here = start + front.len();
    lemma_holds_at_split(data, start, body, end);
    if done == items.len() {
        assert(items.take(done) == items);
        assert(data[start + body.len() + 0] == end[0]);
    } else {
        let item = items[done];
        let bytes = encode_value(item, written_at, false, written_below)->Ok_0;
        lemma_encode_items_front(items, done + 1, written_at, written_below);
        let next = encode_items(items.take(done + 1), written_at, false, written_below)->Ok_0;
        assert(next == front + bytes);
        lemma_holds_at_prefix(data, start, body, next);
        lemma_holds_at_split(data, start, front, bytes);
        lemma_round_trip_at(
            item,
            data,
            here,
            depth,
            max_depth,
            max_size,
            written_at,
            written_below,
        );
        lemma_items_round_trip(
            items,
            done + 1,
            data,
            start,
            depth,
            max_depth,
            max_size,
            written_at,
            written_below,
        );
        assert(items.take(done).push(item) =~= items.take(done + 1));
        lemma_encoding_starts_with_marker(item, written_at, false, written_below);
        assert(data[here + 0] == bytes[0]);
        lemma_items_step(
            data,
            here,
            depth,
            max_depth,
            max_size,
            items.take(done),
            item,
            here + bytes.len(),
            Ok::<(ValueModel, int), (ErrorKind, int)>(
                (ValueModel::Array(items), start + body.len() + 1),
            ),
        );
    }
}

/// One step of reading pairs: a key that is new, its value, and then the
/// rest.
proof fn lemma_pairs_step(
    data: Seq<u8>,
    pos: int,
    depth: nat,
    max_depth: usize,
    max_size: usize,
    done: Seq<(Seq<char>, ValueModel)>,
    key: Seq<char>,
    value: ValueModel,
    after_key: int,
    after_value: int,
    result: Parsed<ValueModel>,
)
    requires
        done.len() < max_size,
        0 <= pos < data.len(),
        data[pos] != UbjsonType::ObjectEnd.byte(),
        crate::encoding::parse_text(data, pos) == Ok::<(Seq<char>, int), (ErrorKind, int)>(
            (key, after_key),
        ),
        !has_key(done, key),
        parse_value(data, after_key, depth, max_depth, max_size) == Ok::<
            (ValueModel, int),
            (ErrorKind, int),
        >((value, after_value)),
        parse_pairs(data, after_value, depth, max_depth, max_size, done.push((key, value)))
            == result,
    ensures
        parse_pairs(data, pos, depth, max_depth, max_size, done) == result,
{
}

/// One step of reading elements: the marker of an element, the element,
/// and then the rest.
proof fn lemma_items_step(
    data: Seq<u8>,
    pos: int,
    depth: nat,
    max_depth: usize,
    max_size: usize,
    done: Seq<ValueModel>,
    value: ValueModel,
    after_value: int,
    result: Parsed<ValueModel>,
)
    requires
        done.len() < max_size,
        depth < max_depth,
        0 <= pos < data.len(),
        data[pos] == value.kind().byte(),
        parse_value(data, pos, depth, max_depth, max_size) == Ok::<(ValueModel, int), (ErrorKind, int)>(
            (value, after_value),
        ),
        parse_items(data, after_value, depth, max_depth, max_size, done.push(value)) == result,
    ensures
        parse_items(data, pos, depth, max_depth, max_size, done) == result,
{
    assert(parse_marker(data, pos) == Ok::<(UbjsonType, int), (ErrorKind, int)>(
        (value.kind(), pos + 1),
    ));
}

/// Where the bytes of an object's body are held, the pair behind the
/// first `done` pairs is held behind their bytes: its key, which is read
/// back as it was written, and then its value.
proof fn lemma_pair_on_wire(
    pairs: Seq<(Seq<char>, ValueModel)>,
    done: int,
    data: Seq<u8>,
    start: int,
    written_at: nat,
    written_below: usize,
)
    requires
        0 <= done < pairs.len(),
        text_fits(pairs[done].0),
        encode_pairs(pairs, written_at, false, written_below) is Ok,
        holds_at(
            data,
            start,
            encode_pairs(pairs, written_at, false, written_below)->Ok_0
                + seq![UbjsonType::ObjectEnd.byte()],
        ),
    ensures
        encode_pairs(pairs.take(done), written_at, false, written_below) is Ok,
        encode_pairs(pairs.take(done + 1), written_at, false, written_below) is Ok,
        encode_value(pairs[done].1, written_at, false, written_below) is Ok,
        ({
            let front = encode_pairs(pairs.take(done), written_at, false, written_below)->Ok_0;
            let next = encode_pairs(pairs.take(done + 1), written_at, false, written_below)->Ok_0;
            let key_bytes = encode_text(pairs[done].0);
            let bytes = encode_value(pairs[done].1, written_at, false, written_below)->Ok_0;
            let here = start + front.len();
            &&& next.len() == front.len() + key_bytes.len() + bytes.len()
            &&& 0 <= here < data.len()
            &&& data[here] != UbjsonType::ObjectEnd.byte()
            &&& crate::encoding::parse_text(data, here) == Ok::<(Seq<char>, int), (ErrorKind, int)>(
                (pairs[done].0, here + key_bytes.len()),
            )
            &&& holds_at(data, here + key_bytes.len(), bytes)
        }),
{
    let body = encode_pairs(pairs, written_at, false, written_below)->Ok_0;
    let end = seq![UbjsonType::ObjectEnd.byte()];
    lemma_encode_pairs_front(pairs, done, written_at, written_below);
    lemma_encode_pairs_front(pairs, done + 1, written_at, written_below);
    let front = encode_pairs(pairs.take(done), written_at, false, written_below)->Ok_0;
    let next = encode_pairs(pairs.take(done + 1), written_at, false, written_below)->Ok_0;
    let key = pairs[done].0;
    let key_bytes = encode_text(key);
    let bytes = encode_value(pairs[done].1, written_at, false, written_below)->Ok_0;
    let here = start + front.len();
    assert(next =~= front + (key_bytes + bytes));
    lemma_holds_at_split(data, start, body, end);
    lemma_holds_at_prefix(data, start, body, next);
    lemma_holds_at_split(data, start, front, key_bytes + bytes);
    lemma_holds_at_split(data, here, key_bytes, bytes);
    lemma_text_round_trip(data, here, key);
    lemma_text_starts_with_length_marker(key);
    assert(data[here + 0] == key_bytes[0]);
}

/// A key of an object with distinct keys is not among the keys before it.
proof fn lemma_key_is_new(pairs: Seq<(Seq<char>, ValueModel)>, done: int)
    requires
        0 <= done < pairs.len(),
        distinct_keys(pairs),
    ensures
        !has_key(pairs.take(done), pairs[done].0),
{
    if has_key(pairs.take(done), pairs[done].0) {
        let i = choose|i: int|
            0 <= i < pairs.take(done).len() && (#[trigger] pairs.take(done)[i]).0
                == pairs[done].0;
        assert(pairs[i].0 == pairs[done].0);
    }
}

/// The round trip of the pairs of an object: behind the first `done` of
/// them, the rest is read up to the end marker, and the whole object is the
/// result.
proof fn lemma_pairs_round_trip(
    pairs: Seq<(Seq<char>, ValueModel)>,
    done: int,
    data: Seq<u8>,
    start: int,
    depth: nat,
    max_depth: usize,
    max_size: usize,
    written_at: nat,
    written_below: usize,
)
    requires
        0 <= done <= pairs.len(),
        pairs.len() < max_size,
        distinct_keys(pairs),
        forall|i: int|
            0 <= i < pairs.len() ==> text_fits((#[trigger] pairs[i]).0) && decodable(
                pairs[i].1,
                depth,
                max_depth,
                max_size,
            ),
        encode_pairs(pairs, written_at, false, written_below) is Ok,
        holds_at(
            data,
            start,
            encode_pairs(pairs, written_at, false, written_below)->Ok_0
                + seq![UbjsonType::ObjectEnd.byte()],
        ),
    ensures
        encode_pairs(pairs.take(done), written_at, false, written_below) is Ok,
        parse_pairs(
            data,
            start + encode_pairs(pairs.take(done), written_at, false, written_below)->Ok_0.len(),
            depth,
            max_depth,
            max_size,
            pairs.take(done),
        ) == Ok::<(ValueModel, int), (ErrorKind, int)>(
            (
                ValueModel::Object(pairs),
                start + encode_pairs(pairs, written_at, false, written_below)->Ok_0.len() + 1,
            ),
        ),
    decreases pairs, pairs.len() - done,
{
    let body = encode_pairs(pairs, written_at, false, written_below)->Ok_0;
    let result = Ok::<(ValueModel, int), (ErrorKind, int)>(
        (ValueModel::Object(pairs), start + body.len() + 1),
    );
    if done == pairs.len() {
        let end = seq![UbjsonType::ObjectEnd.byte()];
        assert(pairs.take(done) == pairs);
        lemma_holds_at_split(data, start, body, end);
        assert(data[start + body.len() + 0] == end[0]);
    } else {
        let key = pairs[done].0;
        let value = pairs[done].1;
        lemma_pair_on_wire(pairs, done, data, start, written_at, written_below);
        lemma_key_is_new(pairs, done);
        let front = encode_pairs(pairs.take(done), written_at, false, written_below)->Ok_0;
        let bytes = encode_value(value, written_at, false, written_below)->Ok_0;
        let here = start + front.len();
        let after_key = here + encode_text(key).len();
        lemma_round_trip_at(
            value,
            data,
            after_key,
            depth,
            max_depth,
            max_size,
            written_at,
            written_below,
        );
        lemma_pairs_round_trip(
            pairs,
            done + 1,
            data,
            start,
            depth,
            max_depth,
            max_size,
            written_at,
            written_below,
        );
        assert(pairs.take(done).push((key, value)) =~= pairs.take(done + 1));
        lemma_pairs_step(
            data,
            here,
            depth,
            max_depth,
            max_size,
            pairs.take(done),
            key,
            value,
            after_key,
            after_key + bytes.len(),
            result,
        );
    }
}

/// The round trip: a value without strongly-typed forms that is encoded
/// without optimization is decoded as itself, provided that decoding can
/// give the value at all within its limits.
pub proof fn lemma_round_trip(
    value: ValueModel,
    written_below: usize,
    max_depth: usize,
    max_size: usize,
)
    requires
        decodable(value, 0, max_depth, max_size),
        encode_value(value, 0, false, written_below) is Ok,
    ensures
        decode(encode_value(value, 0, false, written_below)->Ok_0, max_depth, max_size) == Ok::<
            ValueModel,
            ErrorKind,
        >(value),
{
    let bytes = encode_value(value, 0, false, written_below)->Ok_0;
    lemma_round_trip_at(value, bytes, 0, 0, max_depth, max_size, 0, written_below);
}

/// The count that a strongly-typed container stores is not read when it is
/// encoded: two containers that differ in nothing but the stored number
/// have the same bytes, which state the number of entries that are there.
pub proof fn lemma_stored_count_is_not_read(
    kind: UbjsonType,
    stored: usize,
    other: usize,
    elements: Seq<ValueModel>,
    pairs: Seq<(Seq<char>, ValueModel)>,
    depth: nat,
    optimize: bool,
    max_depth: usize,
)
    ensures
        encode_value(
            ValueModel::StronglyTypedArray { element_type: kind, count: Some(stored), elements },
            depth,
            optimize,
            max_depth,
        ) == encode_value(
            ValueModel::StronglyTypedArray { element_type: kind, count: Some(other), elements },
            depth,
            optimize,
            max_depth,
        ),
        encode_value(
            ValueModel::StronglyTypedObject { value_type: kind, count: Some(stored), pairs },
            depth,
            optimize,
            max_depth,
        ) == encode_value(
            ValueModel::StronglyTypedObject { value_type: kind, count: Some(other), pairs },
            depth,
            optimize,
            max_depth,
        ),
        depth < max_depth ==> encode_value(
            ValueModel::StronglyTypedArray { element_type: kind, count: Some(stored), elements },
            depth,
            optimize,
            max_depth,
        ) == encode_typed_array(kind, true, elements),
        depth < max_depth ==> encode_value(
            ValueModel::StronglyTypedObject { value_type: kind, count: Some(stored), pairs },
            depth,
            optimize,
            max_depth,
        ) == encode_typed_object(kind, true, pairs),
{
}

/// `true` and `false` are kinds of their own: an array that holds both has
/// no kind that all its elements share, and so is written with a marker on
/// every element even where optimization is asked for.
pub proof fn lemma_mixed_booleans_are_not_homogeneous(
    items: Seq<ValueModel>,
    i: int,
    j: int,
    depth: nat,
    max_depth: usize,
)
    requires
        0 <= i < items.len(),
        0 <= j < items.len(),
        items[i] == ValueModel::Bool(true),
        items[j] == ValueModel::Bool(false),
    ensures
        homogeneous_kind(items) is None,
        depth < max_depth ==> encode_value(ValueModel::Array(items), depth, true, max_depth)
            == match encode_items(items, depth + 1, true, max_depth) {
            Ok(body) => Ok::<Seq<u8>, ErrorKind>(
                seq![UbjsonType::ArrayStart.byte()] + body + seq![UbjsonType::ArrayEnd.byte()],
            ),
            Err(e) => Err::<Seq<u8>, ErrorKind>(e),
        },
{
    assert(items[i].kind() == UbjsonType::True);
    assert(items[j].kind() == UbjsonType::False);
}

/// An array that holds nothing but `true`, and at least one of it, has the
/// kind `true`, and is written in the strongly-typed form where
/// optimization is asked for: the header alone, since `true` has no
/// payload.
pub proof fn lemma_all_true_is_homogeneous(items: Seq<ValueModel>, depth: nat, max_depth: usize)
    requires
        items.len() > 0,
        forall|i: int| 0 <= i < items.len() ==> #[trigger] items[i] == ValueModel::Bool(true),
    ensures
        homogeneous_kind(items) == Some(UbjsonType::True),
        depth < max_depth ==> encode_value(ValueModel::Array(items), depth, true, max_depth)
            == encode_typed_array(UbjsonType::True, true, items),
{
    assert(items[0].kind() == UbjsonType::True);
    assert forall|i: int| 0 <= i < items.len() implies (#[trigger] items[i]).kind()
        == UbjsonType::True by {
        assert(items[i] == ValueModel::Bool(true));
    }
}

/// A count that stands before a kind is rejected: a container whose body
/// starts with `#` is an `InvalidFormat`, whatever follows. Reading stops
/// behind the `#`.
pub proof fn lemma_count_before_type_is_rejected(
    data: Seq<u8>,
    pos: int,
    depth: nat,
    max_depth: usize,
    max_size: usize,
)
    requires
        depth < max_depth,
        0 <= pos,
        pos + 1 < data.len(),
        data[pos] == UbjsonType::ArrayStart.byte() || data[pos] == UbjsonType::ObjectStart.byte(),
        data[pos + 1] == crate::types::COUNT_MARKER,
    ensures
        parse_value(data, pos, depth, max_depth, max_size) == Err::<
            (ValueModel, int),
            (ErrorKind, int),
        >((ErrorKind::InvalidFormat, pos + 2)),
{
    if data[pos] == UbjsonType::ArrayStart.byte() {
        assert(parse_marker(data, pos) == Ok::<(UbjsonType, int), (ErrorKind, int)>(
            (UbjsonType::ArrayStart, pos + 1),
        ));
        assert(parse_array(data, pos + 1, depth + 1, max_depth, max_size) == Err::<
            (ValueModel, int),
            (ErrorKind, int),
        >((ErrorKind::InvalidFormat, pos + 2)));
    } else {
        assert(parse_marker(data, pos) == Ok::<(UbjsonType, int), (ErrorKind, int)>(
            (UbjsonType::ObjectStart, pos + 1),
        ));
        assert(parse_object(data, pos + 1, depth + 1, max_depth, max_size) == Err::<
            (ValueModel, int),
            (ErrorKind, int),
        >((ErrorKind::InvalidFormat, pos + 2)));
    }
}

/// Keys have no marker of their own: an object whose key position holds
/// the string marker is an `InvalidFormat`, since that marker is no length.
/// Reading stops behind that marker.
pub proof fn lemma_key_with_string_marker_is_rejected(
    data: Seq<u8>,
    pos: int,
    depth: nat,
    max_depth: usize,
    max_size: usize,
)
    requires
        depth < max_depth,
        0 < max_size,
        0 <= pos,
        pos + 1 < data.len(),
        data[pos] == UbjsonType::ObjectStart.byte(),
        data[pos + 1] == UbjsonType::String.byte(),
    ensures
        parse_value(data, pos, depth, max_depth, max_size) == Err::<
            (ValueModel, int),
            (ErrorKind, int),
        >((ErrorKind::InvalidFormat, pos + 2)),
{
    assert(parse_marker(data, pos) == Ok::<(UbjsonType, int), (ErrorKind, int)>(
        (UbjsonType::ObjectStart, pos + 1),
    ));
    assert(parse_marker(data, pos + 1) == Ok::<(UbjsonType, int), (ErrorKind, int)>(
        (UbjsonType::String, pos + 2),
    ));
    assert(crate::encoding::parse_length(data, pos + 1) == Err::<(usize, int), (ErrorKind, int)>(
        (ErrorKind::InvalidFormat, pos + 2),
    ));
    assert(crate::encoding::parse_text(data, pos + 1) == Err::<(Seq<char>, int), (ErrorKind, int)>(
        (ErrorKind::InvalidFormat, pos + 2),
    ));
    assert(parse_pairs(data, pos + 1, depth + 1, max_depth, max_size, Seq::empty()) == Err::<
        (ValueModel, int),
        (ErrorKind, int),
    >((ErrorKind::InvalidFormat, pos + 2)));
    assert(parse_object(data, pos + 1, depth + 1, max_depth, max_size) == Err::<
        (ValueModel, int),
        (ErrorKind, int),
    >((ErrorKind::InvalidFormat, pos + 2)));
}

/// A key that is read a second time is rejected: where the pairs read so
/// far hold the key that stands next, reading the pairs is an
/// `InvalidFormat`, and reading stops behind that key.
pub proof fn lemma_repeated_key_is_rejected(
    data: Seq<u8>,
    pos: int,
    depth: nat,
    max_depth: usize,
    max_size: usize,
    done: Seq<(Seq<char>, ValueModel)>,
)
    requires
        done.len() < max_size,
        0 <= pos < data.len(),
        data[pos] != UbjsonType::ObjectEnd.byte(),
        crate::encoding::parse_text(data, pos) is Ok,
        has_key(done, crate::encoding::parse_text(data, pos)->Ok_0.0),
    ensures
        parse_pairs(data, pos, depth, max_depth, max_size, done) == Err::<
            (ValueModel, int),
            (ErrorKind, int),
        >((ErrorKind::InvalidFormat, crate::encoding::parse_text(data, pos)->Ok_0.1)),
{
}

/// What holds of every value that decoding gives: no object has a key
/// twice; a strongly-typed container declares a primitive kind, every one
/// of its entries is of that kind, and the count it carries is the number
/// of its entries; and high-precision numbers obey their grammar.
pub open spec fn well_formed(value: ValueModel) -> bool
    decreases value,
{
    match value {
        ValueModel::Array(items) => forall|i: int|
            0 <= i < items.len() ==> well_formed(#[trigger] items[i]),
        ValueModel::Object(pairs) => distinct_keys(pairs) && forall|i: int|
            0 <= i < pairs.len() ==> well_formed((#[trigger] pairs[i]).1),
        ValueModel::StronglyTypedArray { element_type, count, elements } => {
            &&& element_type.primitive()
            &&& all_of_kind(elements, element_type)
            &&& count is Some ==> count->0 == elements.len()
            &&& forall|i: int| 0 <= i < elements.len() ==> well_formed(#[trigger] elements[i])
        },
        ValueModel::StronglyTypedObject { value_type, count, pairs } => {
            &&& value_type.primitive()
            &&& all_of_kind(values_of(pairs), value_type)
            &&& count is Some ==> count->0 == pairs.len()
            &&& distinct_keys(pairs)
            &&& forall|i: int| 0 <= i < pairs.len() ==> well_formed((#[trigger] pairs[i]).1)
        },
        ValueModel::HighPrecision(text) => is_high_precision(text),
        _ => true,
    }
}

/// A payload that is read is a well-formed value of the kind that was
/// asked for.
proof fn lemma_payload_is_well_formed(data: Seq<u8>, pos: int, kind: UbjsonType)
    requires
        parse_payload(data, pos, kind) is Ok,
    ensures
        kind.primitive(),
        parse_payload(data, pos, kind)->Ok_0.0.kind() == kind,
        well_formed(parse_payload(data, pos, kind)->Ok_0.0),
{
}

/// A key that is new keeps the keys distinct.
proof fn lemma_new_key_keeps_keys_distinct(
    done: Seq<(Seq<char>, ValueModel)>,
    key: Seq<char>,
    value: ValueModel,
)
    requires
        distinct_keys(done),
        !has_key(done, key),
    ensures
        distinct_keys(done.push((key, value))),
{
    let more = done.push((key, value));
    assert forall|i: int, j: int| 0 <= i < j < more.len() implies (#[trigger] more[i]).0 != (
    #[trigger] more[j]).0 by {
        if j < done.len() {
            assert(more[i] == done[i]);
            assert(more[j] == done[j]);
        } else {
            assert(more[i] == done[i]);
            assert(done[i].0 != key);
        }
    }
}

/// The payloads of a counted array that are read are of the declared kind,
/// and there are as many as were counted.
proof fn lemma_counted_payloads_are_well_formed(
    data: Seq<u8>,
    pos: int,
    kind: UbjsonType,
    depth: nat,
    max_depth: usize,
    count: nat,
    max_size: usize,
    done: Seq<ValueModel>,
)
    requires
        done.len() <= count,
        all_of_kind(done, kind),
        forall|i: int| 0 <= i < done.len() ==> well_formed(#[trigger] done[i]),
        parse_counted_payloads(data, pos, kind, depth, max_depth, count, max_size, done) is Ok,
    ensures
        parse_counted_payloads(data, pos, kind, depth, max_depth, count, max_size, done)->Ok_0.0.len() == count,
        all_of_kind(parse_counted_payloads(data, pos, kind, depth, max_depth, count, max_size, done)->Ok_0.0, kind),
        forall|i: int|
            0 <= i < parse_counted_payloads(data, pos, kind, depth, max_depth, count, max_size, done)->Ok_0.0.len()
                ==> well_formed(
                #[trigger] parse_counted_payloads(data, pos, kind, depth, max_depth, count, max_size, done)->Ok_0.0[i],
            ),
    decreases count - done.len(),
{
    if done.len() < count {
        lemma_payload_is_well_formed(data, pos, kind);
        let (value, next) = parse_entry(data, pos, kind, depth, max_depth)->Ok_0;
        let more = done.push(value);
        assert forall|i: int| 0 <= i < more.len() implies (#[trigger] more[i]).kind() == kind
            && well_formed(more[i]) by {
            if i < done.len() {
                assert(more[i] == done[i]);
            }
        }
        lemma_counted_payloads_are_well_formed(data, next, kind, depth, max_depth, count, max_size, more);
    }
}

/// The payloads of an uncounted array that are read are of the declared
/// kind.
proof fn lemma_open_payloads_are_well_formed(
    data: Seq<u8>,
    pos: int,
    kind: UbjsonType,
    depth: nat,
    max_depth: usize,
    max_size: usize,
    done: Seq<ValueModel>,
)
    requires
        all_of_kind(done, kind),
        forall|i: int| 0 <= i < done.len() ==> well_formed(#[trigger] done[i]),
        parse_open_payloads(data, pos, kind, depth, max_depth, max_size, done) is Ok,
    ensures
        all_of_kind(parse_open_payloads(data, pos, kind, depth, max_depth, max_size, done)->Ok_0.0, kind),
        forall|i: int|
            0 <= i < parse_open_payloads(data, pos, kind, depth, max_depth, max_size, done)->Ok_0.0.len()
                ==> well_formed(
                #[trigger] parse_open_payloads(data, pos, kind, depth, max_depth, max_size, done)->Ok_0.0[i],
            ),
    decreases max_size - done.len(),
{
    if data[pos] != UbjsonType::ArrayEnd.byte() {
        lemma_payload_is_well_formed(data, pos, kind);
        let (value, next) = parse_entry(data, pos, kind, depth, max_depth)->Ok_0;
        let more = done.push(value);
        assert forall|i: int| 0 <= i < more.len() implies (#[trigger] more[i]).kind() == kind
            && well_formed(more[i]) by {
            if i < done.len() {
                assert(more[i] == done[i]);
            }
        }
        lemma_open_payloads_are_well_formed(data, next, kind, depth, max_depth, max_size, more);
    }
}

/// What holds of the pairs of a strongly-typed object while they are read:
/// the keys are distinct, and the values are well-formed and of the
/// declared kind.
pub open spec fn typed_pairs_hold(pairs: Seq<(Seq<char>, ValueModel)>, kind: UbjsonType) -> bool {
    &&& distinct_keys(pairs)
    &&& all_of_kind(values_of(pairs), kind)
    &&& forall|i: int| 0 <= i < pairs.len() ==> well_formed((#[trigger] pairs[i]).1)
}

/// One more pair that is read keeps what holds of the pairs of a
/// strongly-typed object.
proof fn lemma_typed_pair_holds(
    data: Seq<u8>,
    pos: int,
    kind: UbjsonType,
    depth: nat,
    max_depth: usize,
    done: Seq<(Seq<char>, ValueModel)>,
)
    requires
        typed_pairs_hold(done, kind),
        parse_typed_pair(data, pos, kind, depth, max_depth, done) is Ok,
    ensures
        typed_pairs_hold(done.push(parse_typed_pair(data, pos, kind, depth, max_depth, done)->Ok_0.0), kind),
{
    let (key, next) = crate::encoding::parse_text(data, pos)->Ok_0;
    lemma_payload_is_well_formed(data, next, kind);
    let value = parse_payload(data, next, kind)->Ok_0.0;
    let more = done.push((key, value));
    lemma_new_key_keeps_keys_distinct(done, key, value);
    assert forall|i: int| 0 <= i < more.len() implies (#[trigger] values_of(more)[i]).kind()
        == kind by {
        if i < done.len() {
            assert(more[i] == done[i]);
            assert(values_of(done)[i].kind() == kind);
        }
    }
    assert forall|i: int| 0 <= i < more.len() implies well_formed((#[trigger] more[i]).1) by {
        if i < done.len() {
            assert(more[i] == done[i]);
        }
    }
}

/// The pairs of a counted object that are read have distinct keys and
/// values of the declared kind, and there are as many as were counted.
proof fn lemma_counted_pairs_are_well_formed(
    data: Seq<u8>,
    pos: int,
    kind: UbjsonType,
    depth: nat,
    max_depth: usize,
    count: nat,
    max_size: usize,
    done: Seq<(Seq<char>, ValueModel)>,
)
    requires
        done.len() <= count,
        typed_pairs_hold(done, kind),
        parse_counted_pairs(data, pos, kind, depth, max_depth, count, max_size, done) is Ok,
    ensures
        parse_counted_pairs(data, pos, kind, depth, max_depth, count, max_size, done)->Ok_0.0.len() == count,
        typed_pairs_hold(parse_counted_pairs(data, pos, kind, depth, max_depth, count, max_size, done)->Ok_0.0, kind),
    decreases count - done.len(),
{
    if done.len() < count {
        lemma_typed_pair_holds(data, pos, kind, depth, max_depth, done);
        let (pair, next) = parse_typed_pair(data, pos, kind, depth, max_depth, done)->Ok_0;
        lemma_counted_pairs_are_well_formed(data, next, kind, depth, max_depth, count, max_size, done.push(pair));
    }
}

/// The pairs of an uncounted object that are read have distinct keys and
/// values of the declared kind.
proof fn lemma_open_pairs_are_well_formed(
    data: Seq<u8>,
    pos: int,
    kind: UbjsonType,
    depth: nat,
    max_depth: usize,
    max_size: usize,
    done: Seq<(Seq<char>, ValueModel)>,
)
    requires
        typed_pairs_hold(done, kind),
        parse_open_pairs(data, pos, kind, depth, max_depth, max_size, done) is Ok,
    ensures
        typed_pairs_hold(parse_open_pairs(data, pos, kind, depth, max_depth, max_size, done)->Ok_0.0, kind),
    decreases max_size - done.len(),
{
    if data[pos] != UbjsonType::ObjectEnd.byte() {
        lemma_typed_pair_holds(data, pos, kind, depth, max_depth, done);
        let (pair, next) = parse_typed_pair(data, pos, kind, depth, max_depth, done)->Ok_0;
        lemma_open_pairs_are_well_formed(data, next, kind, depth, max_depth, max_size, done.push(pair));
    }
}

/// A strongly-typed array that is read is well-formed.
proof fn lemma_typed_array_is_well_formed(data: Seq<u8>, pos: int, depth: nat, max_depth: usize, max_size: usize)
    requires
        parse_typed_array(data, pos, depth, max_depth, max_size) is Ok,
    ensures
        well_formed(parse_typed_array(data, pos, depth, max_depth, max_size)->Ok_0.0),
{
    let (kind, next) = parse_declared_kind(data, pos)->Ok_0;
    let none = Seq::<ValueModel>::empty();
    if 0 <= next < data.len() && data[next] == crate::types::COUNT_MARKER {
        let (count, start) = crate::encoding::parse_length(data, next + 1)->Ok_0;
        lemma_counted_payloads_are_well_formed(data, start, kind, depth, max_depth, count as nat, max_size, none);
    } else {
        lemma_open_payloads_are_well_formed(data, next, kind, depth, max_depth, max_size, none);
    }
}

/// A strongly-typed object that is read is well-formed.
proof fn lemma_typed_object_is_well_formed(data: Seq<u8>, pos: int, depth: nat, max_depth: usize, max_size: usize)
    requires
        parse_typed_object(data, pos, depth, max_depth, max_size) is Ok,
    ensures
        well_formed(parse_typed_object(data, pos, depth, max_depth, max_size)->Ok_0.0),
{
    let (kind, next) = parse_declared_kind(data, pos)->Ok_0;
    let none = Seq::<(Seq<char>, ValueModel)>::empty();
    assert(values_of(none) =~= Seq::<ValueModel>::empty());
    if 0 <= next < data.len() && data[next] == crate::types::COUNT_MARKER {
        let (count, start) = crate::encoding::parse_length(data, next + 1)->Ok_0;
        lemma_counted_pairs_are_well_formed(data, start, kind, depth, max_depth, count as nat, max_size, none);
    } else {
        lemma_open_pairs_are_well_formed(data, next, kind, depth, max_depth, max_size, none);
    }
}

/// Every value that decoding gives is well-formed.
pub proof fn lemma_decoded_is_well_formed(
    data: Seq<u8>,
    pos: int,
    depth: nat,
    max_depth: usize,
    max_size: usize,
)
    requires
        parse_value(data, pos, depth, max_depth, max_size) is Ok,
    ensures
        well_formed(parse_value(data, pos, depth, max_depth, max_size)->Ok_0.0),
    decreases max_depth - depth, 0int, data.len() - pos, 1int,
{
    let marker = parse_marker(data, pos)->Ok_0.0;
    lemma_marked_is_well_formed(data, pos + 1, marker, depth, max_depth, max_size);
}

/// Every value that is read behind its marker is well-formed.
proof fn lemma_marked_is_well_formed(
    data: Seq<u8>,
    pos: int,
    marker: UbjsonType,
    depth: nat,
    max_depth: usize,
    max_size: usize,
)
    requires
        parse_marked(data, pos, marker, depth, max_depth, max_size) is Ok,
    ensures
        well_formed(parse_marked(data, pos, marker, depth, max_depth, max_size)->Ok_0.0),
    decreases max_depth - depth, 0int, data.len() - pos, 2int,
{
    match marker {
        UbjsonType::NoOp => {
            lemma_decoded_is_well_formed(data, pos, depth, max_depth, max_size);
        },
        UbjsonType::ArrayStart => {
            if 0 <= pos < data.len() && data[pos] == crate::types::TYPE_MARKER {
                lemma_typed_array_is_well_formed(data, pos + 1, depth + 1, max_depth, max_size);
            } else {
                lemma_items_are_well_formed(
                    data,
                    pos,
                    depth + 1,
                    max_depth,
                    max_size,
                    Seq::empty(),
                );
            }
        },
        UbjsonType::ObjectStart => {
            if 0 <= pos < data.len() && data[pos] == crate::types::TYPE_MARKER {
                lemma_typed_object_is_well_formed(data, pos + 1, depth + 1, max_depth, max_size);
            } else {
                lemma_pairs_are_well_formed(
                    data,
                    pos,
                    depth + 1,
                    max_depth,
                    max_size,
                    Seq::empty(),
                );
            }
        },
        UbjsonType::ArrayEnd => {},
        UbjsonType::ObjectEnd => {},
        _ => {
            lemma_payload_is_well_formed(data, pos, marker);
        },
    }
}

/// The array that reading elements gives is well-formed, if the elements
/// read before are.
proof fn lemma_items_are_well_formed(
    data: Seq<u8>,
    pos: int,
    depth: nat,
    max_depth: usize,
    max_size: usize,
    done: Seq<ValueModel>,
)
    requires
        forall|i: int| 0 <= i < done.len() ==> well_formed(#[trigger] done[i]),
        parse_items(data, pos, depth, max_depth, max_size, done) is Ok,
    ensures
        well_formed(parse_items(data, pos, depth, max_depth, max_size, done)->Ok_0.0),
    decreases max_depth - depth, 1int, max_size - done.len(), 0int,
{
    let marker = parse_marker(data, pos)->Ok_0.0;
    if !(marker is ArrayEnd) {
        lemma_marked_is_well_formed(data, pos + 1, marker, depth, max_depth, max_size);
        let (value, next) = parse_marked(data, pos + 1, marker, depth, max_depth, max_size)->Ok_0;
        let more = done.push(value);
        assert forall|i: int| 0 <= i < more.len() implies well_formed(#[trigger] more[i]) by {
            if i < done.len() {
                assert(more[i] == done[i]);
            }
        }
        lemma_items_are_well_formed(data, next, depth, max_depth, max_size, more);
    }
}

/// The object that reading pairs gives is well-formed, if the pairs read
/// before have distinct keys and well-formed values.
proof fn lemma_pairs_are_well_formed(
    data: Seq<u8>,
    pos: int,
    depth: nat,
    max_depth: usize,
    max_size: usize,
    done: Seq<(Seq<char>, ValueModel)>,
)
    requires
        distinct_keys(done),
        forall|i: int| 0 <= i < done.len() ==> well_formed((#[trigger] done[i]).1),
        parse_pairs(data, pos, depth, max_depth, max_size, done) is Ok,
    ensures
        well_formed(parse_pairs(data, pos, depth, max_depth, max_size, done)->Ok_0.0),
    decreases max_depth - depth, 1int, max_size - done.len(), 0int,
{
    if data[pos] != UbjsonType::ObjectEnd.byte() {
        let (key, next) = crate::encoding::parse_text(data, pos)->Ok_0;
        lemma_decoded_is_well_formed(data, next, depth, max_depth, max_size);
        let (value, after) = parse_value(data, next, depth, max_depth, max_size)->Ok_0;
        let more = done.push((key, value));
        lemma_new_key_keeps_keys_distinct(done, key, value);
        assert forall|i: int| 0 <= i < more.len() implies well_formed((#[trigger] more[i]).1) by {
            if i < done.len() {
                assert(more[i] == done[i]);
            }
        }
        lemma_pairs_are_well_formed(data, after, depth, max_depth, max_size, more);
    }
}

/// Pairs with distinct keys and values that are the same as themselves
/// are the same as themselves.
proof fn lemma_pairs_equal_themselves(pairs: Seq<(Seq<char>, ValueModel)>)
    requires
        distinct_keys(pairs),
        forall|i: int| 0 <= i < pairs.len() ==> same_value((#[trigger] pairs[i]).1, pairs[i].1),
    ensures
        same_pairs(pairs, pairs),
{
    assert forall|i: int, j: int|
        0 <= i < pairs.len() && 0 <= j < pairs.len() && (#[trigger] pairs[i]).0 == (
        #[trigger] pairs[j]).0 implies same_value(pairs[i].1, pairs[j].1) by {
        if i < j {
            assert(pairs[i].0 != pairs[j].0);
        } else if j < i {
            assert(pairs[j].0 != pairs[i].0);
        }
    }
}

/// Equality is reflexive on values whose objects have no key twice: such
/// a value equals itself.
pub proof fn lemma_value_equals_itself(value: ValueModel)
    requires
        well_formed(value),
    ensures
        same_value(value, value),
    decreases value,
{
    match value {
        ValueModel::Array(items) => {
            assert forall|i: int| 0 <= i < items.len() implies same_value(
                #[trigger] items[i],
                items[i],
            ) by {
                lemma_value_equals_itself(items[i]);
            }
            assert(same_items(items, items));
        },
        ValueModel::Object(pairs) => {
            assert forall|i: int| 0 <= i < pairs.len() implies same_value(
                (#[trigger] pairs[i]).1,
                pairs[i].1,
            ) by {
                lemma_value_equals_itself(pairs[i].1);
            }
            lemma_pairs_equal_themselves(pairs);
        },
        ValueModel::StronglyTypedArray { element_type, count, elements } => {
            assert forall|i: int| 0 <= i < elements.len() implies same_value(
                #[trigger] elements[i],
                elements[i],
            ) by {
                lemma_value_equals_itself(elements[i]);
            }
            assert(same_items(elements, elements));
        },
        ValueModel::StronglyTypedObject { value_type, count, pairs } => {
            assert forall|i: int| 0 <= i < pairs.len() implies same_value(
                (#[trigger] pairs[i]).1,
                pairs[i].1,
            ) by {
                lemma_value_equals_itself(pairs[i].1);
            }
            lemma_pairs_equal_themselves(pairs);
        },
        _ => {},
    }
}

} // verus!
