use ubjson_rs::encoding::{
    read_char, read_length, read_string, read_type_marker, write_char, write_length,
};
use ubjson_rs::{
    value_from_slice, value_to_vec, ByteReader, DeserializerBuilder, ErrorKind, IoFailure,
    SerializerBuilder, UbjsonDeserializer, UbjsonError, UbjsonMap, UbjsonSerializer, UbjsonType,
    UbjsonValue,
};

fn encode(value: &UbjsonValue) -> Vec<u8> {
    value_to_vec(value).unwrap()
}

fn encode_optimized(value: &UbjsonValue) -> Vec<u8> {
    SerializerBuilder::new().with_container_optimization(true).value_to_vec(value).unwrap()
}

fn decode_with(data: &[u8], max_depth: usize, max_size: usize) -> Result<UbjsonValue, UbjsonError> {
    DeserializerBuilder::new()
        .with_max_depth(max_depth)
        .with_max_size(max_size)
        .value_from_slice(data)
}

fn nested_arrays(levels: usize) -> Vec<u8> {
    let mut data = vec![b'['; levels];
    data.extend(vec![b']'; levels]);
    data
}

#[test]
fn primitives_are_byte_exact() {
    assert_eq!(encode(&UbjsonValue::Null), vec![0x5A]);
    assert_eq!(encode(&UbjsonValue::Bool(true)), vec![0x54]);
    assert_eq!(encode(&UbjsonValue::Bool(false)), vec![0x46]);
    assert_eq!(encode(&UbjsonValue::Int8(42)), vec![0x69, 42]);
    assert_eq!(encode(&UbjsonValue::Int8(-1)), vec![0x69, 0xFF]);
    assert_eq!(encode(&UbjsonValue::UInt8(200)), vec![0x55, 200]);
    assert_eq!(encode(&UbjsonValue::Int16(-2)), vec![0x49, 0xFF, 0xFE]);
    assert_eq!(encode(&UbjsonValue::Int32(i32::MIN)), vec![0x6C, 0x80, 0, 0, 0]);
    assert_eq!(
        encode(&UbjsonValue::Int64(-1)),
        vec![0x4C, 0xFF, 0xFF, 0xFF, 0xFF, 0xFF, 0xFF, 0xFF, 0xFF]
    );
    assert_eq!(
        encode(&UbjsonValue::String("Hello".to_string())),
        vec![0x53, 0x55, 5, b'H', b'e', b'l', b'l', b'o']
    );
    assert_eq!(encode(&UbjsonValue::HighPrecision("1.5".to_string())), vec![b'H', b'U', 3, b'1', b'.', b'5']);
    assert_eq!(encode(&UbjsonValue::Char('€')), vec![b'C', 0xE2, 0x82, 0xAC]);
}

#[test]
fn floats_travel_as_bit_patterns() {
    assert_eq!(encode(&UbjsonValue::Float32(1.5f32.to_bits())), vec![b'd', 0x3F, 0xC0, 0, 0]);
    assert_eq!(
        encode(&UbjsonValue::Float64(2.5f64.to_bits())),
        vec![b'D', 0x40, 0x04, 0, 0, 0, 0, 0, 0]
    );
    let nan = UbjsonValue::Float64(f64::NAN.to_bits());
    assert_eq!(value_from_slice(&encode(&nan)).unwrap(), nan);
}

#[test]
fn lengths_take_the_narrowest_kind() {
    let cases: Vec<(usize, Vec<u8>)> = vec![
        (0, vec![b'U', 0]),
        (255, vec![b'U', 255]),
        (256, vec![b'I', 1, 0]),
        (32767, vec![b'I', 0x7F, 0xFF]),
        (32768, vec![b'l', 0, 0, 0x80, 0]),
        (2147483647, vec![b'l', 0x7F, 0xFF, 0xFF, 0xFF]),
        (2147483648, vec![b'L', 0, 0, 0, 0, 0x80, 0, 0, 0]),
    ];
    for (length, bytes) in cases {
        let mut buffer = Vec::new();
        write_length(&mut buffer, length).unwrap();
        assert_eq!(buffer, bytes);
        let mut reader = ByteReader::new(&buffer);
        assert_eq!(read_length(&mut reader).unwrap(), length);
        assert_eq!(reader.position(), bytes.len());
    }
}

#[test]
fn lengths_of_any_integer_kind_are_read() {
    let data = [b'i', 7];
    assert_eq!(read_length(&mut ByteReader::new(&data)).unwrap(), 7);
    let data = [b'L', 0, 0, 0, 0, 0, 0, 1, 0];
    assert_eq!(read_length(&mut ByteReader::new(&data)).unwrap(), 256);
    let data = [b'L', 0xFF, 0, 0, 0, 0, 0, 0, 0];
    assert!(matches!(
        read_length(&mut ByteReader::new(&data)),
        Err(UbjsonError::InvalidFormat(_))
    ));
    let data = [b'S', 1];
    assert!(matches!(
        read_length(&mut ByteReader::new(&data)),
        Err(UbjsonError::InvalidFormat(_))
    ));
    let data = [0x01, 1];
    assert!(matches!(
        read_length(&mut ByteReader::new(&data)),
        Err(UbjsonError::InvalidTypeMarker(0x01))
    ));
}

#[test]
fn a_failed_read_keeps_what_it_took() {
    // An invalid marker is taken.
    let data = [0xFF, b'Z'];
    let mut reader = ByteReader::new(&data);
    assert!(matches!(read_type_marker(&mut reader), Err(UbjsonError::InvalidTypeMarker(0xFF))));
    assert_eq!(reader.position(), 1);
    assert_eq!(reader.peek(), Some(b'Z'));
    assert!(matches!(read_type_marker(&mut reader), Ok(UbjsonType::Null)));
    assert_eq!(reader.position(), 2);
    assert!(matches!(read_type_marker(&mut reader), Err(UbjsonError::Io(IoFailure::UnexpectedEof))));
    assert_eq!(reader.position(), 2);

    // A read that runs out of input takes what is left.
    let data = [b'U', 5, b'a', b'b'];
    let mut reader = ByteReader::new(&data);
    assert!(matches!(read_string(&mut reader), Err(UbjsonError::Io(IoFailure::UnexpectedEof))));
    assert_eq!(reader.position(), 4);
    assert_eq!(reader.remaining(), 0);
    assert_eq!(reader.peek(), None);
    let data = [b'I', 0];
    let mut reader = ByteReader::new(&data);
    assert!(matches!(read_length(&mut reader), Err(UbjsonError::Io(_))));
    assert_eq!(reader.position(), 2);

    // A length that is no length is taken with its marker.
    let data = [b'i', 0xFF, 7];
    let mut reader = ByteReader::new(&data);
    assert!(matches!(read_length(&mut reader), Err(UbjsonError::InvalidFormat(_))));
    assert_eq!(reader.position(), 2);
    let data = [b'S', 1, 2];
    let mut reader = ByteReader::new(&data);
    assert!(matches!(read_length(&mut reader), Err(UbjsonError::InvalidFormat(_))));
    assert_eq!(reader.position(), 1);

    // Bytes that are no UTF-8 are taken.
    let data = [b'U', 2, 0xC3, 0x28, b'Z'];
    let mut reader = ByteReader::new(&data);
    assert!(matches!(read_string(&mut reader), Err(UbjsonError::InvalidUtf8(_))));
    assert_eq!(reader.position(), 4);
    let data = [0xC3, 0x28, b'Z'];
    let mut reader = ByteReader::new(&data);
    assert!(matches!(read_char(&mut reader), Err(UbjsonError::InvalidUtf8(_))));
    assert_eq!(reader.position(), 2);
    let data = [0xE2, 0x82];
    let mut reader = ByteReader::new(&data);
    assert!(matches!(read_char(&mut reader), Err(UbjsonError::Io(_))));
    assert_eq!(reader.position(), 2);
}

fn stop(data: &[u8], max_depth: usize, max_size: usize) -> (UbjsonError, usize) {
    let mut deserializer =
        UbjsonDeserializer::with_limits(ByteReader::new(data), max_depth, max_size);
    let error = deserializer.deserialize_value().unwrap_err();
    assert_eq!(deserializer.current_depth(), 0);
    (error, deserializer.bytes_read())
}

#[test]
fn a_failed_decode_stops_where_it_failed() {
    // Nothing is read where the depth limit forbids the value.
    assert!(matches!(stop(b"Z", 0, 10), (UbjsonError::DepthLimitExceeded(0), 0)));
    // An unknown marker is taken.
    assert!(matches!(stop(&[b'[', 0xFF, b']'], 10, 10), (UbjsonError::InvalidTypeMarker(0xFF), 2)));
    // An end marker without a start is taken.
    assert!(matches!(stop(b"]Z", 10, 10), (UbjsonError::InvalidFormat(_), 1)));
    // The marker of an element that lies too deep is taken.
    assert!(matches!(stop(b"[[Z]]", 2, 10), (UbjsonError::DepthLimitExceeded(2), 3)));
    // A full container stops before the entry that has no room.
    assert!(matches!(stop(b"[ZZZZ]", 10, 3), (UbjsonError::SizeLimitExceeded(3), 4)));
    // A count before a kind is taken.
    assert!(matches!(stop(b"[#U\x01Z", 10, 10), (UbjsonError::InvalidFormat(_), 2)));
    // A kind that is a container is taken.
    assert!(matches!(stop(b"[$[#U\x00", 10, 10), (UbjsonError::UnsupportedType(_), 3)));
    // A repeated key is taken.
    assert!(matches!(
        stop(b"{U\x01aZU\x01aZ}", 10, 10),
        (UbjsonError::InvalidFormat(_), 8)
    ));
    // High-precision text that is no number is taken.
    assert!(matches!(stop(b"HU\x03abcZ", 10, 10), (UbjsonError::InvalidHighPrecision(_), 6)));
    // Input that runs out is taken to its end.
    assert!(matches!(stop(b"[l\x00\x00", 10, 10), (UbjsonError::Io(_), 4)));
    assert!(matches!(stop(b"[Z", 10, 10), (UbjsonError::Io(_), 2)));
    assert!(matches!(stop(b"", 10, 10), (UbjsonError::Io(_), 0)));
}

#[test]
fn a_value_is_read_to_its_end_and_no_further() {
    let data = b"[i\x01SU\x01a]ZT";
    let mut deserializer = UbjsonDeserializer::new(ByteReader::new(data));
    assert_eq!(deserializer.bytes_read(), 0);
    let first = deserializer.deserialize_value().unwrap();
    assert_eq!(
        first,
        UbjsonValue::Array(vec![UbjsonValue::Int8(1), UbjsonValue::from_string("a")])
    );
    assert_eq!(deserializer.bytes_read(), 8);
    assert_eq!(deserializer.deserialize_value().unwrap(), UbjsonValue::Null);
    assert_eq!(deserializer.bytes_read(), 9);
    assert_eq!(deserializer.deserialize_value().unwrap(), UbjsonValue::Bool(true));
    assert_eq!(deserializer.bytes_read(), 10);
}

#[test]
fn entries_of_strongly_typed_containers_lie_one_level_deeper() {
    // [$i#U 1 5 and {$i#U 1 "a" 5
    let array = [b'[', b'$', b'i', b'#', b'U', 1, 5];
    let object = [b'{', b'$', b'i', b'#', b'U', 1, b'U', 1, b'a', 5];
    assert!(matches!(stop(&array, 1, 10), (UbjsonError::DepthLimitExceeded(1), 6)));
    assert!(matches!(stop(&object, 1, 10), (UbjsonError::DepthLimitExceeded(1), 9)));
    assert!(matches!(stop(b"[Z]", 1, 10), (UbjsonError::DepthLimitExceeded(1), 2)));
    assert!(decode_with(&array, 2, 10).is_ok());
    assert!(decode_with(&object, 2, 10).is_ok());
    // Without a count
    let open = [b'[', b'$', b'i', 5, b']'];
    assert!(matches!(stop(&open, 1, 10), (UbjsonError::DepthLimitExceeded(1), 3)));
    assert!(decode_with(&open, 2, 10).is_ok());
    // A container without entries asks for no depth beyond its own.
    assert!(decode_with(&[b'[', b'$', b'i', b'#', b'U', 0], 1, 10).is_ok());
    assert!(decode_with(b"[]", 1, 10).is_ok());
}

#[test]
fn characters_of_every_width_round_trip() {
    for c in ['\0', 'A', '\u{7f}', '\u{80}', 'π', '\u{7ff}', '\u{800}', '€', '\u{ffff}', '\u{10000}', '🦀', '\u{10ffff}'] {
        let mut buffer = Vec::new();
        write_char(&mut buffer, c).unwrap();
        assert_eq!(buffer.len(), c.len_utf8());
        let mut expected = [0u8; 4];
        assert_eq!(buffer, c.encode_utf8(&mut expected).as_bytes());
        assert_eq!(read_char(&mut ByteReader::new(&buffer)).unwrap(), c);
    }
}

#[test]
fn malformed_characters_are_rejected() {
    assert!(matches!(value_from_slice(&[b'C', 0x80, 0x80]), Err(UbjsonError::InvalidUtf8(_))));
    assert!(matches!(value_from_slice(&[b'C', 0xC0, 0x80]), Err(UbjsonError::InvalidUtf8(_))));
    assert!(matches!(value_from_slice(&[b'C', 0xE2, 0x82]), Err(UbjsonError::Io(_))));
    assert!(matches!(value_from_slice(&[b'C']), Err(UbjsonError::Io(_))));
    assert!(matches!(
        value_from_slice(&[b'C', 0xF8, 0x80, 0x80, 0x80]),
        Err(UbjsonError::InvalidUtf8(_))
    ));
}

#[test]
fn strongly_typed_array_counted_and_uncounted() {
    let elements = vec![
        UbjsonValue::UInt8(10),
        UbjsonValue::UInt8(20),
        UbjsonValue::UInt8(30),
        UbjsonValue::UInt8(40),
    ];
    let counted = UbjsonValue::StronglyTypedArray {
        element_type: UbjsonType::UInt8,
        count: Some(4),
        elements: elements.clone(),
    };
    assert_eq!(encode(&counted), vec![b'[', b'$', b'U', b'#', b'U', 4, 10, 20, 30, 40]);
    let uncounted = UbjsonValue::StronglyTypedArray {
        element_type: UbjsonType::UInt8,
        count: None,
        elements,
    };
    assert_eq!(encode(&uncounted), vec![b'[', b'$', b'U', 10, 20, 30, 40, b']']);
    assert_eq!(value_from_slice(&encode(&counted)).unwrap(), counted);
    assert_eq!(value_from_slice(&encode(&uncounted)).unwrap(), uncounted);
}

#[test]
fn a_stale_count_is_overridden() {
    let elements = vec![UbjsonValue::Int8(1), UbjsonValue::Int8(2), UbjsonValue::Int8(3)];
    let stale = UbjsonValue::StronglyTypedArray {
        element_type: UbjsonType::Int8,
        count: Some(99),
        elements: elements.clone(),
    };
    let exact = UbjsonValue::strongly_typed_array(UbjsonType::Int8, elements);
    assert_eq!(encode(&stale), encode(&exact));
    assert_eq!(encode(&stale), vec![b'[', b'$', b'i', b'#', b'U', 3, 1, 2, 3]);

    let mut pairs = UbjsonMap::new();
    pairs.insert("a".to_string(), UbjsonValue::Int8(7));
    let stale = UbjsonValue::StronglyTypedObject {
        value_type: UbjsonType::Int8,
        count: Some(0),
        pairs: pairs.clone(),
    };
    assert_eq!(encode(&stale), vec![b'{', b'$', b'i', b'#', b'U', 1, b'U', 1, b'a', 7]);
    assert_eq!(encode(&stale), encode(&UbjsonValue::strongly_typed_object(UbjsonType::Int8, pairs)));
}

#[test]
fn strongly_typed_containers_check_their_kind() {
    let mismatch = UbjsonValue::StronglyTypedArray {
        element_type: UbjsonType::Int8,
        count: Some(1),
        elements: vec![UbjsonValue::Int8(1), UbjsonValue::Int16(2)],
    };
    let mut serializer = UbjsonSerializer::new(vec![0xAA]);
    let error = serializer.serialize_value(&mismatch).unwrap_err();
    assert_eq!(error.kind(), ErrorKind::InvalidFormat);
    assert_eq!(serializer.writer(), &vec![0xAA]);

    let container_kind = UbjsonValue::StronglyTypedArray {
        element_type: UbjsonType::ArrayStart,
        count: Some(0),
        elements: vec![],
    };
    assert_eq!(value_to_vec(&container_kind).unwrap_err().kind(), ErrorKind::InvalidFormat);

    let mut pairs = UbjsonMap::new();
    pairs.insert("x".to_string(), UbjsonValue::Bool(true));
    pairs.insert("y".to_string(), UbjsonValue::Bool(false));
    let booleans = UbjsonValue::StronglyTypedObject { value_type: UbjsonType::True, count: None, pairs };
    assert_eq!(value_to_vec(&booleans).unwrap_err().kind(), ErrorKind::InvalidFormat);
}

#[test]
fn booleans_of_both_values_are_not_homogeneous() {
    let mixed = UbjsonValue::Array(vec![UbjsonValue::Bool(true), UbjsonValue::Bool(false)]);
    assert_eq!(encode_optimized(&mixed), vec![b'[', b'T', b'F', b']']);
    let all_true = UbjsonValue::Array(vec![UbjsonValue::Bool(true), UbjsonValue::Bool(true)]);
    assert_eq!(encode_optimized(&all_true), vec![b'[', b'$', b'T', b'#', b'U', 2]);
    assert_eq!(encode(&all_true), vec![b'[', b'T', b'T', b']']);
    let decoded = value_from_slice(&encode_optimized(&all_true)).unwrap();
    assert_eq!(
        decoded,
        UbjsonValue::StronglyTypedArray {
            element_type: UbjsonType::True,
            count: Some(2),
            elements: vec![UbjsonValue::Bool(true), UbjsonValue::Bool(true)],
        }
    );
}

#[test]
fn optimization_reaches_inner_containers() {
    let inner = UbjsonValue::Array(vec![UbjsonValue::Int8(1), UbjsonValue::Int8(2)]);
    let outer = UbjsonValue::Array(vec![inner.clone(), UbjsonValue::Null]);
    assert_eq!(
        encode_optimized(&outer),
        vec![b'[', b'[', b'$', b'i', b'#', b'U', 2, 1, 2, b'Z', b']']
    );
    let mut map = UbjsonMap::new();
    map.insert("a".to_string(), UbjsonValue::Int8(1));
    map.insert("b".to_string(), UbjsonValue::Int8(2));
    assert_eq!(
        encode_optimized(&UbjsonValue::Object(map)),
        vec![b'{', b'$', b'i', b'#', b'U', 2, b'U', 1, b'a', 1, b'U', 1, b'b', 2]
    );
}

#[test]
fn depth_limit_of_the_decoder() {
    assert!(matches!(decode_with(&[b'Z'], 0, 10), Err(UbjsonError::DepthLimitExceeded(0))));
    assert!(matches!(decode_with(&[], 0, 10), Err(UbjsonError::DepthLimitExceeded(0))));
    assert_eq!(decode_with(&[b'Z'], 1, 10).unwrap(), UbjsonValue::Null);
    // Three arrays in each other lie at depths 0, 1 and 2.
    assert!(decode_with(&nested_arrays(3), 3, 10).is_ok());
    assert!(matches!(
        decode_with(&nested_arrays(4), 3, 10),
        Err(UbjsonError::DepthLimitExceeded(3))
    ));
    assert!(matches!(
        decode_with(&nested_arrays(5), 3, 10),
        Err(UbjsonError::DepthLimitExceeded(3))
    ));
    // A value in an array lies one level below the array.
    assert!(decode_with(&[b'[', b']'], 1, 10).is_ok());
    assert!(matches!(decode_with(&[b'[', b'Z', b']'], 1, 10), Err(UbjsonError::DepthLimitExceeded(1))));
    assert!(decode_with(&[b'[', b'Z', b']'], 2, 10).is_ok());
    assert!(matches!(
        decode_with(&[b'{', b'U', 1, b'a', b'Z', b'}'], 1, 10),
        Err(UbjsonError::DepthLimitExceeded(1))
    ));
    // Padding takes no depth.
    assert_eq!(decode_with(&[b'N', b'N', b'T'], 1, 10).unwrap(), UbjsonValue::Bool(true));
}

#[test]
fn depth_limit_of_the_encoder() {
    let nested = UbjsonValue::Array(vec![UbjsonValue::Array(vec![UbjsonValue::Null])]);
    let two = SerializerBuilder::new().with_max_depth(2);
    assert_eq!(two.value_to_vec(&nested).unwrap(), vec![b'[', b'[', b'Z', b']', b']']);
    let one = SerializerBuilder::new().with_max_depth(1);
    assert!(matches!(one.value_to_vec(&nested), Err(UbjsonError::DepthLimitExceeded(1))));
    let zero = SerializerBuilder::new().with_max_depth(0);
    assert_eq!(zero.value_to_vec(&UbjsonValue::Null).unwrap(), vec![b'Z']);
    assert!(matches!(
        zero.value_to_vec(&UbjsonValue::Array(vec![])),
        Err(UbjsonError::DepthLimitExceeded(0))
    ));
}

#[test]
fn size_limit_of_the_decoder() {
    let four = [b'[', b'i', 0, b'i', 1, b'i', 2, b'i', 3, b']'];
    assert!(matches!(decode_with(&four, 10, 3), Err(UbjsonError::SizeLimitExceeded(3))));
    assert!(matches!(decode_with(&four, 10, 4), Err(UbjsonError::SizeLimitExceeded(4))));
    assert!(decode_with(&four, 10, 5).is_ok());
    assert!(matches!(decode_with(&[b'[', b']'], 10, 0), Err(UbjsonError::SizeLimitExceeded(0))));
    // The limit holds for each container, not for the document.
    let two_by_two = [b'[', b'[', b'Z', b'Z', b']', b'[', b'Z', b'Z', b']', b']'];
    assert!(decode_with(&two_by_two, 10, 3).is_ok());
    // A counted container may be exactly full.
    let counted = [b'[', b'$', b'i', b'#', b'U', 3, 1, 2, 3];
    assert!(decode_with(&counted, 10, 3).is_ok());
    assert!(matches!(decode_with(&counted, 10, 2), Err(UbjsonError::SizeLimitExceeded(2))));
    // Payloads without bytes cannot go on for ever.
    let endless = [b'[', b'$', b'Z', b'#', b'L', 0x7F, 0xFF, 0xFF, 0xFF, 0xFF, 0xFF, 0xFF, 0xFF];
    assert!(matches!(decode_with(&endless, 10, 100), Err(UbjsonError::SizeLimitExceeded(100))));
    let open = [b'[', b'$', b'Z', b'Z'];
    assert!(matches!(decode_with(&open, 10, 100), Err(UbjsonError::SizeLimitExceeded(100))));
}

#[test]
fn keys_have_no_marker_and_occur_once() {
    let with_marker = [b'{', b'S', b'U', 1, b'a', b'Z', b'}'];
    assert!(matches!(value_from_slice(&with_marker), Err(UbjsonError::InvalidFormat(_))));
    let twice = [b'{', b'U', 1, b'a', b'Z', b'U', 1, b'a', b'T', b'}'];
    assert!(matches!(value_from_slice(&twice), Err(UbjsonError::InvalidFormat(_))));
    let typed_twice = [b'{', b'$', b'Z', b'#', b'U', 2, b'U', 1, b'a', b'U', 1, b'a'];
    assert!(matches!(value_from_slice(&typed_twice), Err(UbjsonError::InvalidFormat(_))));
    let once = [b'{', b'U', 1, b'a', b'Z', b'U', 1, b'b', b'T', b'}'];
    let mut expected = UbjsonMap::new();
    expected.insert("a".to_string(), UbjsonValue::Null);
    expected.insert("b".to_string(), UbjsonValue::Bool(true));
    assert_eq!(value_from_slice(&once).unwrap(), UbjsonValue::Object(expected));
}

#[test]
fn the_kind_stands_before_the_count() {
    assert!(value_from_slice(&[b'[', b'$', b'i', b'#', b'U', 2, 1, 2]).is_ok());
    assert!(matches!(
        value_from_slice(&[b'[', b'#', b'U', 2, b'$', b'i', 1, 2]),
        Err(UbjsonError::InvalidFormat(_))
    ));
    assert!(matches!(
        value_from_slice(&[b'{', b'#', b'U', 0]),
        Err(UbjsonError::InvalidFormat(_))
    ));
}

#[test]
fn a_declared_kind_must_be_primitive() {
    assert!(matches!(
        value_from_slice(&[b'[', b'$', b'[', b'#', b'U', 0]),
        Err(UbjsonError::UnsupportedType(_))
    ));
    assert!(matches!(
        value_from_slice(&[b'{', b'$', b'N', b'}']),
        Err(UbjsonError::UnsupportedType(_))
    ));
    assert!(matches!(
        value_from_slice(&[b'[', b'$', 0x01]),
        Err(UbjsonError::InvalidTypeMarker(0x01))
    ));
    assert!(matches!(value_from_slice(&[b'[', b'$']), Err(UbjsonError::Io(_))));
}

#[test]
fn payloads_are_not_read_as_markers() {
    let data = [b'[', b'$', b'U', b'#', b'U', 3, b'[', b']', b'Z'];
    assert_eq!(
        value_from_slice(&data).unwrap(),
        UbjsonValue::StronglyTypedArray {
            element_type: UbjsonType::UInt8,
            count: Some(3),
            elements: vec![UbjsonValue::UInt8(b'['), UbjsonValue::UInt8(b']'), UbjsonValue::UInt8(b'Z')],
        }
    );
    // Without a count, the end marker ends the array wherever a payload could start.
    let data = [b'[', b'$', b'U', b'[', b']', b'Z'];
    assert_eq!(
        value_from_slice(&data).unwrap(),
        UbjsonValue::StronglyTypedArray {
            element_type: UbjsonType::UInt8,
            count: None,
            elements: vec![UbjsonValue::UInt8(b'[')],
        }
    );
}

#[test]
fn strongly_typed_objects_are_decoded() {
    let data = [b'{', b'$', b'I', b'U', 1, b'a', 0, 100, b'U', 1, b'b', 0, 200, b'}'];
    let mut pairs = UbjsonMap::new();
    pairs.insert("a".to_string(), UbjsonValue::Int16(100));
    pairs.insert("b".to_string(), UbjsonValue::Int16(200));
    let expected = UbjsonValue::StronglyTypedObject { value_type: UbjsonType::Int16, count: None, pairs };
    assert_eq!(value_from_slice(&data).unwrap(), expected);
    assert_eq!(encode(&expected), data.to_vec());
    assert!(matches!(value_from_slice(&data[..13]), Err(UbjsonError::Io(_))));
}

#[test]
fn padding_stands_before_a_value() {
    assert_eq!(value_from_slice(&[b'[', b'N', b'Z', b']']).unwrap(), UbjsonValue::Array(vec![UbjsonValue::Null]));
    assert!(matches!(value_from_slice(&[b'[', b'N', b']']), Err(UbjsonError::InvalidFormat(_))));
    assert!(matches!(value_from_slice(&[b'N']), Err(UbjsonError::Io(_))));
    assert!(matches!(value_from_slice(&[b'{', b'N', b'}']), Err(UbjsonError::InvalidFormat(_))));
}

#[test]
fn what_follows_the_value_is_not_read() {
    let data = [b'i', 5, b'Z', 0xFF];
    let mut deserializer = UbjsonDeserializer::new(ByteReader::new(&data));
    assert_eq!(deserializer.deserialize_value().unwrap(), UbjsonValue::Int8(5));
    assert_eq!(deserializer.deserialize_value().unwrap(), UbjsonValue::Null);
    assert!(matches!(deserializer.deserialize_value(), Err(UbjsonError::InvalidTypeMarker(0xFF))));
    assert_eq!(deserializer.current_depth(), 0);
    assert_eq!(deserializer.max_depth(), 1000);
    assert_eq!(deserializer.max_size(), 1_000_000);
}

#[test]
fn high_precision_grammar() {
    let deserializer = UbjsonDeserializer::new(ByteReader::new(&[]));
    for text in ["0", "-1", "+1.5", "1.", ".5", "-.5", "1e5", "1E5", "1e+5", "1e-5", "1e", "1e+", "12.5e10"] {
        assert!(deserializer.validate_high_precision_number(text).is_ok(), "{}", text);
    }
    for text in ["", "+", "-", ".", "e5", ".e5", "1.2.3", "1e5e6", "1e5.5", "1e5+", "--1", "1+", "1 ", "١", "0x10", "1e-+5", "NaN"] {
        let error = deserializer.validate_high_precision_number(text).unwrap_err();
        assert_eq!(error.kind(), ErrorKind::InvalidHighPrecision, "{}", text);
    }
    assert!(matches!(
        value_from_slice(&[b'H', b'U', 2, b'1', b'x']),
        Err(UbjsonError::InvalidHighPrecision(_))
    ));
    // Encoding writes the text as it is.
    assert_eq!(encode(&UbjsonValue::HighPrecision("x".to_string())), vec![b'H', b'U', 1, b'x']);
}

#[test]
fn encoding_failures_leave_the_output_alone() {
    let mut serializer = UbjsonSerializer::with_depth_limit(vec![1, 2, 3], 1);
    let nested = UbjsonValue::Array(vec![UbjsonValue::Int8(1), UbjsonValue::Array(vec![])]);
    assert!(serializer.serialize_value(&nested).is_err());
    assert_eq!(serializer.writer(), &vec![1, 2, 3]);
    serializer.serialize_value(&UbjsonValue::Null).unwrap();
    assert_eq!(serializer.into_writer(), vec![1, 2, 3, b'Z']);
}

#[test]
fn error_kinds() {
    assert_eq!(UbjsonError::invalid_format("a").kind(), ErrorKind::InvalidFormat);
    assert_eq!(UbjsonError::unsupported_type("b").kind(), ErrorKind::UnsupportedType);
    assert_eq!(UbjsonError::serde("c").kind(), ErrorKind::Serde);
    assert!(matches!(UbjsonError::invalid_format(5), UbjsonError::InvalidFormat(text) if text == "5"));
    assert_eq!(UbjsonError::UnexpectedEof.kind(), ErrorKind::UnexpectedEof);
    assert_eq!(UbjsonError::Io(IoFailure::UnexpectedEof).kind(), ErrorKind::Io);
    assert_eq!(UbjsonError::SizeLimitExceeded(3).kind(), ErrorKind::SizeLimitExceeded(3));
    assert_eq!(UbjsonError::DepthLimitExceeded(4).kind(), ErrorKind::DepthLimitExceeded(4));
    assert_eq!(UbjsonError::InvalidTypeMarker(9).kind(), ErrorKind::InvalidTypeMarker(9));
    assert_eq!(
        UbjsonError::LengthMismatch { expected: 1, actual: 2 }.kind(),
        ErrorKind::LengthMismatch { expected: 1, actual: 2 }
    );
    assert_eq!(UbjsonError::InvalidChar(String::new()).kind(), ErrorKind::InvalidChar);
    assert_eq!(
        value_from_slice(&[b'S', b'U', 1, 0xFF]).unwrap_err().kind(),
        ErrorKind::InvalidUtf8
    );
}

#[test]
fn maps_keep_order_and_unique_keys() {
    let mut map = UbjsonMap::new();
    assert!(map.is_empty());
    assert_eq!(map.insert("b".to_string(), UbjsonValue::Int8(1)), None);
    assert_eq!(map.insert("a".to_string(), UbjsonValue::Int8(2)), None);
    assert_eq!(map.insert("b".to_string(), UbjsonValue::Int8(3)), Some(UbjsonValue::Int8(1)));
    assert_eq!(map.len(), 2);
    assert!(map.contains_key("a"));
    assert!(!map.contains_key("c"));
    assert_eq!(map.get("b"), Some(&UbjsonValue::Int8(3)));
    assert_eq!(map.get("c"), None);
    assert_eq!(map.entry_at(0), Some((&"b".to_string(), &UbjsonValue::Int8(3))));
    assert_eq!(map.entry_at(1), Some((&"a".to_string(), &UbjsonValue::Int8(2))));
    assert_eq!(map.entry_at(2), None);
    assert_eq!(map.clone(), map);
    assert_eq!(
        encode(&UbjsonValue::Object(map)),
        vec![b'{', b'U', 1, b'b', b'i', 3, b'U', 1, b'a', b'i', 2, b'}']
    );
}

#[test]
fn values_classify_themselves() {
    let typed = UbjsonValue::strongly_typed_array(UbjsonType::Null, vec![UbjsonValue::Null]);
    assert!(typed.is_array());
    assert_eq!(typed.len(), Some(1));
    assert_eq!(typed.get_type(), UbjsonType::ArrayStart);
    assert!(UbjsonValue::empty_object().is_object());
    assert!(UbjsonValue::empty_object().is_empty());
    assert!(UbjsonValue::empty_array().is_empty());
    assert!(!UbjsonValue::Null.is_empty());
    assert!(UbjsonValue::from_char('x').is_char());
    assert!(UbjsonValue::from_bool(false).is_bool());
    assert!(UbjsonValue::from_string("s").is_string());
    assert!(UbjsonValue::HighPrecision("1".to_string()).is_number());
    assert!(!UbjsonValue::HighPrecision("1".to_string()).is_integer());
    assert!(UbjsonValue::Float32(0).is_float());
    assert_eq!(UbjsonValue::from(7u8), UbjsonValue::UInt8(7));
    assert_eq!(UbjsonValue::from('c'), UbjsonValue::Char('c'));
    assert_eq!(UbjsonValue::from("s".to_string()), UbjsonValue::String("s".to_string()));
    assert_eq!(UbjsonValue::from(vec![UbjsonValue::Null]), UbjsonValue::Array(vec![UbjsonValue::Null]));
    let nested = UbjsonValue::Array(vec![UbjsonValue::Object(UbjsonMap::new()), UbjsonValue::String("s".to_string())]);
    assert_eq!(nested.clone(), nested);
    assert_eq!(UbjsonType::HighPrecision.to_string(), "high-precision");
    assert_eq!(UbjsonType::NoOp.name(), "no-op");
}

#[test]
fn round_trip_of_a_document() {
    let mut inner = UbjsonMap::new();
    inner.insert("pi".to_string(), UbjsonValue::HighPrecision("3.14159e0".to_string()));
    inner.insert("".to_string(), UbjsonValue::Array(vec![]));
    let mut outer = UbjsonMap::new();
    outer.insert("inner".to_string(), UbjsonValue::Object(inner));
    outer.insert("長い鍵".to_string(), UbjsonValue::String("x".repeat(300)));
    outer.insert(
        "numbers".to_string(),
        UbjsonValue::Array(vec![
            UbjsonValue::Int8(i8::MIN),
            UbjsonValue::UInt8(u8::MAX),
            UbjsonValue::Int16(i16::MIN),
            UbjsonValue::Int32(i32::MAX),
            UbjsonValue::Int64(i64::MIN),
            UbjsonValue::Float32(f32::MIN.to_bits()),
            UbjsonValue::Float64(f64::MAX.to_bits()),
            UbjsonValue::Char('\u{10ffff}'),
            UbjsonValue::Bool(false),
            UbjsonValue::Null,
        ]),
    );
    let value = UbjsonValue::Object(outer);
    let bytes = encode(&value);
    assert_eq!(value_from_slice(&bytes).unwrap(), value);
    // Cut short anywhere, the document is no document.
    for cut in 0..bytes.len() {
        assert!(value_from_slice(&bytes[..cut]).is_err());
    }
}

#[test]
fn the_buffer_of_an_encoder_is_open_to_the_caller() {
    let mut serializer = UbjsonSerializer::with_settings(Vec::new(), true, 10);
    serializer.serialize_value(&UbjsonValue::Null).unwrap();
    serializer.writer_mut().push(0xAB);
    serializer.serialize_value(&UbjsonValue::Bool(true)).unwrap();
    assert_eq!(serializer.writer(), &vec![b'Z', 0xAB, b'T']);
}

#[test]
fn builders_carry_their_settings() {
    let builder = SerializerBuilder::new();
    assert!(!builder.optimize_containers());
    assert_eq!(builder.max_depth(), 1000);
    let builder = builder.with_container_optimization(true).with_max_depth(7);
    assert!(builder.optimize_containers());
    assert_eq!(builder.max_depth(), 7);
    let serializer = builder.build(vec![1]);
    assert_eq!(serializer.into_writer(), vec![1]);

    let builder = DeserializerBuilder::new();
    assert_eq!((builder.max_depth(), builder.max_size()), (1000, 1_000_000));
    let builder = builder.with_max_depth(3).with_max_size(4);
    assert_eq!((builder.max_depth(), builder.max_size()), (3, 4));
    let data = [b'Z'];
    let deserializer = builder.build(ByteReader::new(&data));
    assert_eq!((deserializer.max_depth(), deserializer.max_size()), (3, 4));
}

#[test]
fn equality_does_not_look_at_the_order_of_keys() {
    let mut first = UbjsonMap::new();
    first.insert("a".to_string(), UbjsonValue::Int8(1));
    first.insert("b".to_string(), UbjsonValue::from_string("x"));
    let mut second = UbjsonMap::new();
    second.insert("b".to_string(), UbjsonValue::from_string("x"));
    second.insert("a".to_string(), UbjsonValue::Int8(1));
    assert!(first == second);
    assert!(UbjsonValue::Object(first.clone()) == UbjsonValue::Object(second.clone()));
    assert!(
        UbjsonValue::Array(vec![UbjsonValue::Object(first.clone())])
            == UbjsonValue::Array(vec![UbjsonValue::Object(second.clone())])
    );

    let mut third = UbjsonMap::new();
    third.insert("a".to_string(), UbjsonValue::Int8(1));
    third.insert("b".to_string(), UbjsonValue::from_string("y"));
    assert!(first != third);
    let mut fourth = UbjsonMap::new();
    fourth.insert("a".to_string(), UbjsonValue::Int8(1));
    fourth.insert("c".to_string(), UbjsonValue::from_string("x"));
    assert!(first != fourth);
    let mut fifth = UbjsonMap::new();
    fifth.insert("a".to_string(), UbjsonValue::Int8(1));
    assert!(first != fifth);
    assert!(fifth != first);
}

#[test]
fn equality_tells_kinds_and_order_of_items_apart() {
    assert!(UbjsonValue::Int8(1) != UbjsonValue::UInt8(1));
    assert!(UbjsonValue::Int8(1) == UbjsonValue::Int8(1));
    assert!(UbjsonValue::Null != UbjsonValue::Bool(false));
    assert!(UbjsonValue::from_string("1") != UbjsonValue::HighPrecision("1".to_string()));
    let forward = UbjsonValue::Array(vec![UbjsonValue::Int8(1), UbjsonValue::Int8(2)]);
    let backward = UbjsonValue::Array(vec![UbjsonValue::Int8(2), UbjsonValue::Int8(1)]);
    assert!(forward != backward);
    let counted = UbjsonValue::StronglyTypedArray {
        element_type: UbjsonType::Int8,
        count: Some(1),
        elements: vec![UbjsonValue::Int8(1)],
    };
    let open = UbjsonValue::StronglyTypedArray {
        element_type: UbjsonType::Int8,
        count: None,
        elements: vec![UbjsonValue::Int8(1)],
    };
    assert!(counted != open);
    assert!(counted == counted.clone());
    assert!(counted != UbjsonValue::Array(vec![UbjsonValue::Int8(1)]));
}

#[test]
fn header_markers_are_dollar_and_hash() {
    assert_eq!(ubjson_rs::types::optimization::TYPE_MARKER, b'$');
    assert_eq!(ubjson_rs::types::optimization::COUNT_MARKER, b'#');
}

#[test]
fn every_marker_byte_names_its_marker() {
    let markers = [
        (b'Z', UbjsonType::Null, "null"),
        (b'N', UbjsonType::NoOp, "no-op"),
        (b'T', UbjsonType::True, "true"),
        (b'F', UbjsonType::False, "false"),
        (b'i', UbjsonType::Int8, "int8"),
        (b'U', UbjsonType::UInt8, "uint8"),
        (b'I', UbjsonType::Int16, "int16"),
        (b'l', UbjsonType::Int32, "int32"),
        (b'L', UbjsonType::Int64, "int64"),
        (b'd', UbjsonType::Float32, "float32"),
        (b'D', UbjsonType::Float64, "float64"),
        (b'H', UbjsonType::HighPrecision, "high-precision"),
        (b'C', UbjsonType::Char, "char"),
        (b'S', UbjsonType::String, "string"),
        (b'[', UbjsonType::ArrayStart, "array-start"),
        (b']', UbjsonType::ArrayEnd, "array-end"),
        (b'{', UbjsonType::ObjectStart, "object-start"),
        (b'}', UbjsonType::ObjectEnd, "object-end"),
    ];
    for (byte, marker, name) in markers {
        assert_eq!(UbjsonType::from_byte(byte).unwrap(), marker);
        assert_eq!(marker.to_byte(), byte);
        assert_eq!(marker.name(), name);
        assert_eq!(marker.to_string(), name);
        let closes = matches!(marker, UbjsonType::ArrayEnd | UbjsonType::ObjectEnd);
        let opens = matches!(marker, UbjsonType::ArrayStart | UbjsonType::ObjectStart);
        assert_eq!(marker.is_container_end(), closes);
        assert_eq!(marker.is_container_start(), opens);
        assert_eq!(marker.is_primitive(), !closes && !opens && marker != UbjsonType::NoOp);
    }
    let known: Vec<u8> = markers.iter().map(|entry| entry.0).collect();
    for byte in 0..=255u8 {
        if !known.contains(&byte) {
            assert!(matches!(
                UbjsonType::from_byte(byte),
                Err(UbjsonError::InvalidTypeMarker(found)) if found == byte
            ));
        }
    }
}
