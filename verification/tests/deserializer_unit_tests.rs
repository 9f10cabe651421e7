use ubjson_rs::{ByteReader, UbjsonDeserializer, UbjsonError, UbjsonMap, UbjsonValue};

#[test]
fn test_deserialize_null() {
    let data = vec![b'Z'];
    let mut deserializer = UbjsonDeserializer::new(ByteReader::new(&data));
    let result = deserializer.deserialize_value().unwrap();
    assert_eq!(result, UbjsonValue::Null);
}

#[test]
fn test_deserialize_bool_true() {
    let data = vec![b'T'];
    let mut deserializer = UbjsonDeserializer::new(ByteReader::new(&data));
    let result = deserializer.deserialize_value().unwrap();
    assert_eq!(result, UbjsonValue::Bool(true));
}

#[test]
fn test_deserialize_bool_false() {
    let data = vec![b'F'];
    let mut deserializer = UbjsonDeserializer::new(ByteReader::new(&data));
    let result = deserializer.deserialize_value().unwrap();
    assert_eq!(result, UbjsonValue::Bool(false));
}

#[test]
fn test_deserialize_int8() {
    let data = vec![b'i', 0x7F]; // 127
    let mut deserializer = UbjsonDeserializer::new(ByteReader::new(&data));
    let result = deserializer.deserialize_value().unwrap();
    assert_eq!(result, UbjsonValue::Int8(127));
}

#[test]
fn test_deserialize_int8_negative() {
    let data = vec![b'i', 0x80]; // -128
    let mut deserializer = UbjsonDeserializer::new(ByteReader::new(&data));
    let result = deserializer.deserialize_value().unwrap();
    assert_eq!(result, UbjsonValue::Int8(-128));
}

#[test]
fn test_deserialize_uint8() {
    let data = vec![b'U', 0xFF]; // 255
    let mut deserializer = UbjsonDeserializer::new(ByteReader::new(&data));
    let result = deserializer.deserialize_value().unwrap();
    assert_eq!(result, UbjsonValue::UInt8(255));
}

#[test]
fn test_deserialize_int16() {
    let data = vec![b'I', 0x7F, 0xFF]; // 32767
    let mut deserializer = UbjsonDeserializer::new(ByteReader::new(&data));
    let result = deserializer.deserialize_value().unwrap();
    assert_eq!(result, UbjsonValue::Int16(32767));
}

#[test]
fn test_deserialize_int32() {
    let data = vec![b'l', 0x7F, 0xFF, 0xFF, 0xFF]; // 2147483647
    let mut deserializer = UbjsonDeserializer::new(ByteReader::new(&data));
    let result = deserializer.deserialize_value().unwrap();
    assert_eq!(result, UbjsonValue::Int32(2147483647));
}

#[test]
fn test_deserialize_int64() {
    let data = vec![b'L', 0x7F, 0xFF, 0xFF, 0xFF, 0xFF, 0xFF, 0xFF, 0xFF]; // 9223372036854775807
    let mut deserializer = UbjsonDeserializer::new(ByteReader::new(&data));
    let result = deserializer.deserialize_value().unwrap();
    assert_eq!(result, UbjsonValue::Int64(9223372036854775807));
}

#[test]
fn test_deserialize_float32() {
    let data = vec![b'd', 0x40, 0x49, 0x0F, 0xDB]; // π as f32
    let mut deserializer = UbjsonDeserializer::new(ByteReader::new(&data));
    let result = deserializer.deserialize_value().unwrap();
    if let UbjsonValue::Float32(value) = result {
        assert!((f32::from_bits(value) - std::f32::consts::PI).abs() < 0.0001);
    } else {
        panic!("Expected Float32 value");
    }
}

#[test]
fn test_deserialize_float64() {
    let data = vec![b'D', 0x40, 0x09, 0x21, 0xFB, 0x54, 0x44, 0x2D, 0x18]; // π as f64
    let mut deserializer = UbjsonDeserializer::new(ByteReader::new(&data));
    let result = deserializer.deserialize_value().unwrap();
    if let UbjsonValue::Float64(value) = result {
        assert!((f64::from_bits(value) - std::f64::consts::PI).abs() < 0.000000001);
    } else {
        panic!("Expected Float64 value");
    }
}

#[test]
fn test_deserialize_char() {
    let data = vec![b'C', b'A'];
    let mut deserializer = UbjsonDeserializer::new(ByteReader::new(&data));
    let result = deserializer.deserialize_value().unwrap();
    assert_eq!(result, UbjsonValue::Char('A'));
}

#[test]
fn test_deserialize_char_unicode() {
    // UTF-8 encoding of '€' (Euro symbol)
    let data = vec![b'C', 0xE2, 0x82, 0xAC];
    let mut deserializer = UbjsonDeserializer::new(ByteReader::new(&data));
    let result = deserializer.deserialize_value().unwrap();
    assert_eq!(result, UbjsonValue::Char('€'));
}

#[test]
fn test_deserialize_string() {
    // String "Hello" with length prefix
    let data = vec![b'S', b'U', 5, b'H', b'e', b'l', b'l', b'o'];
    let mut deserializer = UbjsonDeserializer::new(ByteReader::new(&data));
    let result = deserializer.deserialize_value().unwrap();
    assert_eq!(result, UbjsonValue::String("Hello".to_string()));
}

#[test]
fn test_deserialize_string_unicode() {
    // String "Hello 世界" with UTF-8 encoding
    let hello_world = "Hello 世界";
    let bytes = hello_world.as_bytes();
    let mut data = vec![b'S', b'U', bytes.len() as u8];
    data.extend_from_slice(bytes);

    let mut deserializer = UbjsonDeserializer::new(ByteReader::new(&data));
    let result = deserializer.deserialize_value().unwrap();
    assert_eq!(result, UbjsonValue::String(hello_world.to_string()));
}

#[test]
fn deserializer_test_deserialize_high_precision() {
    // High-precision number "3.141592653589793238462643383279"
    let number_str = "3.141592653589793238462643383279";
    let bytes = number_str.as_bytes();
    let mut data = vec![b'H', b'U', bytes.len() as u8];
    data.extend_from_slice(bytes);

    let mut deserializer = UbjsonDeserializer::new(ByteReader::new(&data));
    let result = deserializer.deserialize_value().unwrap();
    assert_eq!(result, UbjsonValue::HighPrecision(number_str.to_string()));
}

#[test]
fn test_deserialize_high_precision_scientific() {
    // High-precision number in scientific notation
    let number_str = "1.23456789e-10";
    let bytes = number_str.as_bytes();
    let mut data = vec![b'H', b'U', bytes.len() as u8];
    data.extend_from_slice(bytes);

    let mut deserializer = UbjsonDeserializer::new(ByteReader::new(&data));
    let result = deserializer.deserialize_value().unwrap();
    assert_eq!(result, UbjsonValue::HighPrecision(number_str.to_string()));
}

#[test]
fn test_deserialize_no_op() {
    // No-op followed by a null value
    let data = vec![b'N', b'Z'];
    let mut deserializer = UbjsonDeserializer::new(ByteReader::new(&data));
    let result = deserializer.deserialize_value().unwrap();
    assert_eq!(result, UbjsonValue::Null);
}

#[test]
fn deserializer_test_invalid_type_marker() {
    let data = vec![0xFF]; // Invalid type marker
    let mut deserializer = UbjsonDeserializer::new(ByteReader::new(&data));
    let result = deserializer.deserialize_value();
    assert!(result.is_err());
    assert!(matches!(result.unwrap_err(), UbjsonError::InvalidTypeMarker(0xFF)));
}

#[test]
fn deserializer_test_unexpected_eof() {
    let data = vec![b'i']; // Int8 marker but no data
    let mut deserializer = UbjsonDeserializer::new(ByteReader::new(&data));
    let result = deserializer.deserialize_value();
    assert!(result.is_err());
}

#[test]
fn test_invalid_utf8_string() {
    // Invalid UTF-8 sequence
    let data = vec![b'S', b'U', 2, 0xFF, 0xFE];
    let mut deserializer = UbjsonDeserializer::new(ByteReader::new(&data));
    let result = deserializer.deserialize_value();
    assert!(result.is_err());
    assert!(matches!(result.unwrap_err(), UbjsonError::InvalidUtf8(_)));
}

#[test]
fn test_invalid_high_precision_empty() {
    let data = vec![b'H', b'U', 0]; // Empty high-precision number
    let mut deserializer = UbjsonDeserializer::new(ByteReader::new(&data));
    let result = deserializer.deserialize_value();
    assert!(result.is_err());
    assert!(matches!(result.unwrap_err(), UbjsonError::InvalidHighPrecision(_)));
}

#[test]
fn test_invalid_high_precision_format() {
    // Invalid high-precision number with letters
    let number_str = "not_a_number";
    let bytes = number_str.as_bytes();
    let mut data = vec![b'H', b'U', bytes.len() as u8];
    data.extend_from_slice(bytes);

    let mut deserializer = UbjsonDeserializer::new(ByteReader::new(&data));
    let result = deserializer.deserialize_value();
    assert!(result.is_err());
    assert!(matches!(result.unwrap_err(), UbjsonError::InvalidHighPrecision(_)));
}

#[test]
fn test_depth_limit() {
    let data = vec![b'Z']; // Simple null value
    let mut deserializer = UbjsonDeserializer::with_limits(ByteReader::new(&data), 0, 1000);
    let result = deserializer.deserialize_value();
    assert!(result.is_err());
    assert!(matches!(result.unwrap_err(), UbjsonError::DepthLimitExceeded(0)));
}

#[test]
fn test_deserialize_empty_array() {
    let data = vec![b'[', b']']; // Empty array
    let mut deserializer = UbjsonDeserializer::new(ByteReader::new(&data));
    let result = deserializer.deserialize_value().unwrap();
    assert_eq!(result, UbjsonValue::Array(vec![]));
}

#[test]
fn test_deserialize_array_with_primitives() {
    // Array with [null, true, 42]
    let data = vec![
        b'[',           // Array start
        b'Z',           // null
        b'T',           // true
        b'i', 42,       // int8(42)
        b']',           // Array end
    ];
    let mut deserializer = UbjsonDeserializer::new(ByteReader::new(&data));
    let result = deserializer.deserialize_value().unwrap();

    let expected = UbjsonValue::Array(vec![
        UbjsonValue::Null,
        UbjsonValue::Bool(true),
        UbjsonValue::Int8(42),
    ]);
    assert_eq!(result, expected);
}

#[test]
fn test_deserialize_nested_arrays() {
    // Array with [[1, 2], [3]]
    let data = vec![
        b'[',           // Outer array start
        b'[',           // Inner array 1 start
        b'i', 1,        // int8(1)
        b'i', 2,        // int8(2)
        b']',           // Inner array 1 end
        b'[',           // Inner array 2 start
        b'i', 3,        // int8(3)
        b']',           // Inner array 2 end
        b']',           // Outer array end
    ];
    let mut deserializer = UbjsonDeserializer::new(ByteReader::new(&data));
    let result = deserializer.deserialize_value().unwrap();

    let expected = UbjsonValue::Array(vec![
        UbjsonValue::Array(vec![
            UbjsonValue::Int8(1),
            UbjsonValue::Int8(2),
        ]),
        UbjsonValue::Array(vec![
            UbjsonValue::Int8(3),
        ]),
    ]);
    assert_eq!(result, expected);
}

#[test]
fn test_deserialize_empty_object() {
    let data = vec![b'{', b'}']; // Empty object
    let mut deserializer = UbjsonDeserializer::new(ByteReader::new(&data));
    let result = deserializer.deserialize_value().unwrap();
    assert_eq!(result, UbjsonValue::Object(UbjsonMap::new()));
}

#[test]
fn test_deserialize_object_with_primitives() {
    // Object with {"name": "John", "age": 30, "active": true}
    let mut data = vec![b'{']; // Object start

    // Key "name"
    data.push(b'U');
    data.push(4); // length
    data.extend_from_slice(b"name");
    // Value "John"
    data.push(b'S');
    data.push(b'U');
    data.push(4); // length
    data.extend_from_slice(b"John");

    // Key "age"
    data.push(b'U');
    data.push(3); // length
    data.extend_from_slice(b"age");
    // Value 30
    data.push(b'i');
    data.push(30);

    // Key "active"
    data.push(b'U');
    data.push(6); // length
    data.extend_from_slice(b"active");
    // Value true
    data.push(b'T');

    data.push(b'}'); // Object end

    let mut deserializer = UbjsonDeserializer::new(ByteReader::new(&data));
    let result = deserializer.deserialize_value().unwrap();

    let mut expected_map = UbjsonMap::new();
    expected_map.insert("name".to_string(), UbjsonValue::String("John".to_string()));
    expected_map.insert("age".to_string(), UbjsonValue::Int8(30));
    expected_map.insert("active".to_string(), UbjsonValue::Bool(true));

    assert_eq!(result, UbjsonValue::Object(expected_map));
}

#[test]
fn test_deserialize_nested_objects() {
    // Object with {"user": {"name": "John", "id": 1}}
    let mut data = vec![b'{']; // Outer object start

    // Key "user"
    data.push(b'U');
    data.push(4); // length
    data.extend_from_slice(b"user");

    // Value: nested object
    data.push(b'{'); // Inner object start

    // Key "name"
    data.push(b'U');
    data.push(4); // length
    data.extend_from_slice(b"name");
    // Value "John"
    data.push(b'S');
    data.push(b'U');
    data.push(4); // length
    data.extend_from_slice(b"John");

    // Key "id"
    data.push(b'U');
    data.push(2); // length
    data.extend_from_slice(b"id");
    // Value 1
    data.push(b'i');
    data.push(1);

    data.push(b'}'); // Inner object end
    data.push(b'}'); // Outer object end

    let mut deserializer = UbjsonDeserializer::new(ByteReader::new(&data));
    let result = deserializer.deserialize_value().unwrap();

    let mut inner_map = UbjsonMap::new();
    inner_map.insert("name".to_string(), UbjsonValue::String("John".to_string()));
    inner_map.insert("id".to_string(), UbjsonValue::Int8(1));

    let mut outer_map = UbjsonMap::new();
    outer_map.insert("user".to_string(), UbjsonValue::Object(inner_map));

    assert_eq!(result, UbjsonValue::Object(outer_map));
}

#[test]
fn test_deserialize_mixed_containers() {
    // Object with {"numbers": [1, 2, 3], "empty": []}
    let mut data = vec![b'{']; // Object start

    // Key "numbers"
    data.push(b'U');
    data.push(7); // length
    data.extend_from_slice(b"numbers");

    // Value: array [1, 2, 3]
    data.push(b'['); // Array start
    data.push(b'i'); data.push(1);
    data.push(b'i'); data.push(2);
    data.push(b'i'); data.push(3);
    data.push(b']'); // Array end

    // Key "empty"
    data.push(b'U');
    data.push(5); // length
    data.extend_from_slice(b"empty");

    // Value: empty array
    data.push(b'['); // Array start
    data.push(b']'); // Array end

    data.push(b'}'); // Object end

    let mut deserializer = UbjsonDeserializer::new(ByteReader::new(&data));
    let result = deserializer.deserialize_value().unwrap();

    let mut expected_map = UbjsonMap::new();
    expected_map.insert("numbers".to_string(), UbjsonValue::Array(vec![
        UbjsonValue::Int8(1),
        UbjsonValue::Int8(2),
        UbjsonValue::Int8(3),
    ]));
    expected_map.insert("empty".to_string(), UbjsonValue::Array(vec![]));

    assert_eq!(result, UbjsonValue::Object(expected_map));
}

#[test]
fn test_object_duplicate_key_error() {
    // Object with duplicate key "name"
    let mut data = vec![b'{']; // Object start

    // First "name" key
    data.push(b'U');
    data.push(4); // length
    data.extend_from_slice(b"name");
    data.push(b'S');
    data.push(b'U');
    data.push(4); // length
    data.extend_from_slice(b"John");

    // Second "name" key (duplicate)
    data.push(b'U');
    data.push(4); // length
    data.extend_from_slice(b"name");
    data.push(b'S');
    data.push(b'U');
    data.push(4); // length
    data.extend_from_slice(b"Jane");

    data.push(b'}'); // Object end

    let mut deserializer = UbjsonDeserializer::new(ByteReader::new(&data));
    let result = deserializer.deserialize_value();
    assert!(result.is_err());
    assert!(matches!(result.unwrap_err(), UbjsonError::InvalidFormat(_)));
}

#[test]
fn test_object_non_string_key_error() {
    // A key is a length and that many bytes: `i 42` announces 42 bytes,
    // of which only ten follow.
    let data = vec![
        b'{',           // Object start
        b'i', 42,       // length of the key
        b'S', b'U', 5, b'v', b'a', b'l', b'u', b'e',
        b'}',
    ];
    let mut deserializer = UbjsonDeserializer::new(ByteReader::new(&data));
    let result = deserializer.deserialize_value();
    assert!(result.is_err());
    assert!(matches!(result.unwrap_err(), UbjsonError::Io(_)));
}

#[test]
fn test_array_depth_limit() {
    // Create deeply nested array that exceeds depth limit
    let mut data = vec![];
    let depth = 5;

    // Create nested arrays: [[[[[null]]]]]
    for _ in 0..depth {
        data.push(b'[');
    }
    data.push(b'Z'); // null value
    for _ in 0..depth {
        data.push(b']');
    }

    let mut deserializer = UbjsonDeserializer::with_limits(ByteReader::new(&data), 3, 1000);
    let result = deserializer.deserialize_value();
    assert!(result.is_err());
    assert!(matches!(result.unwrap_err(), UbjsonError::DepthLimitExceeded(3)));
}

#[test]
fn test_object_depth_limit() {
    // Create deeply nested object that exceeds depth limit
    let mut data = vec![];
    let depth = 5;

    // Create nested objects: {"a": {"b": {"c": {"d": {"e": null}}}}}
    for i in 0..depth {
        data.push(b'{');
        data.push(b'U');
        data.push(1); // key length
        data.push(b'a' + i as u8); // key: "a", "b", "c", etc.
    }
    data.push(b'Z'); // null value
    for _ in 0..depth {
        data.push(b'}');
    }

    let mut deserializer = UbjsonDeserializer::with_limits(ByteReader::new(&data), 3, 1000);
    let result = deserializer.deserialize_value();
    assert!(result.is_err());
    assert!(matches!(result.unwrap_err(), UbjsonError::DepthLimitExceeded(3)));
}

#[test]
fn test_array_size_limit() {
    // Create array with too many elements
    let mut data = vec![b'[']; // Array start

    let size_limit = 3;
    for i in 0..size_limit + 1 {
        data.push(b'i');
        data.push(i as u8);
    }
    data.push(b']'); // Array end

    let mut deserializer = UbjsonDeserializer::with_limits(ByteReader::new(&data), 1000, size_limit);
    let result = deserializer.deserialize_value();
    assert!(result.is_err());
    assert!(matches!(result.unwrap_err(), UbjsonError::SizeLimitExceeded(_)));
}

#[test]
fn test_object_size_limit() {
    // Create object with too many key-value pairs
    let mut data = vec![b'{']; // Object start

    let size_limit = 2;
    for i in 0..size_limit + 1 {
        // Key
        data.push(b'U');
        data.push(4); // length (corrected)
        data.extend_from_slice(b"key");
        data.push(b'0' + i as u8); // Make keys unique: "key0", "key1", etc.

        // Value
        data.push(b'i');
        data.push(i as u8);
    }
    data.push(b'}'); // Object end

    let mut deserializer = UbjsonDeserializer::with_limits(ByteReader::new(&data), 1000, size_limit);
    let result = deserializer.deserialize_value();
    assert!(result.is_err());
    match result.unwrap_err() {
        UbjsonError::SizeLimitExceeded(_) => {}, // Expected
        other => panic!("Expected SizeLimitExceeded, got: {:?}", other),
    }
}

#[test]
fn test_unexpected_container_end() {
    let data = vec![b']']; // Array end marker without start
    let mut deserializer = UbjsonDeserializer::new(ByteReader::new(&data));
    let result = deserializer.deserialize_value();
    assert!(result.is_err());
    assert!(matches!(result.unwrap_err(), UbjsonError::InvalidFormat(_)));
}

#[test]
fn test_unexpected_object_end() {
    let data = vec![b'}']; // Object end marker without start
    let mut deserializer = UbjsonDeserializer::new(ByteReader::new(&data));
    let result = deserializer.deserialize_value();
    assert!(result.is_err());
    assert!(matches!(result.unwrap_err(), UbjsonError::InvalidFormat(_)));
}
