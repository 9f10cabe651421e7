//! A binary codec for a JSON-like value model in the UBJSON style.
//!
//! A [`UbjsonValue`] is turned into a compact byte stream and back. Arrays
//! and objects whose entries share one primitive kind can be written in a
//! strongly-typed form that names the kind once. Decoding is bounded in
//! nesting depth and in the number of entries per container.
//!
//! What encoding produces is stated by [`serializer::encode_value`], what
//! decoding accepts by [`deserializer::parse_value`], and how the two relate
//! by the laws in [`laws`].

pub mod binding;
pub mod deserializer;
pub mod encoding;
pub mod error;
pub mod laws;
pub mod serializer;
pub mod types;
pub mod value;

pub use deserializer::UbjsonDeserializer;
pub use encoding::ByteReader;
pub use error::{ErrorKind, IoFailure, UbjsonError};
pub use serializer::UbjsonSerializer;
pub use types::UbjsonType;
pub use value::{UbjsonMap, UbjsonValue, ValueModel};

use vstd::prelude::*;

verus! {

/// Encodes a value with the default settings: no optimization, and the
/// default depth limit.
pub fn value_to_vec(value: &UbjsonValue) -> (result: Result<Vec<u8>, UbjsonError>)
    ensures
        match result {
            Ok(bytes) => serializer::encode_value(
                value@,
                0,
                false,
                serializer::DEFAULT_MAX_DEPTH,
            ) == Ok::<Seq<u8>, ErrorKind>(bytes@),
            Err(e) => serializer::encode_value(value@, 0, false, serializer::DEFAULT_MAX_DEPTH)
                == Err::<Seq<u8>, ErrorKind>(e.kind()),
        },
{
    SerializerBuilder::new().value_to_vec(value)
}

/// Decodes the value that a byte slice starts with, with the default
/// limits.
pub fn value_from_slice(slice: &[u8]) -> (result: Result<UbjsonValue, UbjsonError>)
    ensures
        match result {
            Ok(value) => deserializer::decode(
                slice@,
                deserializer::DEFAULT_MAX_DEPTH,
                deserializer::DEFAULT_MAX_SIZE,
            ) == Ok::<ValueModel, ErrorKind>(value@),
            Err(e) => deserializer::decode(
                slice@,
                deserializer::DEFAULT_MAX_DEPTH,
                deserializer::DEFAULT_MAX_SIZE,
            ) == Err::<ValueModel, ErrorKind>(e.kind()),
        },
{
    DeserializerBuilder::new().value_from_slice(slice)
}

/// Encodes a value with the default settings and appends its bytes to
/// `writer`. Where the value has no encoding, `writer` stays as it was.
pub fn value_to_writer(writer: &mut Vec<u8>, value: &UbjsonValue) -> (result: Result<
    (),
    UbjsonError,
>)
    ensures
        match result {
            Ok(()) => serializer::encode_value(value@, 0, false, serializer::DEFAULT_MAX_DEPTH)
                is Ok && final(writer)@ == old(writer)@ + serializer::encode_value(
                value@,
                0,
                false,
                serializer::DEFAULT_MAX_DEPTH,
            )->Ok_0,
            Err(e) => serializer::encode_value(value@, 0, false, serializer::DEFAULT_MAX_DEPTH)
                == Err::<Seq<u8>, ErrorKind>(e.kind()) && final(writer)@ == old(writer)@,
        },
{
    SerializerBuilder::new().value_to_writer(writer, value)
}

/// Decodes the value that stands at the reader's position, with the default
/// limits.
pub fn value_from_reader(reader: ByteReader) -> (result: Result<UbjsonValue, UbjsonError>)
    ensures
        match result {
            Ok(value) => deserializer::parse_value(
                reader.bytes(),
                reader.offset(),
                0,
                deserializer::DEFAULT_MAX_DEPTH,
                deserializer::DEFAULT_MAX_SIZE,
            ) is Ok && deserializer::parse_value(
                reader.bytes(),
                reader.offset(),
                0,
                deserializer::DEFAULT_MAX_DEPTH,
                deserializer::DEFAULT_MAX_SIZE,
            )->Ok_0.0 == value@,
            Err(e) => deserializer::parse_value(
                reader.bytes(),
                reader.offset(),
                0,
                deserializer::DEFAULT_MAX_DEPTH,
                deserializer::DEFAULT_MAX_SIZE,
            ) is Err && deserializer::parse_value(
                reader.bytes(),
                reader.offset(),
                0,
                deserializer::DEFAULT_MAX_DEPTH,
                deserializer::DEFAULT_MAX_SIZE,
            )->Err_0.0 == e.kind(),
        },
{
    DeserializerBuilder::new().value_from_reader(reader)
}

/// Settings of an encoder, set one by one.
#[derive(Debug, Clone, Copy)]
pub struct SerializerBuilder {
    optimize_containers: bool,
    max_depth: usize,
}

impl SerializerBuilder {
    /// Whether homogeneous containers will take the strongly-typed form.
    pub closed spec fn optimizes(&self) -> bool {
        self.optimize_containers
    }

    /// The depth below which containers must start.
    pub closed spec fn depth_limit(&self) -> usize {
        self.max_depth
    }

    /// Whether homogeneous containers will take the strongly-typed form.
    pub fn optimize_containers(&self) -> (optimize: bool)
        ensures
            optimize == self.optimizes(),
    {
        self.optimize_containers
    }

    /// The depth below which containers must start.
    pub fn max_depth(&self) -> (limit: usize)
        ensures
            limit == self.depth_limit(),
    {
        self.max_depth
    }

    /// The default settings: no optimization, and the default depth limit.
    pub fn new() -> (builder: SerializerBuilder)
        ensures
            !builder.optimizes(),
            builder.depth_limit() == serializer::DEFAULT_MAX_DEPTH,
    {
        SerializerBuilder { optimize_containers: false, max_depth: serializer::DEFAULT_MAX_DEPTH }
    }

    /// Switches the strongly-typed form for homogeneous containers on or
    /// off.
    pub fn with_container_optimization(self, optimize: bool) -> (builder: SerializerBuilder)
        ensures
            builder.optimizes() == optimize,
            builder.depth_limit() == self.depth_limit(),
    {
        SerializerBuilder { optimize_containers: optimize, max_depth: self.max_depth }
    }

    /// Sets the depth below which containers must start.
    pub fn with_max_depth(self, max_depth: usize) -> (builder: SerializerBuilder)
        ensures
            builder.optimizes() == self.optimizes(),
            builder.depth_limit() == max_depth,
    {
        SerializerBuilder { optimize_containers: self.optimize_containers, max_depth }
    }

    /// An encoder with these settings that writes behind `writer`.
    pub fn build(self, writer: Vec<u8>) -> (serializer: UbjsonSerializer)
        ensures
            serializer.output() == writer@,
            serializer.optimizes() == self.optimizes(),
            serializer.depth() == 0,
            serializer.depth_limit() == self.depth_limit(),
    {
        UbjsonSerializer::with_settings(writer, self.optimize_containers, self.max_depth)
    }

    /// Encodes a value with these settings.
    pub fn value_to_vec(self, value: &UbjsonValue) -> (result: Result<Vec<u8>, UbjsonError>)
        ensures
            match result {
                Ok(bytes) => serializer::encode_value(
                    value@,
                    0,
                    self.optimizes(),
                    self.depth_limit(),
                ) == Ok::<Seq<u8>, ErrorKind>(bytes@),
                Err(e) => serializer::encode_value(value@, 0, self.optimizes(), self.depth_limit())
                    == Err::<Seq<u8>, ErrorKind>(e.kind()),
            },
    {
        let mut serializer = self.build(Vec::new());
        match serializer.serialize_value(value) {
            Ok(()) => {
                let bytes = serializer.into_writer();
                assert(bytes@ =~= serializer::encode_value(
                    value@,
                    0,
                    self.optimizes(),
                    self.depth_limit(),
                )->Ok_0);
                Ok(bytes)
            },
            Err(e) => Err(e),
        }
    }

    /// Encodes a value with these settings and appends its bytes to
    /// `writer`. Where the value has no encoding, `writer` stays as it was.
    pub fn value_to_writer(self, writer: &mut Vec<u8>, value: &UbjsonValue) -> (result: Result<
        (),
        UbjsonError,
    >)
        ensures
            match result {
                Ok(()) => serializer::encode_value(
                    value@,
                    0,
                    self.optimizes(),
                    self.depth_limit(),
                ) is Ok && final(writer)@ == old(writer)@ + serializer::encode_value(
                    value@,
                    0,
                    self.optimizes(),
                    self.depth_limit(),
                )->Ok_0,
                Err(e) => serializer::encode_value(value@, 0, self.optimizes(), self.depth_limit())
                    == Err::<Seq<u8>, ErrorKind>(e.kind()) && final(writer)@ == old(writer)@,
            },
    {
        match self.value_to_vec(value) {
            Ok(bytes) => {
                encoding::write_bytes(writer, bytes.as_slice());
                Ok(())
            },
            Err(e) => Err(e),
        }
    }
}

impl Default for SerializerBuilder {
    fn default() -> (builder: SerializerBuilder)
        ensures
            !builder.optimizes(),
            builder.depth_limit() == serializer::DEFAULT_MAX_DEPTH,
    {
        SerializerBuilder::new()
    }
}

/// Settings of a decoder, set one by one.
#[derive(Debug, Clone, Copy)]
pub struct DeserializerBuilder {
    max_depth: usize,
    max_size: usize,
}

impl DeserializerBuilder {
    /// The depth below which values must lie.
    pub closed spec fn depth_limit(&self) -> usize {
        self.max_depth
    }

    /// The number of entries at which a container is full.
    pub closed spec fn size_limit(&self) -> usize {
        self.max_size
    }

    /// The depth below which values must lie.
    pub fn max_depth(&self) -> (limit: usize)
        ensures
            limit == self.depth_limit(),
    {
        self.max_depth
    }

    /// The number of entries at which a container is full.
    pub fn max_size(&self) -> (limit: usize)
        ensures
            limit == self.size_limit(),
    {
        self.max_size
    }

    /// The default limits.
    pub fn new() -> (builder: DeserializerBuilder)
        ensures
            builder.depth_limit() == deserializer::DEFAULT_MAX_DEPTH,
            builder.size_limit() == deserializer::DEFAULT_MAX_SIZE,
    {
        DeserializerBuilder {
            max_depth: deserializer::DEFAULT_MAX_DEPTH,
            max_size: deserializer::DEFAULT_MAX_SIZE,
        }
    }

    /// Sets the depth below which values must lie.
    pub fn with_max_depth(self, max_depth: usize) -> (builder: DeserializerBuilder)
        ensures
            builder.depth_limit() == max_depth,
            builder.size_limit() == self.size_limit(),
    {
        DeserializerBuilder { max_depth, max_size: self.max_size }
    }

    /// Sets the number of entries at which a container is full.
    pub fn with_max_size(self, max_size: usize) -> (builder: DeserializerBuilder)
        ensures
            builder.depth_limit() == self.depth_limit(),
            builder.size_limit() == max_size,
    {
        DeserializerBuilder { max_depth: self.max_depth, max_size }
    }

    /// A decoder with these limits that reads from `reader`.
    pub fn build<'a>(self, reader: ByteReader<'a>) -> (deserializer: UbjsonDeserializer<'a>)
        ensures
            deserializer.input() == reader.bytes(),
            deserializer.position() == reader.offset(),
            deserializer.depth() == 0,
            deserializer.depth_limit() == self.depth_limit(),
            deserializer.size_limit() == self.size_limit(),
    {
        UbjsonDeserializer::with_limits(reader, self.max_depth, self.max_size)
    }

    /// Decodes the value that a byte slice starts with, within these
    /// limits.
    pub fn value_from_slice(self, slice: &[u8]) -> (result: Result<UbjsonValue, UbjsonError>)
        ensures
            match result {
                Ok(value) => deserializer::decode(slice@, self.depth_limit(), self.size_limit())
                    == Ok::<ValueModel, ErrorKind>(value@),
                Err(e) => deserializer::decode(slice@, self.depth_limit(), self.size_limit())
                    == Err::<ValueModel, ErrorKind>(e.kind()),
            },
    {
        let mut deserializer = self.build(ByteReader::new(slice));
        deserializer.deserialize_value()
    }

    /// Decodes the value that stands at the reader's position, within
    /// these limits.
    pub fn value_from_reader(self, reader: ByteReader) -> (result: Result<
        UbjsonValue,
        UbjsonError,
    >)
        ensures
            match result {
                Ok(value) => deserializer::parse_value(
                    reader.bytes(),
                    reader.offset(),
                    0,
                    self.depth_limit(),
                    self.size_limit(),
                ) is Ok && deserializer::parse_value(
                    reader.bytes(),
                    reader.offset(),
                    0,
                    self.depth_limit(),
                    self.size_limit(),
                )->Ok_0.0 == value@,
                Err(e) => deserializer::parse_value(
                    reader.bytes(),
                    reader.offset(),
                    0,
                    self.depth_limit(),
                    self.size_limit(),
                ) is Err && deserializer::parse_value(
                    reader.bytes(),
                    reader.offset(),
                    0,
                    self.depth_limit(),
                    self.size_limit(),
                )->Err_0.0 == e.kind(),
            },
    {
        let mut deserializer = self.build(reader);
        deserializer.deserialize_value()
    }
}

impl Default for DeserializerBuilder {
    fn default() -> (builder: DeserializerBuilder)
        ensures
            builder.depth_limit() == deserializer::DEFAULT_MAX_DEPTH,
            builder.size_limit() == deserializer::DEFAULT_MAX_SIZE,
    {
        DeserializerBuilder::new()
    }
}

} // verus!
