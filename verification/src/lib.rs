//! Structural schemas for statically typed data, and schema-guided decoding
//! of byte buffers into introspectable dynamic values.
//!
//! A [`Schema`] describes the shape of a type: a scalar, an ordered product
//! (struct, tuple, tuple struct, newtype struct, unit struct) or an enum of
//! unit variants. Given a schema and a byte buffer in fixed-width framing,
//! [`decode`] builds a [`DynamicValue`] of exactly that shape, and [`encode`]
//! writes the value back, byte for byte. [`deserialize_dynamic`] and
//! [`DynamicValue::serialize`] do the same on a [`ByteSource`] and a byte
//! sink that the caller holds. [`record_schema`] infers the schema of a type
//! from the decode requests that the type makes, without any input bytes.

pub mod codec;
pub mod deserialize;
pub mod error;
pub mod names;
pub mod roundtrip;
pub mod schema;
pub mod schema_recorder;
pub mod serialize;
pub mod value;
pub mod wire;

pub use codec::{decode, encode};
pub use deserialize::{
    deserialize_dynamic, EnumVisitor, SchemaDeserializer, SeqAccess, StructVisitor, TupleVisitor,
};
pub use error::{ErrorKind, GenericError};
pub use names::NameCache;
pub use schema::{EnumSchema, Schema, StructSchema, TupleSchema};
pub use schema_recorder::{record_schema, SchemaRecorder, SeqRecorder, TypeDescriptor};
pub use value::DynamicValue;
pub use wire::ByteSource;
