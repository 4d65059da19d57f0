//! A compact, schema-driven binary wire format for structured values.
//!
//! The bytes carry no field names, type tags or variant names: only primitive
//! values in network byte order, two-byte length and count prefixes for
//! variable-size aggregates, and one-byte discriminants for tagged unions. The
//! reader of a stream must know the shape of the value it expects.
//!
//! [`value`] holds the values, their shapes and the byte layout as spec
//! functions; [`ser`] and [`de`] are the encoder and decoder, each proved to
//! follow that layout; [`laws`] states what holds of the two together.
pub mod de;
mod endian;
pub mod error;
pub mod laws;
pub mod ser;
pub mod value;
pub mod wire;

pub use de::{from_bytes, from_reader, Deserializer};
pub use error::Error;
pub use ser::{to_vec, to_writer, Serializer};
pub use value::{Shape, Value};
