//! A compact, schema-less binary codec.
//!
//! Composite values (records, tagged unions, sequences, maps, optional
//! values, numbers, text) are written to a byte stream and read back
//! without any self-describing tags beyond explicit lengths and variant
//! indices.  Integers use a sign-aware, base-128, continuation-bit
//! variable-length encoding; floating-point bit patterns are stored as
//! fixed-width big-endian words; text is length-prefixed UTF-8.
//!
//! [`Serializer`] is a cursor over a growable output buffer and exposes
//! the write half of the traversal protocol; [`Deserializer`] is a
//! cursor over a borrowed input slice and exposes the read half.  The
//! wire format itself is defined by the specification functions in
//! [`wire`], and the laws relating encoding to decoding are proved in
//! [`laws`].

pub mod de;
pub mod error;
pub mod laws;
pub mod ser;
pub mod wire;

pub use de::Deserializer;
pub use error::Error;
pub use ser::Serializer;
