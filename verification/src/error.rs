//! The error taxonomy of the codec.
//!
//! Every failure aborts the current encode or decode call and propagates
//! to the caller; no recovery is attempted inside the codec.

use vstd::prelude::*;

verus! {

/// This is the enumeration of all the different kinds of errors which this
/// crate generates.
#[derive(Debug, PartialEq)]
pub enum Error {
    /// A custom error raised by the data structure being transformed
    /// itself; this variant serves as the catch-all passthrough.
    Message(String),
    /// The input buffer was fully consumed before the value was fully
    /// deserialized.
    ValueTruncated,
    /// A container of unknown length cannot be serialized: this format
    /// requires an up-front length prefix.
    LengthRequired,
    /// A value cannot be deserialized without a statically known expected
    /// shape: this format is not self-describing.
    TypeUnknown,
    /// A deserialized integer's magnitude exceeds its target width.
    IntegerOverflow,
    /// An invalid byte sequence was encountered while deserializing UTF-8
    /// encoded text.
    InvalidUtf8,
    /// This format has no field or variant name representation, so
    /// identifiers cannot be determined during deserialization.
    IdentifierUnknown,
}

impl Error {
    /// A human-readable description of the error.
    pub fn message(&self) -> (r: String)
        ensures
            self is Message ==> r@ == self->Message_0@,
            self is ValueTruncated ==> r@ == "ran out of bytes while deserializing value"@,
            self is LengthRequired ==> r@ == "cannot serialize container of unknown length"@,
            self is TypeUnknown ==> r@ == "cannot deserialize without knowing type"@,
            self is IntegerOverflow ==> r@ == "deserialized integer does not fit in its type"@,
            self is InvalidUtf8 ==> r@ == "invalid UTF-8 sequence deserializing text"@,
            self is IdentifierUnknown ==> r@ == "cannot determine identifiers in this format"@,
    {
        match self {
            Error::Message(s) => s.clone(),
            Error::ValueTruncated => "ran out of bytes while deserializing value".to_owned(),
            Error::LengthRequired => "cannot serialize container of unknown length".to_owned(),
            Error::TypeUnknown => "cannot deserialize without knowing type".to_owned(),
            Error::IntegerOverflow => "deserialized integer does not fit in its type".to_owned(),
            Error::InvalidUtf8 => "invalid UTF-8 sequence deserializing text".to_owned(),
            Error::IdentifierUnknown => "cannot determine identifiers in this format".to_owned(),
        }
    }
}

} // verus!
