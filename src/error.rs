//! Error kinds of schema building, decoding and encoding.
use vstd::prelude::*;

verus! {

/// Failures of the host-object side: building a descriptor, or reaching a field.
#[derive(Clone, Debug, PartialEq, Eq)]
pub enum InteropError {
    /// The object is not a message of the expected class.
    NoBetterprotoMessage,
    UnsupportedValueType(String),
    UnsupportedKeyType(String),
    UnsupportedWrappedType(String),
    /// The schema metadata lacks an entry that building a descriptor needs.
    IncompleteMetadata,
}

/// Failures of decoding.
#[derive(Clone, Debug, PartialEq, Eq)]
pub enum DecodeError {
    Interop(InteropError),
    /// A varint, key, length prefix or fixed-width value could not be read,
    /// or a field came with a wire type that its kind does not take.
    ProstDecode,
    MapEntryHasNoKey,
    InvalidMapEntryTag,
    /// The data ends early, or a length-delimited region is overrun.
    InvalidData,
}

/// Failures of encoding.
#[derive(Clone, Debug, PartialEq, Eq)]
pub enum EncodeError {
    NoBetterprotoMessage,
    /// A value does not have the shape that its field's kind asks for.
    DowncastFailed,
    Interop(InteropError),
    ProstEncode,
}

impl DecodeError {
    /// Whether the error is one of malformed wire data rather than of the
    /// target object.
    pub open spec fn is_malformed(&self) -> bool {
        !(self is Interop)
    }

    /// A human-readable cause.
    pub fn message(&self) -> (r: &'static str) {
        match self {
            DecodeError::Interop(_) => "Given object is not a valid betterproto message.",
            DecodeError::InvalidData => "The given binary data is not a valid protobuf message.",
            _ => "The given binary data does not match the protobuf schema.",
        }
    }
}

impl EncodeError {
    /// A human-readable cause.
    pub fn message(&self) -> (r: &'static str) {
        "Given object is not a valid betterproto message."
    }
}

} // verus!
