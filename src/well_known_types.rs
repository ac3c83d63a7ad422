//! The well-known message shapes: scalar wrappers, Timestamp and Duration.
use vstd::prelude::*;
use crate::descriptors::ProtoType;
use crate::error::DecodeError;
use crate::scalar::{encode_value, parse_value, value_at, value_payload};
use crate::value::{value_model, Value, ValueModel};
use crate::wire::WireType;

verus! {

/// A point in time: seconds since the Unix epoch and a nanosecond part.
#[derive(Clone, Copy, PartialEq, Eq, Debug, Structural, Default)]
pub struct Timestamp {
    pub seconds: i64,
    pub nanos: i32,
}

/// A signed span of time: seconds and a nanosecond part.
#[derive(Clone, Copy, PartialEq, Eq, Debug, Structural, Default)]
pub struct Duration {
    pub seconds: i64,
    pub nanos: i32,
}

#[derive(Clone, Copy, PartialEq, Eq, Debug, Structural, Default)]
pub struct BoolValue {
    pub value: bool,
}

#[derive(Clone, Debug, Default)]
pub struct BytesValue {
    pub value: Vec<u8>,
}

/// A double wrapper; the value is held as its IEEE-754 bit pattern.
#[derive(Clone, Copy, PartialEq, Eq, Debug, Structural, Default)]
pub struct DoubleValue {
    pub value: u64,
}

/// A float wrapper; the value is held as its IEEE-754 bit pattern.
#[derive(Clone, Copy, PartialEq, Eq, Debug, Structural, Default)]
pub struct FloatValue {
    pub value: u32,
}

#[derive(Clone, Copy, PartialEq, Eq, Debug, Structural, Default)]
pub struct Int32Value {
    pub value: i32,
}

#[derive(Clone, Copy, PartialEq, Eq, Debug, Structural, Default)]
pub struct Int64Value {
    pub value: i64,
}

#[derive(Clone, Copy, PartialEq, Eq, Debug, Structural, Default)]
pub struct UInt32Value {
    pub value: u32,
}

#[derive(Clone, Copy, PartialEq, Eq, Debug, Structural, Default)]
pub struct UInt64Value {
    pub value: u64,
}

#[derive(Clone, Debug, Default)]
pub struct StringValue {
    pub value: String,
}


impl BoolValue {
    /// Writes the message as a length prefix and its body.
    pub fn encode_length_delimited(&self, buf: &mut Vec<u8>)
        ensures
            final(buf)@ == old(buf)@ + value_payload(ProtoType::BoolValue, ValueModel::Bool(self.value)),
    {
        let v = Value::Bool(self.value);
        encode_value(ProtoType::BoolValue, &v, buf);
    }

    /// Reads the message from a length prefix and its body at `data[pos..]`:
    /// the message and the position after it.
    pub fn decode_length_delimited(data: &[u8], pos: usize) -> (r: Result<(BoolValue, usize), DecodeError>)
        requires
            pos <= data@.len(),
        ensures
            match value_at(ProtoType::BoolValue, WireType::LengthDelimited, data@.subrange(pos as int, data@.len() as int)) {
                Some((ValueModel::Bool(x), n)) => r matches Ok((r, end)) && r.value == x && end == pos + n,
                Some(_) => false,
                None => r matches Err(e) && e.is_malformed(),
            },
    {
        proof {
            crate::scalar::lemma_value_at_fits(ProtoType::BoolValue, WireType::LengthDelimited, data@.subrange(pos as int, data@.len() as int));
        }
        match parse_value(ProtoType::BoolValue, WireType::LengthDelimited, data, pos) {
            Ok((v, end)) => match v {
                Value::Bool(x) => Ok((BoolValue { value: x }, end)),
                _ => Err(DecodeError::InvalidData),
            },
            Err(e) => Err(e),
        }
    }
}

impl BytesValue {
    /// Writes the message as a length prefix and its body.
    pub fn encode_length_delimited(self, buf: &mut Vec<u8>)
        ensures
            final(buf)@ == old(buf)@ + value_payload(ProtoType::BytesValue, ValueModel::Bytes(self.value@)),
    {
        let v = Value::Bytes(self.value);
        encode_value(ProtoType::BytesValue, &v, buf);
    }

    /// Reads the message from a length prefix and its body at `data[pos..]`:
    /// the message and the position after it.
    pub fn decode_length_delimited(data: &[u8], pos: usize) -> (r: Result<(BytesValue, usize), DecodeError>)
        requires
            pos <= data@.len(),
        ensures
            match value_at(ProtoType::BytesValue, WireType::LengthDelimited, data@.subrange(pos as int, data@.len() as int)) {
                Some((ValueModel::Bytes(x), n)) => r matches Ok((r, end)) && r.value@ == x && end == pos + n,
                Some(_) => false,
                None => r matches Err(e) && e.is_malformed(),
            },
    {
        proof {
            crate::scalar::lemma_value_at_fits(ProtoType::BytesValue, WireType::LengthDelimited, data@.subrange(pos as int, data@.len() as int));
        }
        match parse_value(ProtoType::BytesValue, WireType::LengthDelimited, data, pos) {
            Ok((v, end)) => match v {
                Value::Bytes(x) => Ok((BytesValue { value: x }, end)),
                _ => Err(DecodeError::InvalidData),
            },
            Err(e) => Err(e),
        }
    }
}

impl DoubleValue {
    /// Writes the message as a length prefix and its body.
    pub fn encode_length_delimited(&self, buf: &mut Vec<u8>)
        ensures
            final(buf)@ == old(buf)@ + value_payload(ProtoType::DoubleValue, ValueModel::Double(self.value)),
    {
        let v = Value::Double(self.value);
        encode_value(ProtoType::DoubleValue, &v, buf);
    }

    /// Reads the message from a length prefix and its body at `data[pos..]`:
    /// the message and the position after it.
    pub fn decode_length_delimited(data: &[u8], pos: usize) -> (r: Result<(DoubleValue, usize), DecodeError>)
        requires
            pos <= data@.len(),
        ensures
            match value_at(ProtoType::DoubleValue, WireType::LengthDelimited, data@.subrange(pos as int, data@.len() as int)) {
                Some((ValueModel::Double(x), n)) => r matches Ok((r, end)) && r.value == x && end == pos + n,
                Some(_) => false,
                None => r matches Err(e) && e.is_malformed(),
            },
    {
        proof {
            crate::scalar::lemma_value_at_fits(ProtoType::DoubleValue, WireType::LengthDelimited, data@.subrange(pos as int, data@.len() as int));
        }
        match parse_value(ProtoType::DoubleValue, WireType::LengthDelimited, data, pos) {
            Ok((v, end)) => match v {
                Value::Double(x) => Ok((DoubleValue { value: x }, end)),
                _ => Err(DecodeError::InvalidData),
            },
            Err(e) => Err(e),
        }
    }
}

impl FloatValue {
    /// Writes the message as a length prefix and its body.
    pub fn encode_length_delimited(&self, buf: &mut Vec<u8>)
        ensures
            final(buf)@ == old(buf)@ + value_payload(ProtoType::FloatValue, ValueModel::Float(self.value)),
    {
        let v = Value::Float(self.value);
        encode_value(ProtoType::FloatValue, &v, buf);
    }

    /// Reads the message from a length prefix and its body at `data[pos..]`:
    /// the message and the position after it.
    pub fn decode_length_delimited(data: &[u8], pos: usize) -> (r: Result<(FloatValue, usize), DecodeError>)
        requires
            pos <= data@.len(),
        ensures
            match value_at(ProtoType::FloatValue, WireType::LengthDelimited, data@.subrange(pos as int, data@.len() as int)) {
                Some((ValueModel::Float(x), n)) => r matches Ok((r, end)) && r.value == x && end == pos + n,
                Some(_) => false,
                None => r matches Err(e) && e.is_malformed(),
            },
    {
        proof {
            crate::scalar::lemma_value_at_fits(ProtoType::FloatValue, WireType::LengthDelimited, data@.subrange(pos as int, data@.len() as int));
        }
        match parse_value(ProtoType::FloatValue, WireType::LengthDelimited, data, pos) {
            Ok((v, end)) => match v {
                Value::Float(x) => Ok((FloatValue { value: x }, end)),
                _ => Err(DecodeError::InvalidData),
            },
            Err(e) => Err(e),
        }
    }
}

impl Int32Value {
    /// Writes the message as a length prefix and its body.
    pub fn encode_length_delimited(&self, buf: &mut Vec<u8>)
        ensures
            final(buf)@ == old(buf)@ + value_payload(ProtoType::Int32Value, ValueModel::Int32(self.value)),
    {
        let v = Value::Int32(self.value);
        encode_value(ProtoType::Int32Value, &v, buf);
    }

    /// Reads the message from a length prefix and its body at `data[pos..]`:
    /// the message and the position after it.
    pub fn decode_length_delimited(data: &[u8], pos: usize) -> (r: Result<(Int32Value, usize), DecodeError>)
        requires
            pos <= data@.len(),
        ensures
            match value_at(ProtoType::Int32Value, WireType::LengthDelimited, data@.subrange(pos as int, data@.len() as int)) {
                Some((ValueModel::Int32(x), n)) => r matches Ok((r, end)) && r.value == x && end == pos + n,
                Some(_) => false,
                None => r matches Err(e) && e.is_malformed(),
            },
    {
        proof {
            crate::scalar::lemma_value_at_fits(ProtoType::Int32Value, WireType::LengthDelimited, data@.subrange(pos as int, data@.len() as int));
        }
        match parse_value(ProtoType::Int32Value, WireType::LengthDelimited, data, pos) {
            Ok((v, end)) => match v {
                Value::Int32(x) => Ok((Int32Value { value: x }, end)),
                _ => Err(DecodeError::InvalidData),
            },
            Err(e) => Err(e),
        }
    }
}

impl Int64Value {
    /// Writes the message as a length prefix and its body.
    pub fn encode_length_delimited(&self, buf: &mut Vec<u8>)
        ensures
            final(buf)@ == old(buf)@ + value_payload(ProtoType::Int64Value, ValueModel::Int64(self.value)),
    {
        let v = Value::Int64(self.value);
        encode_value(ProtoType::Int64Value, &v, buf);
    }

    /// Reads the message from a length prefix and its body at `data[pos..]`:
    /// the message and the position after it.
    pub fn decode_length_delimited(data: &[u8], pos: usize) -> (r: Result<(Int64Value, usize), DecodeError>)
        requires
            pos <= data@.len(),
        ensures
            match value_at(ProtoType::Int64Value, WireType::LengthDelimited, data@.subrange(pos as int, data@.len() as int)) {
                Some((ValueModel::Int64(x), n)) => r matches Ok((r, end)) && r.value == x && end == pos + n,
                Some(_) => false,
                None => r matches Err(e) && e.is_malformed(),
            },
    {
        proof {
            crate::scalar::lemma_value_at_fits(ProtoType::Int64Value, WireType::LengthDelimited, data@.subrange(pos as int, data@.len() as int));
        }
        match parse_value(ProtoType::Int64Value, WireType::LengthDelimited, data, pos) {
            Ok((v, end)) => match v {
                Value::Int64(x) => Ok((Int64Value { value: x }, end)),
                _ => Err(DecodeError::InvalidData),
            },
            Err(e) => Err(e),
        }
    }
}

impl UInt32Value {
    /// Writes the message as a length prefix and its body.
    pub fn encode_length_delimited(&self, buf: &mut Vec<u8>)
        ensures
            final(buf)@ == old(buf)@ + value_payload(ProtoType::UInt32Value, ValueModel::Uint32(self.value)),
    {
        let v = Value::Uint32(self.value);
        encode_value(ProtoType::UInt32Value, &v, buf);
    }

    /// Reads the message from a length prefix and its body at `data[pos..]`:
    /// the message and the position after it.
    pub fn decode_length_delimited(data: &[u8], pos: usize) -> (r: Result<(UInt32Value, usize), DecodeError>)
        requires
            pos <= data@.len(),
        ensures
            match value_at(ProtoType::UInt32Value, WireType::LengthDelimited, data@.subrange(pos as int, data@.len() as int)) {
                Some((ValueModel::Uint32(x), n)) => r matches Ok((r, end)) && r.value == x && end == pos + n,
                Some(_) => false,
                None => r matches Err(e) && e.is_malformed(),
            },
    {
        proof {
            crate::scalar::lemma_value_at_fits(ProtoType::UInt32Value, WireType::LengthDelimited, data@.subrange(pos as int, data@.len() as int));
        }
        match parse_value(ProtoType::UInt32Value, WireType::LengthDelimited, data, pos) {
            Ok((v, end)) => match v {
                Value::Uint32(x) => Ok((UInt32Value { value: x }, end)),
                _ => Err(DecodeError::InvalidData),
            },
            Err(e) => Err(e),
        }
    }
}

impl UInt64Value {
    /// Writes the message as a length prefix and its body.
    pub fn encode_length_delimited(&self, buf: &mut Vec<u8>)
        ensures
            final(buf)@ == old(buf)@ + value_payload(ProtoType::UInt64Value, ValueModel::Uint64(self.value)),
    {
        let v = Value::Uint64(self.value);
        encode_value(ProtoType::UInt64Value, &v, buf);
    }

    /// Reads the message from a length prefix and its body at `data[pos..]`:
    /// the message and the position after it.
    pub fn decode_length_delimited(data: &[u8], pos: usize) -> (r: Result<(UInt64Value, usize), DecodeError>)
        requires
            pos <= data@.len(),
        ensures
            match value_at(ProtoType::UInt64Value, WireType::LengthDelimited, data@.subrange(pos as int, data@.len() as int)) {
                Some((ValueModel::Uint64(x), n)) => r matches Ok((r, end)) && r.value == x && end == pos + n,
                Some(_) => false,
                None => r matches Err(e) && e.is_malformed(),
            },
    {
        proof {
            crate::scalar::lemma_value_at_fits(ProtoType::UInt64Value, WireType::LengthDelimited, data@.subrange(pos as int, data@.len() as int));
        }
        match parse_value(ProtoType::UInt64Value, WireType::LengthDelimited, data, pos) {
            Ok((v, end)) => match v {
                Value::Uint64(x) => Ok((UInt64Value { value: x }, end)),
                _ => Err(DecodeError::InvalidData),
            },
            Err(e) => Err(e),
        }
    }
}

impl StringValue {
    /// Writes the message as a length prefix and its body.
    pub fn encode_length_delimited(self, buf: &mut Vec<u8>)
        ensures
            final(buf)@ == old(buf)@ + value_payload(ProtoType::StringValue, ValueModel::Str(self.value@)),
    {
        let v = Value::Str(self.value);
        encode_value(ProtoType::StringValue, &v, buf);
    }

    /// Reads the message from a length prefix and its body at `data[pos..]`:
    /// the message and the position after it.
    pub fn decode_length_delimited(data: &[u8], pos: usize) -> (r: Result<(StringValue, usize), DecodeError>)
        requires
            pos <= data@.len(),
        ensures
            match value_at(ProtoType::StringValue, WireType::LengthDelimited, data@.subrange(pos as int, data@.len() as int)) {
                Some((ValueModel::Str(x), n)) => r matches Ok((r, end)) && r.value@ == x && end == pos + n,
                Some(_) => false,
                None => r matches Err(e) && e.is_malformed(),
            },
    {
        proof {
            crate::scalar::lemma_value_at_fits(ProtoType::StringValue, WireType::LengthDelimited, data@.subrange(pos as int, data@.len() as int));
        }
        match parse_value(ProtoType::StringValue, WireType::LengthDelimited, data, pos) {
            Ok((v, end)) => match v {
                Value::Str(x) => Ok((StringValue { value: x }, end)),
                _ => Err(DecodeError::InvalidData),
            },
            Err(e) => Err(e),
        }
    }
}

impl Timestamp {
    /// Writes the message as a length prefix and its body.
    pub fn encode_length_delimited(&self, buf: &mut Vec<u8>)
        ensures
            final(buf)@ == old(buf)@ + value_payload(ProtoType::Timestamp, ValueModel::Timestamp(*self)),
    {
        let v = Value::Timestamp(*self);
        encode_value(ProtoType::Timestamp, &v, buf);
    }

    /// Reads the message from a length prefix and its body at `data[pos..]`:
    /// the message and the position after it.
    pub fn decode_length_delimited(data: &[u8], pos: usize) -> (r: Result<(Timestamp, usize), DecodeError>)
        requires
            pos <= data@.len(),
        ensures
            match value_at(ProtoType::Timestamp, WireType::LengthDelimited, data@.subrange(pos as int, data@.len() as int)) {
                Some((ValueModel::Timestamp(x), n)) => r matches Ok((r, end)) && r.seconds == x.seconds && r.nanos == x.nanos && end == pos + n,
                Some(_) => false,
                None => r matches Err(e) && e.is_malformed(),
            },
    {
        proof {
            crate::scalar::lemma_value_at_fits(ProtoType::Timestamp, WireType::LengthDelimited, data@.subrange(pos as int, data@.len() as int));
        }
        match parse_value(ProtoType::Timestamp, WireType::LengthDelimited, data, pos) {
            Ok((v, end)) => match v {
                Value::Timestamp(x) => Ok((Timestamp { seconds: x.seconds, nanos: x.nanos }, end)),
                _ => Err(DecodeError::InvalidData),
            },
            Err(e) => Err(e),
        }
    }
}

impl Duration {
    /// Writes the message as a length prefix and its body.
    pub fn encode_length_delimited(&self, buf: &mut Vec<u8>)
        ensures
            final(buf)@ == old(buf)@ + value_payload(ProtoType::Duration, ValueModel::Duration(*self)),
    {
        let v = Value::Duration(*self);
        encode_value(ProtoType::Duration, &v, buf);
    }

    /// Reads the message from a length prefix and its body at `data[pos..]`:
    /// the message and the position after it.
    pub fn decode_length_delimited(data: &[u8], pos: usize) -> (r: Result<(Duration, usize), DecodeError>)
        requires
            pos <= data@.len(),
        ensures
            match value_at(ProtoType::Duration, WireType::LengthDelimited, data@.subrange(pos as int, data@.len() as int)) {
                Some((ValueModel::Duration(x), n)) => r matches Ok((r, end)) && r.seconds == x.seconds && r.nanos == x.nanos && end == pos + n,
                Some(_) => false,
                None => r matches Err(e) && e.is_malformed(),
            },
    {
        proof {
            crate::scalar::lemma_value_at_fits(ProtoType::Duration, WireType::LengthDelimited, data@.subrange(pos as int, data@.len() as int));
        }
        match parse_value(ProtoType::Duration, WireType::LengthDelimited, data, pos) {
            Ok((v, end)) => match v {
                Value::Duration(x) => Ok((Duration { seconds: x.seconds, nanos: x.nanos }, end)),
                _ => Err(DecodeError::InvalidData),
            },
            Err(e) => Err(e),
        }
    }
}

} // verus!
