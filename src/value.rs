//! Dynamic field values and message objects.
use vstd::prelude::*;
use crate::descriptors::{BetterprotoMessageClass, MessageDescriptor, Registry};
use crate::well_known_types::{Duration, Timestamp};

verus! {

/// One value of a field. Which variant a kind takes is given by `fits`.
#[derive(Debug)]
pub enum Value {
    Bool(bool),
    /// int32, sint32, sfixed32, an enum's ordinal, Int32Value.
    Int32(i32),
    /// int64, sint64, sfixed64, Int64Value.
    Int64(i64),
    /// uint32, fixed32, UInt32Value.
    Uint32(u32),
    /// uint64, fixed64, UInt64Value.
    Uint64(u64),
    /// float and FloatValue, as the IEEE-754 bit pattern.
    Float(u32),
    /// double and DoubleValue, as the IEEE-754 bit pattern.
    Double(u64),
    Bytes(Vec<u8>),
    Str(String),
    Message(BetterprotoMessage),
    Timestamp(Timestamp),
    Duration(Duration),
}

/// What a field holds: one value, a list, or the entries of a map in order.
#[derive(Debug)]
pub enum FieldValue {
    Single(Value),
    Repeated(Vec<Value>),
    Entries(Vec<(Value, Value)>),
}

/// A message object: one slot per field of its descriptor, in the
/// descriptor's order, the bytes of fields that the descriptor does not know,
/// and whether the message was read from the wire.
#[derive(Debug)]
pub struct BetterprotoMessage {
    pub class: BetterprotoMessageClass,
    pub fields: Vec<Option<FieldValue>>,
    pub unknown_fields: Vec<u8>,
    pub serialized_on_wire: bool,
}

} // verus!

verus! {

/// The mathematical form of a [`Value`].
pub enum ValueModel {
    Bool(bool),
    Int32(i32),
    Int64(i64),
    Uint32(u32),
    Uint64(u64),
    Float(u32),
    Double(u64),
    Bytes(Seq<u8>),
    Str(Seq<char>),
    Message(MessageModel),
    Timestamp(Timestamp),
    Duration(Duration),
}

/// The mathematical form of a [`FieldValue`].
pub enum FieldModel {
    Single(ValueModel),
    Repeated(Seq<ValueModel>),
    Entries(Seq<(ValueModel, ValueModel)>),
}

/// The mathematical form of a [`BetterprotoMessage`].
pub struct MessageModel {
    pub class: BetterprotoMessageClass,
    pub fields: Seq<Option<FieldModel>>,
    pub unknown_fields: Seq<u8>,
    pub serialized_on_wire: bool,
}

pub open spec fn value_model(v: Value) -> ValueModel
    decreases v,
{
    match v {
        Value::Bool(b) => ValueModel::Bool(b),
        Value::Int32(n) => ValueModel::Int32(n),
        Value::Int64(n) => ValueModel::Int64(n),
        Value::Uint32(n) => ValueModel::Uint32(n),
        Value::Uint64(n) => ValueModel::Uint64(n),
        Value::Float(n) => ValueModel::Float(n),
        Value::Double(n) => ValueModel::Double(n),
        Value::Bytes(b) => ValueModel::Bytes(b@),
        Value::Str(s) => ValueModel::Str(s@),
        Value::Message(m) => ValueModel::Message(message_model(m)),
        Value::Timestamp(t) => ValueModel::Timestamp(t),
        Value::Duration(d) => ValueModel::Duration(d),
    }
}

pub open spec fn field_model(f: FieldValue) -> FieldModel
    decreases f,
{
    match f {
        FieldValue::Single(v) => FieldModel::Single(value_model(v)),
        FieldValue::Repeated(vs) => FieldModel::Repeated(values_model(vs@)),
        FieldValue::Entries(es) => FieldModel::Entries(entries_model(es@)),
    }
}

/// The mathematical form of a list of values.
pub open spec fn values_model(vs: Seq<Value>) -> Seq<ValueModel>
    decreases vs,
{
    Seq::new(vs.len(), |i: int| if 0 <= i < vs.len() { value_model(vs[i]) } else { ValueModel::Bool(false) })
}

/// The mathematical form of a list of map entries.
pub open spec fn entries_model(es: Seq<(Value, Value)>) -> Seq<(ValueModel, ValueModel)>
    decreases es,
{
    Seq::new(
        es.len(),
        |i: int|
            if 0 <= i < es.len() {
                (value_model(es[i].0), value_model(es[i].1))
            } else {
                (ValueModel::Bool(false), ValueModel::Bool(false))
            },
    )
}

/// The mathematical form of the slots of a message.
pub open spec fn slots_model(fs: Seq<Option<FieldValue>>) -> Seq<Option<FieldModel>>
    decreases fs,
{
    Seq::new(
        fs.len(),
        |i: int|
            if 0 <= i < fs.len() {
                match fs[i] {
                    Some(f) => Some(field_model(f)),
                    None => None,
                }
            } else {
                None
            },
    )
}

pub open spec fn message_model(m: BetterprotoMessage) -> MessageModel
    decreases m,
{
    MessageModel {
        class: m.class,
        fields: slots_model(m.fields@),
        unknown_fields: m.unknown_fields@,
        serialized_on_wire: m.serialized_on_wire,
    }
}


impl BetterprotoMessage {
    /// Sets the field in slot `index`.
    pub fn set_field(&mut self, index: usize, value: FieldValue)
        requires
            index < old(self).fields@.len(),
        ensures
            message_model(*final(self)) == (MessageModel {
                fields: message_model(*old(self)).fields.update(index as int, Some(field_model(value))),
                ..message_model(*old(self))
            }),
    {
        let ghost before = self.fields@;
        self.fields.set(index, Some(value));
        assert(slots_model(self.fields@) =~= slots_model(before).update(index as int, Some(field_model(value))));
    }

    /// The field in slot `index`, if it is set.
    pub fn get_field(&self, index: usize) -> (r: Option<&FieldValue>)
        requires
            index < self.fields@.len(),
        ensures
            match self.fields@[index as int] {
                Some(f) => r == Some(&f),
                None => r is None,
            },
    {
        match &self.fields[index] {
            Some(f) => Some(f),
            None => None,
        }
    }

    /// Appends bytes of unknown fields after those it holds.
    pub fn append_unknown_fields(&mut self, data: Vec<u8>)
        ensures
            final(self).unknown_fields@ == old(self).unknown_fields@ + data@,
            final(self).fields == old(self).fields,
            final(self).class == old(self).class,
            final(self).serialized_on_wire == old(self).serialized_on_wire,
    {
        crate::scalar::append_bytes(&mut self.unknown_fields, data.as_slice());
    }

    /// A copy of the bytes of unknown fields.
    pub fn get_unknown_fields(&self) -> (r: Vec<u8>)
        ensures
            r@ == self.unknown_fields@,
    {
        crate::scalar::copy_range(self.unknown_fields.as_slice(), 0, self.unknown_fields.len())
    }

    /// Marks the message as read from the wire.
    pub fn set_deserialized(&mut self)
        ensures
            final(self).serialized_on_wire,
            final(self).fields == old(self).fields,
            final(self).class == old(self).class,
            final(self).unknown_fields == old(self).unknown_fields,
    {
        self.serialized_on_wire = true;
    }

    /// Whether the message is written when it sits in a plain field: only
    /// when it was read from the wire.
    pub fn should_be_serialized(&self) -> (r: bool)
        ensures
            r == self.serialized_on_wire,
    {
        self.serialized_on_wire
    }
}

impl BetterprotoMessageClass {
    /// The descriptor of this class.
    pub fn descriptor<'a>(&self, reg: &'a Registry) -> (r: &'a MessageDescriptor)
        requires
            self.0 < reg.messages@.len(),
        ensures
            *r == reg.messages@[self.0 as int],
    {
        &reg.messages[self.0]
    }

    /// A fresh message of this class: nothing set, not read from the wire.
    pub fn create_instance(&self, reg: &Registry) -> (r: BetterprotoMessage)
        requires
            self.0 < reg.messages@.len(),
        ensures
            r.class == *self,
            r.fields@.len() == reg.messages@[self.0 as int].fields@.len(),
            forall|i: int| 0 <= i < r.fields@.len() ==> r.fields@[i] is None,
            r.unknown_fields@.len() == 0,
            !r.serialized_on_wire,
    {
        let n = reg.messages[self.0].fields.len();
        let mut fields: Vec<Option<FieldValue>> = Vec::new();
        let mut i: usize = 0;
        while i < n
            invariant
                i <= n,
                fields@.len() == i,
                forall|j: int| 0 <= j < i ==> fields@[j] is None,
            decreases n - i,
        {
            fields.push(None);
            i = i + 1;
        }
        BetterprotoMessage { class: *self, fields, unknown_fields: Vec::new(), serialized_on_wire: false }
    }
}

} // verus!
