//! The schema of a message type: its fields, their kinds and cardinalities.
use vstd::prelude::*;

verus! {

/// Handle of an enum type of the host, resolved once when the schema is built.
#[derive(Clone, Copy, PartialEq, Eq, Debug, Structural)]
pub struct BetterprotoEnumClass(pub usize);

/// Handle of a message type: its index among the descriptors of a [`Registry`].
#[derive(Clone, Copy, PartialEq, Eq, Debug, Structural)]
pub struct BetterprotoMessageClass(pub usize);

/// The kind of a field's value.
#[derive(Clone, Copy, PartialEq, Eq, Debug, Structural)]
pub enum ProtoType {
    Bool,
    Bytes,
    Int32,
    Int64,
    Uint32,
    Uint64,
    Float,
    Double,
    String,
    Enum(BetterprotoEnumClass),
    CustomMessage(BetterprotoMessageClass),
    Sint32,
    Sint64,
    Fixed32,
    Sfixed32,
    Fixed64,
    Sfixed64,
    BoolValue,
    BytesValue,
    DoubleValue,
    FloatValue,
    Int32Value,
    Int64Value,
    UInt32Value,
    UInt64Value,
    StringValue,
    Duration,
    Timestamp,
}

/// The cardinality of a field.
#[derive(Clone, PartialEq, Eq, Debug)]
pub enum FieldAttribute {
    /// Singular; left out when it holds its kind's zero value.
    Plain,
    /// Singular with explicit presence; never left out for being zero.
    Optional,
    /// Member of the oneof group of this id; at most one member is set.
    Group(u32),
    /// A map whose keys have this kind; the field's kind is the value kind.
    MapWithKey(ProtoType),
    /// A list.
    Repeated,
}

#[derive(Clone, Debug)]
pub struct FieldDescriptor {
    pub name: String,
    pub attribute: FieldAttribute,
    pub value_type: ProtoType,
}

/// The fields of a message type, in the order in which they are written.
#[derive(Clone, Debug)]
pub struct MessageDescriptor {
    pub fields: Vec<(u32, FieldDescriptor)>,
}

/// The descriptors of all message types that one schema knows, indexed by
/// [`BetterprotoMessageClass`].
#[derive(Clone, Debug)]
pub struct Registry {
    pub messages: Vec<MessageDescriptor>,
}

/// Kinds that a packed list can hold: the scalar numeric kinds and enums.
pub open spec fn is_packable(t: ProtoType) -> bool {
    match t {
        ProtoType::Bool | ProtoType::Int32 | ProtoType::Int64 | ProtoType::Uint32
        | ProtoType::Uint64 | ProtoType::Sint32 | ProtoType::Sint64 | ProtoType::Fixed32
        | ProtoType::Sfixed32 | ProtoType::Fixed64 | ProtoType::Sfixed64 | ProtoType::Float
        | ProtoType::Double | ProtoType::Enum(_) => true,
        _ => false,
    }
}

/// Kinds that can key a map: the integer kinds, `bool` and `string`.
pub open spec fn is_map_key_type(t: ProtoType) -> bool {
    match t {
        ProtoType::Bool | ProtoType::Int32 | ProtoType::Int64 | ProtoType::Uint32
        | ProtoType::Uint64 | ProtoType::Sint32 | ProtoType::Sint64 | ProtoType::Fixed32
        | ProtoType::Sfixed32 | ProtoType::Fixed64 | ProtoType::Sfixed64 | ProtoType::String => true,
        _ => false,
    }
}

impl ProtoType {
    /// Whether a length-delimited entry of this kind may be a packed list.
    pub fn is_packable(&self) -> (r: bool)
        ensures
            r == is_packable(*self),
    {
        match self {
            ProtoType::Bool | ProtoType::Int32 | ProtoType::Int64 | ProtoType::Uint32
            | ProtoType::Uint64 | ProtoType::Sint32 | ProtoType::Sint64 | ProtoType::Fixed32
            | ProtoType::Sfixed32 | ProtoType::Fixed64 | ProtoType::Sfixed64 | ProtoType::Float
            | ProtoType::Double | ProtoType::Enum(_) => true,
            _ => false,
        }
    }
}

impl MessageDescriptor {
    /// Field numbers are positive, at most the largest field number, and unique;
    /// map keys have a key kind; nested message handles point into the registry.
    pub open spec fn wf(&self, n_messages: nat) -> bool {
        &&& forall|i: int|
            0 <= i < self.fields@.len() ==> 1 <= #[trigger] self.fields@[i].0 <= crate::wire::MAX_TAG
        &&& forall|i: int, j: int|
            0 <= i < j < self.fields@.len() ==> #[trigger] self.fields@[i].0 != #[trigger] self.fields@[j].0
        &&& forall|i: int|
            0 <= i < self.fields@.len() ==> type_wf(#[trigger] self.fields@[i].1, n_messages)
    }
}

pub open spec fn class_wf(t: ProtoType, n_messages: nat) -> bool {
    match t {
        ProtoType::CustomMessage(c) => c.0 < n_messages,
        _ => true,
    }
}

pub open spec fn type_wf(f: FieldDescriptor, n_messages: nat) -> bool {
    &&& class_wf(f.value_type, n_messages)
    &&& (f.attribute matches FieldAttribute::MapWithKey(k) ==> is_map_key_type(k))
}

impl Registry {
    pub open spec fn wf(&self) -> bool {
        forall|i: int|
            0 <= i < self.messages@.len() ==> #[trigger] self.messages@[i].wf(
                self.messages@.len() as nat,
            )
    }
}


/// Whether a kind can key a map.
pub fn is_map_key_kind(t: ProtoType) -> (r: bool)
    ensures
        r == is_map_key_type(t),
{
    match t {
        ProtoType::Bool | ProtoType::Int32 | ProtoType::Int64 | ProtoType::Uint32
        | ProtoType::Uint64 | ProtoType::Sint32 | ProtoType::Sint64 | ProtoType::Fixed32
        | ProtoType::Sfixed32 | ProtoType::Fixed64 | ProtoType::Sfixed64 | ProtoType::String => true,
        _ => false,
    }
}

impl MessageDescriptor {
    /// Whether the descriptor keeps its invariant.
    pub fn validate(&self, n_messages: usize) -> (r: bool)
        ensures
            r == self.wf(n_messages as nat),
    {
        let mut i: usize = 0;
        while i < self.fields.len()
            invariant
                i <= self.fields@.len(),
                forall|a: int| 0 <= a < i ==> 1 <= #[trigger] self.fields@[a].0 <= crate::wire::MAX_TAG,
                forall|a: int, b: int|
                    0 <= a < b < i ==> #[trigger] self.fields@[a].0 != #[trigger] self.fields@[b].0,
                forall|a: int| 0 <= a < i ==> type_wf(#[trigger] self.fields@[a].1, n_messages as nat),
            decreases self.fields@.len() - i,
        {
            let tag = self.fields[i].0;
            if tag < 1 || tag > crate::wire::MAX_TAG {
                return false;
            }
            let fd = &self.fields[i].1;
            let class_ok = match fd.value_type {
                ProtoType::CustomMessage(c) => c.0 < n_messages,
                _ => true,
            };
            let key_ok = match fd.attribute {
                FieldAttribute::MapWithKey(k) => is_map_key_kind(k),
                _ => true,
            };
            if !class_ok || !key_ok {
                return false;
            }
            let mut j: usize = 0;
            while j < i
                invariant
                    j <= i,
                    i < self.fields@.len(),
                    tag == self.fields@[i as int].0,
                    forall|a: int| 0 <= a < j ==> #[trigger] self.fields@[a].0 != tag,
                decreases i - j,
            {
                if self.fields[j].0 == tag {
                    return false;
                }
                j = j + 1;
            }
            i = i + 1;
        }
        true
    }
}

impl Registry {
    /// Whether every descriptor of the registry keeps its invariant.
    pub fn validate(&self) -> (r: bool)
        ensures
            r == self.wf(),
    {
        let n = self.messages.len();
        let mut i: usize = 0;
        while i < n
            invariant
                n == self.messages@.len(),
                i <= n,
                forall|a: int| 0 <= a < i ==> #[trigger] self.messages@[a].wf(n as nat),
            decreases n - i,
        {
            if !self.messages[i].validate(n) {
                return false;
            }
            i = i + 1;
        }
        true
    }
}

} // verus!
