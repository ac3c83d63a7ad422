//! Building field descriptors from the schema metadata that a host message
//! class carries: type names to kinds, and field metadata to descriptors.
use vstd::prelude::*;
use vstd::string::StringSliceAdditionalSpecFns;
use crate::descriptors::{
    BetterprotoEnumClass, BetterprotoMessageClass, FieldAttribute, FieldDescriptor, ProtoType,
};
use crate::error::InteropError;

verus! {

/// Whether two strings hold the same characters.
pub fn name_is(s: &str, lit: &str) -> (r: bool)
    ensures
        r == (s@ == lit@),
{
    let a = s.as_bytes();
    let b = lit.as_bytes();
    proof {
        vstd::utf8::encode_utf8_decode_utf8(s@);
        vstd::utf8::encode_utf8_decode_utf8(lit@);
    }
    if a.len() != b.len() {
        return false;
    }
    let mut i: usize = 0;
    while i < a.len()
        invariant
            a@.len() == b@.len(),
            a@ == s.spec_bytes(),
            b@ == lit.spec_bytes(),
            i <= a@.len(),
            forall|j: int| 0 <= j < i ==> a@[j] == b@[j],
        decreases a@.len() - i,
    {
        if a[i] != b[i] {
            return false;
        }
        i = i + 1;
    }
    assert(a@ =~= b@);
    true
}

/// The kind a type name stands for among the kinds that may key a map.
pub open spec fn key_type_named(name: Seq<char>) -> Option<ProtoType> {
    if name == "bool"@ {
        Some(ProtoType::Bool)
    } else if name == "int32"@ {
        Some(ProtoType::Int32)
    } else if name == "int64"@ {
        Some(ProtoType::Int64)
    } else if name == "uint32"@ {
        Some(ProtoType::Uint32)
    } else if name == "uint64"@ {
        Some(ProtoType::Uint64)
    } else if name == "sint32"@ {
        Some(ProtoType::Sint32)
    } else if name == "sint64"@ {
        Some(ProtoType::Sint64)
    } else if name == "fixed32"@ {
        Some(ProtoType::Fixed32)
    } else if name == "sfixed32"@ {
        Some(ProtoType::Sfixed32)
    } else if name == "fixed64"@ {
        Some(ProtoType::Fixed64)
    } else if name == "sfixed64"@ {
        Some(ProtoType::Sfixed64)
    } else if name == "string"@ {
        Some(ProtoType::String)
    } else {
        None
    }
}

/// The scalar kind a type name stands for: a key kind, or a float, double
/// or bytes kind.
pub open spec fn scalar_type_named(name: Seq<char>) -> Option<ProtoType> {
    if name == "float"@ {
        Some(ProtoType::Float)
    } else if name == "double"@ {
        Some(ProtoType::Double)
    } else if name == "bytes"@ {
        Some(ProtoType::Bytes)
    } else {
        key_type_named(name)
    }
}

/// The wrapper kind that wraps the scalar a type name stands for.
pub open spec fn wrapped_type_named(name: Seq<char>) -> Option<ProtoType> {
    if name == "bool"@ {
        Some(ProtoType::BoolValue)
    } else if name == "int32"@ {
        Some(ProtoType::Int32Value)
    } else if name == "int64"@ {
        Some(ProtoType::Int64Value)
    } else if name == "uint32"@ {
        Some(ProtoType::UInt32Value)
    } else if name == "uint64"@ {
        Some(ProtoType::UInt64Value)
    } else if name == "float"@ {
        Some(ProtoType::FloatValue)
    } else if name == "double"@ {
        Some(ProtoType::DoubleValue)
    } else if name == "string"@ {
        Some(ProtoType::StringValue)
    } else if name == "bytes"@ {
        Some(ProtoType::BytesValue)
    } else {
        None
    }
}

/// The host class that a field's metadata points to: the module and name
/// it is defined under, and its index among the enum or message types of
/// the schema.
pub struct ClassInfo {
    pub module: String,
    pub name: String,
    pub index: usize,
}

/// The kind of an enum or message field of class `c`: the standard
/// `datetime` and `timedelta` classes stand for Timestamp and Duration.
pub open spec fn class_kind(kind_name: Seq<char>, c: ClassInfo) -> ProtoType {
    if kind_name == "enum"@ {
        ProtoType::Enum(BetterprotoEnumClass(c.index))
    } else if c.module@ == "datetime"@ && c.name@ == "datetime"@ {
        ProtoType::Timestamp
    } else if c.module@ == "datetime"@ && c.name@ == "timedelta"@ {
        ProtoType::Duration
    } else {
        ProtoType::CustomMessage(BetterprotoMessageClass(c.index))
    }
}

/// Converts the type name of a map key.
pub fn convert_key_type(kind_name: &str) -> (r: Result<ProtoType, InteropError>)
    ensures
        match key_type_named(kind_name@) {
            Some(t) => r == Ok::<ProtoType, InteropError>(t),
            None => r matches Err(InteropError::UnsupportedKeyType(s)) && s@ == kind_name@,
        },
{
    if name_is(kind_name, "bool") {
        Ok(ProtoType::Bool)
    } else if name_is(kind_name, "int32") {
        Ok(ProtoType::Int32)
    } else if name_is(kind_name, "int64") {
        Ok(ProtoType::Int64)
    } else if name_is(kind_name, "uint32") {
        Ok(ProtoType::Uint32)
    } else if name_is(kind_name, "uint64") {
        Ok(ProtoType::Uint64)
    } else if name_is(kind_name, "sint32") {
        Ok(ProtoType::Sint32)
    } else if name_is(kind_name, "sint64") {
        Ok(ProtoType::Sint64)
    } else if name_is(kind_name, "fixed32") {
        Ok(ProtoType::Fixed32)
    } else if name_is(kind_name, "sfixed32") {
        Ok(ProtoType::Sfixed32)
    } else if name_is(kind_name, "fixed64") {
        Ok(ProtoType::Fixed64)
    } else if name_is(kind_name, "sfixed64") {
        Ok(ProtoType::Sfixed64)
    } else if name_is(kind_name, "string") {
        Ok(ProtoType::String)
    } else {
        Err(InteropError::UnsupportedKeyType(kind_name.to_owned()))
    }
}

/// Converts the type name of the scalar that a wrapper field wraps.
pub fn convert_wrapped_type(kind_name: &str) -> (r: Result<ProtoType, InteropError>)
    ensures
        match wrapped_type_named(kind_name@) {
            Some(t) => r == Ok::<ProtoType, InteropError>(t),
            None => r matches Err(InteropError::UnsupportedWrappedType(s)) && s@ == kind_name@,
        },
{
    if name_is(kind_name, "bool") {
        Ok(ProtoType::BoolValue)
    } else if name_is(kind_name, "int32") {
        Ok(ProtoType::Int32Value)
    } else if name_is(kind_name, "int64") {
        Ok(ProtoType::Int64Value)
    } else if name_is(kind_name, "uint32") {
        Ok(ProtoType::UInt32Value)
    } else if name_is(kind_name, "uint64") {
        Ok(ProtoType::UInt64Value)
    } else if name_is(kind_name, "float") {
        Ok(ProtoType::FloatValue)
    } else if name_is(kind_name, "double") {
        Ok(ProtoType::DoubleValue)
    } else if name_is(kind_name, "string") {
        Ok(ProtoType::StringValue)
    } else if name_is(kind_name, "bytes") {
        Ok(ProtoType::BytesValue)
    } else {
        Err(InteropError::UnsupportedWrappedType(kind_name.to_owned()))
    }
}

/// Converts the type name of a field's values; enum and message fields need
/// the class their metadata points to.
pub fn convert_value_type(kind_name: &str, class: &Option<ClassInfo>) -> (r: Result<ProtoType, InteropError>)
    ensures
        match scalar_type_named(kind_name@) {
            Some(t) => r == Ok::<ProtoType, InteropError>(t),
            None => if kind_name@ == "enum"@ || kind_name@ == "message"@ {
                match class {
                    Some(c) => r == Ok::<ProtoType, InteropError>(class_kind(kind_name@, *c)),
                    None => r == Err::<ProtoType, InteropError>(InteropError::IncompleteMetadata),
                }
            } else {
                r matches Err(InteropError::UnsupportedValueType(s)) && s@ == kind_name@
            },
        },
{
    if name_is(kind_name, "float") {
        return Ok(ProtoType::Float);
    } else if name_is(kind_name, "double") {
        return Ok(ProtoType::Double);
    } else if name_is(kind_name, "bytes") {
        return Ok(ProtoType::Bytes);
    }
    match convert_key_type(kind_name) {
        Ok(t) => {
            return Ok(t);
        },
        Err(_) => {},
    }
    let is_enum = name_is(kind_name, "enum");
    if !is_enum && !name_is(kind_name, "message") {
        return Err(InteropError::UnsupportedValueType(kind_name.to_owned()));
    }
    match class {
        None => Err(InteropError::IncompleteMetadata),
        Some(c) => {
            if is_enum {
                Ok(ProtoType::Enum(BetterprotoEnumClass(c.index)))
            } else if name_is(c.module.as_str(), "datetime") && name_is(c.name.as_str(), "datetime") {
                Ok(ProtoType::Timestamp)
            } else if name_is(c.module.as_str(), "datetime") && name_is(c.name.as_str(), "timedelta") {
                Ok(ProtoType::Duration)
            } else {
                Ok(ProtoType::CustomMessage(BetterprotoMessageClass(c.index)))
            }
        },
    }
}

/// The schema metadata of one field of a host message class.
pub struct BetterprotoFieldMeta {
    pub number: u32,
    /// Key and value type names, for a map field.
    pub map_types: Option<(String, String)>,
    pub proto_type: String,
    /// The wrapped scalar's type name, for a wrapper field.
    pub wraps: Option<String>,
    pub optional: bool,
}

/// The cardinality a field's metadata gives it: explicit presence first,
/// then oneof membership, then list-ness.
pub open spec fn attribute_of(optional: bool, group: Option<u32>, is_list: bool) -> FieldAttribute {
    if optional {
        FieldAttribute::Optional
    } else if group is Some {
        FieldAttribute::Group(group->Some_0)
    } else if is_list {
        FieldAttribute::Repeated
    } else {
        FieldAttribute::Plain
    }
}

impl BetterprotoFieldMeta {
    /// Builds the descriptor of field `field_name`, given the oneof group the
    /// class puts it in, whether its default is a list, and the class its
    /// metadata points to (for a map, the class of the map's values).
    pub fn into_descriptor(self, field_name: String, group: Option<u32>, is_list: bool, class: Option<ClassInfo>) -> (r:
        Result<FieldDescriptor, InteropError>)
        ensures
            match self.map_types {
                Some((k, v)) => match (key_type_named(k@), r) {
                    (Some(kt), Ok(d)) => d.name@ == field_name@ && d.attribute == FieldAttribute::MapWithKey(kt)
                        && convert_value_type_spec(v@, class) == Some(d.value_type),
                    (Some(kt), Err(e)) => convert_value_type_spec(v@, class) is None,
                    (None, _) => r matches Err(InteropError::UnsupportedKeyType(s)) && s@ == k@,
                },
                None => match r {
                    Ok(d) => d.name@ == field_name@ && d.attribute == attribute_of(self.optional, group, is_list)
                        && match self.wraps {
                        Some(w) => wrapped_type_named(w@) == Some(d.value_type),
                        None => convert_value_type_spec(self.proto_type@, class) == Some(d.value_type),
                    },
                    Err(_) => match self.wraps {
                        Some(w) => wrapped_type_named(w@) is None,
                        None => convert_value_type_spec(self.proto_type@, class) is None,
                    },
                },
            },
    {
        match self.map_types {
            Some((key_name, value_name)) => {
                let key_type = match convert_key_type(key_name.as_str()) {
                    Ok(t) => t,
                    Err(e) => {
                        return Err(e);
                    },
                };
                let value_type = match convert_value_type(value_name.as_str(), &class) {
                    Ok(t) => t,
                    Err(e) => {
                        return Err(e);
                    },
                };
                Ok(FieldDescriptor { name: field_name, attribute: FieldAttribute::MapWithKey(key_type), value_type })
            },
            None => {
                let value_type = match self.wraps {
                    Some(wrapped) => convert_wrapped_type(wrapped.as_str()),
                    None => convert_value_type(self.proto_type.as_str(), &class),
                };
                let value_type = match value_type {
                    Ok(t) => t,
                    Err(e) => {
                        return Err(e);
                    },
                };
                let attribute = if self.optional {
                    FieldAttribute::Optional
                } else {
                    match group {
                        Some(g) => FieldAttribute::Group(g),
                        None => if is_list {
                            FieldAttribute::Repeated
                        } else {
                            FieldAttribute::Plain
                        },
                    }
                };
                Ok(FieldDescriptor { name: field_name, attribute, value_type })
            },
        }
    }
}

/// What `convert_value_type` succeeds with, if it does.
pub open spec fn convert_value_type_spec(kind_name: Seq<char>, class: Option<ClassInfo>) -> Option<ProtoType> {
    match scalar_type_named(kind_name) {
        Some(t) => Some(t),
        None => if kind_name == "enum"@ || kind_name == "message"@ {
            match class {
                Some(c) => Some(class_kind(kind_name, c)),
                None => None,
            }
        } else {
            None
        },
    }
}

} // verus!
