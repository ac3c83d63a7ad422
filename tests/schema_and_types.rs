use betterproto_extras::descriptors::{
    BetterprotoEnumClass, BetterprotoMessageClass, FieldAttribute, FieldDescriptor, MessageDescriptor, ProtoType,
    Registry,
};
use betterproto_extras::error::InteropError;
use betterproto_extras::schema::{
    convert_key_type, convert_value_type, convert_wrapped_type, name_is, BetterprotoFieldMeta, ClassInfo,
};
use betterproto_extras::value::{BetterprotoMessage, FieldValue, Value};
use betterproto_extras::well_known_types::{BytesValue, Duration, Int32Value, StringValue, Timestamp};

fn class(module: &str, name: &str, index: usize) -> Option<ClassInfo> {
    Some(ClassInfo { module: module.to_string(), name: name.to_string(), index })
}

#[test]
fn type_names_convert_to_kinds() {
    assert_eq!(convert_key_type("sint64").unwrap(), ProtoType::Sint64);
    assert_eq!(convert_key_type("string").unwrap(), ProtoType::String);
    assert_eq!(convert_key_type("double").unwrap_err(), InteropError::UnsupportedKeyType("double".to_string()));
    assert_eq!(convert_wrapped_type("bytes").unwrap(), ProtoType::BytesValue);
    assert_eq!(convert_wrapped_type("sint32").unwrap_err(), InteropError::UnsupportedWrappedType("sint32".to_string()));
    assert_eq!(convert_value_type("float", &None).unwrap(), ProtoType::Float);
    assert_eq!(convert_value_type("fixed64", &None).unwrap(), ProtoType::Fixed64);
    assert_eq!(convert_value_type("group", &None).unwrap_err(), InteropError::UnsupportedValueType("group".to_string()));
}

#[test]
fn class_fields_convert_by_their_class() {
    assert_eq!(convert_value_type("enum", &class("pkg", "Color", 3)).unwrap(), ProtoType::Enum(BetterprotoEnumClass(3)));
    assert_eq!(
        convert_value_type("message", &class("pkg", "Inner", 2)).unwrap(),
        ProtoType::CustomMessage(BetterprotoMessageClass(2))
    );
    assert_eq!(convert_value_type("message", &class("datetime", "datetime", 0)).unwrap(), ProtoType::Timestamp);
    assert_eq!(convert_value_type("message", &class("datetime", "timedelta", 0)).unwrap(), ProtoType::Duration);
    assert_eq!(convert_value_type("message", &None).unwrap_err(), InteropError::IncompleteMetadata);
}

#[test]
fn names_compare_by_characters() {
    assert!(name_is("int32", "int32"));
    assert!(!name_is("int32", "int3"));
    assert!(!name_is("int32", "int64"));
    assert!(name_is("", ""));
}

#[test]
fn field_metadata_builds_descriptors() {
    let meta = BetterprotoFieldMeta {
        number: 3,
        map_types: None,
        proto_type: "int32".to_string(),
        wraps: None,
        optional: false,
    };
    let d = meta.into_descriptor("xs".to_string(), None, true, None).unwrap();
    assert_eq!(d.name, "xs");
    assert_eq!(d.attribute, FieldAttribute::Repeated);
    assert_eq!(d.value_type, ProtoType::Int32);

    let meta = BetterprotoFieldMeta {
        number: 4,
        map_types: None,
        proto_type: "message".to_string(),
        wraps: Some("uint64".to_string()),
        optional: false,
    };
    let d = meta.into_descriptor("w".to_string(), Some(2), false, None).unwrap();
    assert_eq!(d.attribute, FieldAttribute::Group(2));
    assert_eq!(d.value_type, ProtoType::UInt64Value);

    let meta = BetterprotoFieldMeta {
        number: 5,
        map_types: Some(("string".to_string(), "message".to_string())),
        proto_type: "map".to_string(),
        wraps: None,
        optional: false,
    };
    let d = meta.into_descriptor("m".to_string(), None, false, class("pkg", "Inner", 1)).unwrap();
    assert_eq!(d.attribute, FieldAttribute::MapWithKey(ProtoType::String));
    assert_eq!(d.value_type, ProtoType::CustomMessage(BetterprotoMessageClass(1)));

    let meta = BetterprotoFieldMeta {
        number: 6,
        map_types: Some(("float".to_string(), "int32".to_string())),
        proto_type: "map".to_string(),
        wraps: None,
        optional: true,
    };
    assert_eq!(
        meta.into_descriptor("bad".to_string(), None, false, None).unwrap_err(),
        InteropError::UnsupportedKeyType("float".to_string())
    );

    let meta = BetterprotoFieldMeta {
        number: 7,
        map_types: None,
        proto_type: "string".to_string(),
        wraps: None,
        optional: true,
    };
    let d = meta.into_descriptor("o".to_string(), Some(1), true, None).unwrap();
    assert_eq!(d.attribute, FieldAttribute::Optional);
}

fn fd(name: &str, attribute: FieldAttribute, value_type: ProtoType) -> FieldDescriptor {
    FieldDescriptor { name: name.to_string(), attribute, value_type }
}

#[test]
fn registry_validation_rejects_bad_descriptors() {
    let good = Registry {
        messages: vec![MessageDescriptor {
            fields: vec![
                (1, fd("a", FieldAttribute::Plain, ProtoType::Int32)),
                (2, fd("b", FieldAttribute::Plain, ProtoType::CustomMessage(BetterprotoMessageClass(0)))),
            ],
        }],
    };
    assert!(good.validate());
    let duplicate = Registry {
        messages: vec![MessageDescriptor {
            fields: vec![
                (1, fd("a", FieldAttribute::Plain, ProtoType::Int32)),
                (1, fd("b", FieldAttribute::Plain, ProtoType::Int32)),
            ],
        }],
    };
    assert!(!duplicate.validate());
    let zero_tag = Registry { messages: vec![MessageDescriptor { fields: vec![(0, fd("a", FieldAttribute::Plain, ProtoType::Int32))] }] };
    assert!(!zero_tag.validate());
    let dangling = Registry {
        messages: vec![MessageDescriptor {
            fields: vec![(1, fd("a", FieldAttribute::Plain, ProtoType::CustomMessage(BetterprotoMessageClass(5))))],
        }],
    };
    assert!(!dangling.validate());
    let float_key = Registry {
        messages: vec![MessageDescriptor {
            fields: vec![(1, fd("m", FieldAttribute::MapWithKey(ProtoType::Double), ProtoType::Int32))],
        }],
    };
    assert!(!float_key.validate());
}

#[test]
fn message_accessors() {
    let reg = Registry {
        messages: vec![MessageDescriptor { fields: vec![(1, fd("a", FieldAttribute::Plain, ProtoType::Int32))] }],
    };
    let cls = BetterprotoMessageClass(0);
    assert_eq!(cls.descriptor(&reg).fields.len(), 1);
    let mut msg: BetterprotoMessage = cls.create_instance(&reg);
    assert!(msg.get_field(0).is_none());
    assert!(!msg.should_be_serialized());
    msg.set_field(0, FieldValue::Single(Value::Int32(5)));
    assert!(matches!(msg.get_field(0), Some(FieldValue::Single(Value::Int32(5)))));
    msg.append_unknown_fields(vec![0x10, 0x01]);
    msg.append_unknown_fields(vec![0x18, 0x02]);
    assert_eq!(msg.get_unknown_fields(), vec![0x10, 0x01, 0x18, 0x02]);
    msg.set_deserialized();
    assert!(msg.should_be_serialized());
}

#[test]
fn default_values_of_kinds() {
    let reg = Registry {
        messages: vec![MessageDescriptor { fields: vec![(1, fd("a", FieldAttribute::Plain, ProtoType::Int32))] }],
    };
    assert!(matches!(ProtoType::Sint64.default_value(&reg), Value::Int64(0)));
    assert!(matches!(ProtoType::String.default_value(&reg), Value::Str(s) if s.is_empty()));
    assert!(matches!(ProtoType::Timestamp.default_value(&reg), Value::Timestamp(Timestamp { seconds: 0, nanos: 0 })));
    match ProtoType::CustomMessage(BetterprotoMessageClass(0)).default_value(&reg) {
        Value::Message(m) => {
            assert_eq!(m.fields.len(), 1);
            assert!(m.fields[0].is_none());
            assert!(!m.serialized_on_wire);
        },
        _ => panic!("expected a message"),
    }
}

#[test]
fn well_known_messages_encode_and_decode() {
    let mut buf = vec![];
    Int32Value { value: 7 }.encode_length_delimited(&mut buf);
    assert_eq!(buf, vec![0x02, 0x08, 0x07]);
    let (v, end) = Int32Value::decode_length_delimited(&buf, 0).unwrap();
    assert_eq!((v.value, end), (7, 3));

    let mut buf = vec![];
    Duration { seconds: 1, nanos: 2 }.encode_length_delimited(&mut buf);
    assert_eq!(buf, vec![0x04, 0x08, 0x01, 0x10, 0x02]);
    let (d, _) = Duration::decode_length_delimited(&buf, 0).unwrap();
    assert_eq!(d, Duration { seconds: 1, nanos: 2 });

    let mut buf = vec![];
    StringValue { value: "hé".to_string() }.encode_length_delimited(&mut buf);
    assert_eq!(buf, vec![0x05, 0x0a, 0x03, b'h', 0xc3, 0xa9]);
    let (s, _) = StringValue::decode_length_delimited(&buf, 0).unwrap();
    assert_eq!(s.value, "hé");

    let mut buf = vec![];
    BytesValue { value: vec![] }.encode_length_delimited(&mut buf);
    assert_eq!(buf, vec![0x00]);
    assert!(BytesValue::decode_length_delimited(&[0x03, 0x0a], 0).is_err());
}
