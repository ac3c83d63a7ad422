use betterproto_extras::descriptors::{
    BetterprotoEnumClass, BetterprotoMessageClass, FieldAttribute, FieldDescriptor, MessageDescriptor, ProtoType,
    Registry,
};
use betterproto_extras::error::{DecodeError, EncodeError};
use betterproto_extras::value::{BetterprotoMessage, FieldValue, Value};
use betterproto_extras::well_known_types::{Duration, Timestamp};
use betterproto_extras::{merge_into_message, serialize};

fn fd(name: &str, attribute: FieldAttribute, value_type: ProtoType) -> FieldDescriptor {
    FieldDescriptor { name: name.to_string(), attribute, value_type }
}

fn registry(messages: Vec<Vec<(u32, FieldDescriptor)>>) -> Registry {
    Registry { messages: messages.into_iter().map(|fields| MessageDescriptor { fields }).collect() }
}

fn fresh(reg: &Registry, class: usize) -> BetterprotoMessage {
    let n = reg.messages[class].fields.len();
    BetterprotoMessage {
        class: BetterprotoMessageClass(class),
        fields: (0..n).map(|_| None).collect(),
        unknown_fields: vec![],
        serialized_on_wire: false,
    }
}

fn single(v: Value) -> Option<FieldValue> {
    Some(FieldValue::Single(v))
}

fn decode(reg: &Registry, class: usize, bytes: &[u8]) -> Result<BetterprotoMessage, DecodeError> {
    let mut msg = fresh(reg, class);
    merge_into_message(reg, &mut msg, bytes)?;
    Ok(msg)
}

fn int32_of(slot: &Option<FieldValue>) -> Option<i32> {
    match slot {
        Some(FieldValue::Single(Value::Int32(n))) => Some(*n),
        _ => None,
    }
}

fn int32_list(slot: &Option<FieldValue>) -> Vec<i32> {
    match slot {
        Some(FieldValue::Repeated(vs)) => vs
            .iter()
            .map(|v| match v {
                Value::Int32(n) => *n,
                _ => panic!("not an int32"),
            })
            .collect(),
        _ => panic!("not a list"),
    }
}

#[test]
fn int32_field_encodes_as_varint() {
    let reg = registry(vec![vec![(1, fd("a", FieldAttribute::Plain, ProtoType::Int32))]]);
    let mut msg = fresh(&reg, 0);
    msg.fields[0] = single(Value::Int32(150));
    let bytes = serialize(&reg, &msg).unwrap();
    assert_eq!(bytes, vec![0x08, 0x96, 0x01]);
    let back = decode(&reg, 0, &bytes).unwrap();
    assert_eq!(int32_of(&back.fields[0]), Some(150));
    assert!(back.serialized_on_wire);
}

#[test]
fn negative_int32_takes_ten_bytes() {
    let reg = registry(vec![vec![(1, fd("a", FieldAttribute::Plain, ProtoType::Int32))]]);
    let mut msg = fresh(&reg, 0);
    msg.fields[0] = single(Value::Int32(-1));
    let bytes = serialize(&reg, &msg).unwrap();
    assert_eq!(bytes, vec![0x08, 0xff, 0xff, 0xff, 0xff, 0xff, 0xff, 0xff, 0xff, 0xff, 0x01]);
    assert_eq!(int32_of(&decode(&reg, 0, &bytes).unwrap().fields[0]), Some(-1));
}

#[test]
fn zigzag_and_fixed_width_kinds() {
    let reg = registry(vec![vec![
        (1, fd("a", FieldAttribute::Plain, ProtoType::Sint32)),
        (2, fd("b", FieldAttribute::Plain, ProtoType::Sint64)),
        (3, fd("c", FieldAttribute::Plain, ProtoType::Fixed32)),
        (4, fd("d", FieldAttribute::Plain, ProtoType::Double)),
    ]]);
    let mut msg = fresh(&reg, 0);
    msg.fields[0] = single(Value::Int32(-1));
    msg.fields[1] = single(Value::Int64(-2));
    msg.fields[2] = single(Value::Uint32(1));
    msg.fields[3] = single(Value::Double(1.5f64.to_bits()));
    let bytes = serialize(&reg, &msg).unwrap();
    let mut expected = vec![0x08, 0x01, 0x10, 0x03, 0x1d, 0x01, 0x00, 0x00, 0x00, 0x21];
    expected.extend_from_slice(&1.5f64.to_bits().to_le_bytes());
    assert_eq!(bytes, expected);
    let back = decode(&reg, 0, &bytes).unwrap();
    assert!(matches!(back.fields[0], Some(FieldValue::Single(Value::Int32(-1)))));
    assert!(matches!(back.fields[1], Some(FieldValue::Single(Value::Int64(-2)))));
    assert!(matches!(back.fields[2], Some(FieldValue::Single(Value::Uint32(1)))));
    match &back.fields[3] {
        Some(FieldValue::Single(Value::Double(bits))) => assert_eq!(f64::from_bits(*bits), 1.5),
        _ => panic!("double lost"),
    }
}

#[test]
fn fresh_message_encodes_to_nothing() {
    let reg = registry(vec![vec![
        (1, fd("a", FieldAttribute::Plain, ProtoType::Int32)),
        (2, fd("b", FieldAttribute::Plain, ProtoType::String)),
        (3, fd("c", FieldAttribute::Plain, ProtoType::Bool)),
        (4, fd("d", FieldAttribute::Plain, ProtoType::Float)),
        (5, fd("e", FieldAttribute::Group(0), ProtoType::Int32)),
    ]]);
    let mut msg = fresh(&reg, 0);
    msg.fields[0] = single(Value::Int32(0));
    msg.fields[1] = single(Value::Str(String::new()));
    msg.fields[2] = single(Value::Bool(false));
    msg.fields[3] = single(Value::Float((-0.0f32).to_bits()));
    assert_eq!(serialize(&reg, &msg).unwrap(), Vec::<u8>::new());
}

#[test]
fn optional_and_group_zero_values_are_written() {
    let reg = registry(vec![vec![
        (1, fd("a", FieldAttribute::Optional, ProtoType::Int32)),
        (2, fd("b", FieldAttribute::Group(0), ProtoType::Int32)),
    ]]);
    let mut msg = fresh(&reg, 0);
    msg.fields[0] = single(Value::Int32(0));
    msg.fields[1] = single(Value::Int32(0));
    assert_eq!(serialize(&reg, &msg).unwrap(), vec![0x08, 0x00, 0x10, 0x00]);
}

fn oneof_registry() -> Registry {
    registry(vec![vec![
        (1, fd("a", FieldAttribute::Group(7), ProtoType::Int32)),
        (2, fd("b", FieldAttribute::Group(7), ProtoType::String)),
        (3, fd("c", FieldAttribute::Plain, ProtoType::Int32)),
    ]])
}

#[test]
fn oneof_later_member_wins() {
    let reg = oneof_registry();
    let back = decode(&reg, 0, &[0x08, 0x05, 0x18, 0x02, 0x12, 0x01, b'x']).unwrap();
    assert!(back.fields[0].is_none());
    assert!(matches!(&back.fields[1], Some(FieldValue::Single(Value::Str(s))) if s == "x"));
    assert_eq!(int32_of(&back.fields[2]), Some(2));
}

#[test]
fn oneof_returning_member_keeps_last_value() {
    let reg = oneof_registry();
    let back = decode(&reg, 0, &[0x08, 0x05, 0x12, 0x01, b'x', 0x08, 0x09]).unwrap();
    assert_eq!(int32_of(&back.fields[0]), Some(9));
    assert!(back.fields[1].is_none());
}

#[test]
fn packed_and_unpacked_lists_decode_alike() {
    let reg = registry(vec![vec![(4, fd("xs", FieldAttribute::Repeated, ProtoType::Int32))]]);
    let packed = decode(&reg, 0, &[0x22, 0x03, 0x01, 0x02, 0x03]).unwrap();
    let unpacked = decode(&reg, 0, &[0x20, 0x01, 0x20, 0x02, 0x20, 0x03]).unwrap();
    assert_eq!(int32_list(&packed.fields[0]), vec![1, 2, 3]);
    assert_eq!(int32_list(&unpacked.fields[0]), vec![1, 2, 3]);
    let mixed = decode(&reg, 0, &[0x20, 0x01, 0x22, 0x02, 0x02, 0x03]).unwrap();
    assert_eq!(int32_list(&mixed.fields[0]), vec![1, 2, 3]);
}

#[test]
fn repeated_packable_list_is_written_packed() {
    let reg = registry(vec![vec![(4, fd("xs", FieldAttribute::Repeated, ProtoType::Int32))]]);
    let mut msg = fresh(&reg, 0);
    msg.fields[0] = Some(FieldValue::Repeated(vec![Value::Int32(1), Value::Int32(2), Value::Int32(3)]));
    assert_eq!(serialize(&reg, &msg).unwrap(), vec![0x22, 0x03, 0x01, 0x02, 0x03]);
    msg.fields[0] = Some(FieldValue::Repeated(vec![]));
    assert_eq!(serialize(&reg, &msg).unwrap(), Vec::<u8>::new());
}

#[test]
fn repeated_strings_are_written_entry_by_entry() {
    let reg = registry(vec![vec![(1, fd("xs", FieldAttribute::Repeated, ProtoType::String))]]);
    let mut msg = fresh(&reg, 0);
    msg.fields[0] = Some(FieldValue::Repeated(vec![Value::Str("a".to_string()), Value::Str(String::new())]));
    let bytes = serialize(&reg, &msg).unwrap();
    assert_eq!(bytes, vec![0x0a, 0x01, b'a', 0x0a, 0x00]);
    let back = decode(&reg, 0, &bytes).unwrap();
    match &back.fields[0] {
        Some(FieldValue::Repeated(vs)) => {
            assert_eq!(vs.len(), 2);
            assert!(matches!(&vs[1], Value::Str(s) if s.is_empty()));
        },
        _ => panic!("list lost"),
    }
}

fn map_registry() -> Registry {
    registry(vec![vec![(7, fd("m", FieldAttribute::MapWithKey(ProtoType::String), ProtoType::Int32))]])
}

#[test]
fn map_entries_round_trip_with_zero_value() {
    let reg = map_registry();
    let mut msg = fresh(&reg, 0);
    msg.fields[0] = Some(FieldValue::Entries(vec![
        (Value::Str("a".to_string()), Value::Int32(0)),
        (Value::Str("b".to_string()), Value::Int32(2)),
        (Value::Str("c".to_string()), Value::Int32(3)),
    ]));
    let bytes = serialize(&reg, &msg).unwrap();
    assert_eq!(&bytes[..7], &[0x3a, 0x05, 0x0a, 0x01, b'a', 0x10, 0x00]);
    let back = decode(&reg, 0, &bytes).unwrap();
    let mut pairs: Vec<(String, i32)> = match &back.fields[0] {
        Some(FieldValue::Entries(es)) => es
            .iter()
            .map(|(k, v)| match (k, v) {
                (Value::Str(k), Value::Int32(v)) => (k.clone(), *v),
                _ => panic!("wrong entry shape"),
            })
            .collect(),
        _ => panic!("map lost"),
    };
    pairs.sort();
    assert_eq!(pairs, vec![("a".to_string(), 0), ("b".to_string(), 2), ("c".to_string(), 3)]);
}

#[test]
fn map_entry_without_key_gets_default_key() {
    let reg = map_registry();
    let back = decode(&reg, 0, &[0x3a, 0x02, 0x10, 0x07]).unwrap();
    match &back.fields[0] {
        Some(FieldValue::Entries(es)) => {
            assert_eq!(es.len(), 1);
            assert!(matches!(&es[0], (Value::Str(k), Value::Int32(7)) if k.is_empty()));
        },
        _ => panic!("map lost"),
    }
}

#[test]
fn map_entry_with_other_tag_is_rejected() {
    let reg = map_registry();
    assert_eq!(decode(&reg, 0, &[0x3a, 0x02, 0x18, 0x01]).unwrap_err(), DecodeError::InvalidMapEntryTag);
}

#[test]
fn truncated_length_delimited_field_is_rejected() {
    let reg = registry(vec![vec![(2, fd("s", FieldAttribute::Plain, ProtoType::String))]]);
    assert_eq!(decode(&reg, 0, &[0x12, 0x05, b'a']).unwrap_err(), DecodeError::ProstDecode);
    assert_eq!(decode(&reg, 0, &[0x3a, 0x05, b'a']).unwrap_err(), DecodeError::ProstDecode);
}

#[test]
fn invalid_utf8_string_is_rejected() {
    let reg = registry(vec![vec![(2, fd("s", FieldAttribute::Plain, ProtoType::String))]]);
    assert_eq!(decode(&reg, 0, &[0x12, 0x01, 0xff]).unwrap_err(), DecodeError::ProstDecode);
}

#[test]
fn unfinished_varint_is_rejected() {
    let reg = registry(vec![vec![(1, fd("a", FieldAttribute::Plain, ProtoType::Int32))]]);
    assert_eq!(decode(&reg, 0, &[0x08, 0xff]).unwrap_err(), DecodeError::ProstDecode);
    assert_eq!(decode(&reg, 0, &[0x0a, 0x00]).unwrap_err(), DecodeError::ProstDecode);
}

#[test]
fn nested_message_overrunning_its_length_is_rejected() {
    let reg = registry(vec![
        vec![(1, fd("inner", FieldAttribute::Plain, ProtoType::CustomMessage(BetterprotoMessageClass(1))))],
        vec![(1, fd("a", FieldAttribute::Plain, ProtoType::Int32))],
    ]);
    assert_eq!(decode(&reg, 0, &[0x0a, 0x01, 0x08, 0x05]).unwrap_err(), DecodeError::InvalidData);
}

#[test]
fn failed_decode_leaves_message_unchanged() {
    let reg = registry(vec![vec![(1, fd("a", FieldAttribute::Plain, ProtoType::Int32))]]);
    let mut msg = fresh(&reg, 0);
    msg.fields[0] = single(Value::Int32(4));
    assert!(merge_into_message(&reg, &mut msg, &[0x08]).is_err());
    assert_eq!(int32_of(&msg.fields[0]), Some(4));
    assert!(!msg.serialized_on_wire);
}

#[test]
fn nested_messages_round_trip_and_unread_ones_are_left_out() {
    let reg = registry(vec![
        vec![
            (1, fd("inner", FieldAttribute::Plain, ProtoType::CustomMessage(BetterprotoMessageClass(1)))),
            (2, fd("extra", FieldAttribute::Optional, ProtoType::CustomMessage(BetterprotoMessageClass(1)))),
        ],
        vec![(1, fd("a", FieldAttribute::Plain, ProtoType::Int32))],
    ]);
    let mut inner = fresh(&reg, 1);
    inner.fields[0] = single(Value::Int32(3));
    let mut msg = fresh(&reg, 0);
    msg.fields[0] = single(Value::Message(inner));
    assert_eq!(serialize(&reg, &msg).unwrap(), Vec::<u8>::new());
    let mut inner = fresh(&reg, 1);
    inner.fields[0] = single(Value::Int32(3));
    msg.fields[1] = single(Value::Message(inner));
    let bytes = serialize(&reg, &msg).unwrap();
    assert_eq!(bytes, vec![0x12, 0x02, 0x08, 0x03]);
    let back = decode(&reg, 0, &bytes).unwrap();
    match &back.fields[1] {
        Some(FieldValue::Single(Value::Message(m))) => {
            assert!(m.serialized_on_wire);
            assert_eq!(int32_of(&m.fields[0]), Some(3));
            assert_eq!(serialize(&reg, &back).unwrap(), bytes);
        },
        _ => panic!("nested message lost"),
    }
}

#[test]
fn empty_nested_message_read_from_wire_is_written_again() {
    let reg = registry(vec![
        vec![(1, fd("inner", FieldAttribute::Plain, ProtoType::CustomMessage(BetterprotoMessageClass(1))))],
        vec![(1, fd("a", FieldAttribute::Plain, ProtoType::Int32))],
    ]);
    let back = decode(&reg, 0, &[0x0a, 0x00]).unwrap();
    assert_eq!(serialize(&reg, &back).unwrap(), vec![0x0a, 0x00]);
}

#[test]
fn unknown_fields_are_kept_and_written_back() {
    let reg = registry(vec![vec![(1, fd("a", FieldAttribute::Plain, ProtoType::Int32))]]);
    let input = [0x08, 0x01, 0x10, 0x05, 0x1d, 0x01, 0x00, 0x00, 0x00, 0x22, 0x01, 0x61];
    let back = decode(&reg, 0, &input).unwrap();
    assert_eq!(back.unknown_fields, vec![0x10, 0x05, 0x1d, 0x01, 0x00, 0x00, 0x00, 0x22, 0x01, 0x61]);
    let again = serialize(&reg, &back).unwrap();
    assert_eq!(again, input.to_vec());
    let twice = decode(&reg, 0, &again).unwrap();
    assert_eq!(twice.unknown_fields, back.unknown_fields);
}

#[test]
fn merge_appends_unknown_fields_and_overwrites_fields() {
    let reg = registry(vec![vec![
        (1, fd("a", FieldAttribute::Plain, ProtoType::Int32)),
        (3, fd("c", FieldAttribute::Plain, ProtoType::Int32)),
    ]]);
    let mut msg = fresh(&reg, 0);
    msg.fields[0] = single(Value::Int32(1));
    msg.fields[1] = single(Value::Int32(2));
    msg.unknown_fields = vec![0x10, 0x01];
    merge_into_message(&reg, &mut msg, &[0x18, 0x09, 0x20, 0x02]).unwrap();
    assert_eq!(int32_of(&msg.fields[0]), Some(1));
    assert_eq!(int32_of(&msg.fields[1]), Some(9));
    assert_eq!(msg.unknown_fields, vec![0x10, 0x01, 0x20, 0x02]);
}

#[test]
fn wrapper_absent_is_omitted_and_zero_is_written() {
    let reg = registry(vec![vec![(5, fd("w", FieldAttribute::Plain, ProtoType::Int32Value))]]);
    let msg = fresh(&reg, 0);
    assert_eq!(serialize(&reg, &msg).unwrap(), Vec::<u8>::new());
    let mut msg = fresh(&reg, 0);
    msg.fields[0] = single(Value::Int32(0));
    let bytes = serialize(&reg, &msg).unwrap();
    assert_eq!(bytes, vec![0x2a, 0x00]);
    assert_eq!(int32_of(&decode(&reg, 0, &bytes).unwrap().fields[0]), Some(0));
    msg.fields[0] = single(Value::Int32(7));
    let bytes = serialize(&reg, &msg).unwrap();
    assert_eq!(bytes, vec![0x2a, 0x02, 0x08, 0x07]);
    assert_eq!(int32_of(&decode(&reg, 0, &bytes).unwrap().fields[0]), Some(7));
}

#[test]
fn string_wrapper_skips_unknown_inner_fields() {
    let reg = registry(vec![vec![(1, fd("w", FieldAttribute::Plain, ProtoType::StringValue))]]);
    let back = decode(&reg, 0, &[0x0a, 0x05, 0x10, 0x01, 0x0a, 0x01, b'z']).unwrap();
    assert!(matches!(&back.fields[0], Some(FieldValue::Single(Value::Str(s))) if s == "z"));
}

#[test]
fn timestamp_round_trips() {
    let reg = registry(vec![vec![(6, fd("t", FieldAttribute::Plain, ProtoType::Timestamp))]]);
    let mut msg = fresh(&reg, 0);
    msg.fields[0] = single(Value::Timestamp(Timestamp { seconds: 1_700_000_000, nanos: 0 }));
    let bytes = serialize(&reg, &msg).unwrap();
    assert_eq!(bytes, vec![0x32, 0x06, 0x08, 0x80, 0xe2, 0xcf, 0xaa, 0x06]);
    let back = decode(&reg, 0, &bytes).unwrap();
    assert!(matches!(
        back.fields[0],
        Some(FieldValue::Single(Value::Timestamp(Timestamp { seconds: 1_700_000_000, nanos: 0 })))
    ));
}

#[test]
fn negative_duration_round_trips() {
    let reg = registry(vec![vec![(1, fd("d", FieldAttribute::Optional, ProtoType::Duration))]]);
    let mut msg = fresh(&reg, 0);
    msg.fields[0] = single(Value::Duration(Duration { seconds: -3, nanos: -500 }));
    let back = decode(&reg, 0, &serialize(&reg, &msg).unwrap()).unwrap();
    assert!(matches!(
        back.fields[0],
        Some(FieldValue::Single(Value::Duration(Duration { seconds: -3, nanos: -500 })))
    ));
    let mut msg = fresh(&reg, 0);
    msg.fields[0] = single(Value::Duration(Duration { seconds: 0, nanos: 0 }));
    assert_eq!(serialize(&reg, &msg).unwrap(), vec![0x0a, 0x00]);
}

#[test]
fn enum_fields_carry_their_ordinal() {
    let reg = registry(vec![vec![(1, fd("e", FieldAttribute::Repeated, ProtoType::Enum(BetterprotoEnumClass(0))))]]);
    let mut msg = fresh(&reg, 0);
    msg.fields[0] = Some(FieldValue::Repeated(vec![Value::Int32(2), Value::Int32(-1)]));
    let bytes = serialize(&reg, &msg).unwrap();
    assert_eq!(bytes[0], 0x0a);
    assert_eq!(int32_list(&decode(&reg, 0, &bytes).unwrap().fields[0]), vec![2, -1]);
}

#[test]
fn mismatched_value_shape_is_a_downcast_error() {
    let reg = registry(vec![vec![(1, fd("a", FieldAttribute::Plain, ProtoType::Int32))]]);
    let mut msg = fresh(&reg, 0);
    msg.fields[0] = single(Value::Str("x".to_string()));
    assert_eq!(serialize(&reg, &msg).unwrap_err(), EncodeError::DowncastFailed);
    msg.fields[0] = Some(FieldValue::Repeated(vec![Value::Int32(1)]));
    assert_eq!(serialize(&reg, &msg).unwrap_err(), EncodeError::DowncastFailed);
    let mut short = fresh(&reg, 0);
    short.fields.clear();
    assert_eq!(serialize(&reg, &short).unwrap_err(), EncodeError::DowncastFailed);
}

#[test]
fn error_messages_name_the_failure() {
    assert_eq!(DecodeError::InvalidData.message(), "The given binary data is not a valid protobuf message.");
    assert_eq!(DecodeError::ProstDecode.message(), "The given binary data does not match the protobuf schema.");
    assert_eq!(EncodeError::DowncastFailed.message(), "Given object is not a valid betterproto message.");
}
