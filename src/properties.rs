//! Properties of the codec that relate its parts.
use vstd::prelude::*;
use crate::decode::{
    unknown_at, clear_siblings, find_from, group_of, known_field, map_entry, message_fields, next_field, one_value,
    DecodeState,
};
use crate::descriptors::{FieldAttribute, FieldDescriptor, ProtoType, Registry};
use crate::encode::{field_bytes, message_bytes, message_parts, single_bytes};
use crate::scalar::{
    delimited, delimited_at, fits, fixed_of, from_fixed, from_varint, is_plain_scalar, is_time, is_wrapper,
    is_zero, known_fields, le32, le32_value, le64, le64_value, scalar_at, scalar_field, scalar_payload,
    time_body, time_parts, unzigzag, value_at, value_payload, varint_of, wire_type_of, wrapped_kind, wrapper_body,
    zero_of, zigzag,
};
use crate::value::{FieldModel, MessageModel, ValueModel};
use crate::wire::{
    key_bytes, lemma_key_round_trip, lemma_varint_round_trip, parse_key, parse_varint, varint_bytes, wire_code,
    wire_of_code, WireType,
};

verus! {

broadcast use vstd::seq_lib::group_seq_properties;

/// A length-delimited field whose announced length runs past the end of the
/// data is rejected: reading the message from that field on fails, whether
/// the field is known or not.
pub proof fn lemma_truncated_field_rejected(
    reg: Registry,
    idx: nat,
    s: Seq<u8>,
    pos: nat,
    end: nat,
    st: DecodeState,
    tag: u32,
    kn: nat,
    len: nat,
    n: nat,
)
    requires
        pos < end,
        pos < s.len(),
        parse_key(s.subrange(pos as int, s.len() as int)) == Some((tag, 2nat, kn)),
        parse_varint(s.subrange((pos + kn) as int, s.len() as int)) == Some((len, n)),
        pos + kn + n + len > s.len(),
    ensures
        message_fields(reg, idx, s, pos, end, st) is None,
{
    let p = pos + kn;
    let rest = s.subrange(p as int, s.len() as int);
    if p <= s.len() {
        assert(delimited_at(rest) is None);
        let fields = reg.messages@[idx as int].fields@;
        match find_from(fields, tag, 0) {
            Some(k) => {
                let fd = fields[k as int].1;
                let t = fd.value_type;
                assert(one_value(reg, t, WireType::LengthDelimited, s, p) is None);
                match fd.attribute {
                    FieldAttribute::MapWithKey(kt) => {
                        assert(map_entry(reg, kt, t, WireType::LengthDelimited, s, p) is None);
                    },
                    _ => {},
                }
                assert(known_field(reg, idx, k, WireType::LengthDelimited, s, p, st) is None);
            },
            None => {},
        }
        assert(next_field(reg, idx, s, pos, st) is None);
    }
}

/// A wrapper-typed field that holds its zero value is still written: as its
/// key and an empty nested message.
pub proof fn lemma_wrapper_zero_written(reg: Registry, tag: u32, fd: FieldDescriptor, v: ValueModel)
    requires
        is_wrapper(fd.value_type),
        fits(fd.value_type, v),
        is_zero(v),
    ensures
        field_bytes(reg, tag, fd, FieldModel::Single(v)) == key_bytes(tag, WireType::LengthDelimited) + seq![0u8],
{
    assert(wrapper_body(fd.value_type, v) =~= Seq::<u8>::empty());
    assert(varint_bytes(0) =~= seq![0u8]);
    assert(delimited(Seq::<u8>::empty()) =~= seq![0u8]);
}

/// A field that is absent from the message object writes nothing.
pub proof fn lemma_absent_field_not_written(reg: Registry, idx: nat, m: MessageModel, i: int)
    requires
        0 <= i < m.fields.len(),
        i < reg.messages@[idx as int].fields@.len(),
        m.fields[i] is None,
    ensures
        message_parts(reg, idx, m)[i] == Seq::<u8>::empty(),
{
}

/// Whether slot `i` holds nothing that a plain field writes: it is unset, or
/// it is a plain singular field holding the zero value of a scalar kind, or a
/// nested message that was not read from the wire.
pub open spec fn silent_slot(fd: FieldDescriptor, slot: Option<FieldModel>) -> bool {
    match slot {
        None => true,
        Some(FieldModel::Single(v)) => fd.attribute is Plain && match fd.value_type {
            ProtoType::CustomMessage(_) => v matches ValueModel::Message(m) && !m.serialized_on_wire,
            t => !is_wrapper(t) && is_zero(v),
        },
        _ => false,
    }
}

/// A message whose plain fields all hold zero values, with nothing else set
/// and no unknown bytes, encodes to nothing.
pub proof fn lemma_default_suppression(reg: Registry, idx: nat, m: MessageModel)
    requires
        m.fields.len() == reg.messages@[idx as int].fields@.len(),
        m.unknown_fields.len() == 0,
        forall|i: int|
            0 <= i < m.fields.len() ==> silent_slot(
                reg.messages@[idx as int].fields@[i].1,
                #[trigger] m.fields[i],
            ),
    ensures
        message_bytes(reg, idx, m) == Seq::<u8>::empty(),
{
    let parts = message_parts(reg, idx, m);
    assert forall|i: int| 0 <= i < parts.len() implies (#[trigger] parts[i]).len() <= 0 by {
        assert(silent_slot(reg.messages@[idx as int].fields@[i].1, m.fields[i]));
    }
    parts.lemma_flatten_length_le_mul(0);
    parts.lemma_flatten_and_flatten_alt_are_equivalent();
    assert(message_bytes(reg, idx, m) =~= Seq::<u8>::empty());
}

/// After a member of a oneof group is read, no other member of that group
/// holds a value, and the member read does.
pub proof fn lemma_oneof_exclusive(reg: Registry, idx: nat, s: Seq<u8>, pos: nat, st: DecodeState, k: nat)
    requires
        st.slots.len() == reg.messages@[idx as int].fields@.len(),
        parse_key(s.subrange(pos as int, s.len() as int)) matches Some((tag, _, _)) && find_from(
            reg.messages@[idx as int].fields@,
            tag,
            0,
        ) == Some(k),
        k < reg.messages@[idx as int].fields@.len(),
        group_of(reg.messages@[idx as int].fields@[k as int].1) is Some,
        next_field(reg, idx, s, pos, st) is Some,
    ensures
        ({
            let fields = reg.messages@[idx as int].fields@;
            let st2 = next_field(reg, idx, s, pos, st)->Some_0.0;
            &&& st2.slots[k as int] is Some
            &&& forall|j: int|
                0 <= j < fields.len() && j != k && group_of(#[trigger] fields[j].1) == group_of(fields[k as int].1)
                    ==> st2.slots[j] is None
        }),
{
}


proof fn lemma_byte_split(x: nat)
    ensures
        x == x % 256 + 256 * (x / 256),
        x % 256 < 256,
{
    vstd::arithmetic::div_mod::lemma_fundamental_div_mod(x as int, 256);
}

proof fn lemma_le32_value(v: nat, rest: Seq<u8>)
    requires
        v < 0x1_0000_0000,
    ensures
        le32_value(le32(v) + rest) == v,
        le32(v).len() == 4,
{
    let q1 = v / 256;
    let q2 = v / 65536;
    let q3 = v / 16777216;
    lemma_byte_split(v);
    lemma_byte_split(q1);
    lemma_byte_split(q2);
    vstd::arithmetic::div_mod::lemma_div_denominator(v as int, 256, 256);
    vstd::arithmetic::div_mod::lemma_div_denominator(v as int, 65536, 256);
    assert(q1 / 256 == q2);
    assert(q2 / 256 == q3);
    assert(q3 < 256) by {
        vstd::arithmetic::div_mod::lemma_div_is_ordered(v as int, 0x1_0000_0000 - 1, 16777216);
    }
    let s = le32(v) + rest;
    assert(s[0] == v % 256 && s[1] == q1 % 256 && s[2] == q2 % 256 && s[3] == q3 % 256);
}

proof fn lemma_le64_value(v: nat, rest: Seq<u8>)
    requires
        v < 0x1_0000_0000_0000_0000,
    ensures
        le64_value(le64(v) + rest) == v,
        le64(v).len() == 8,
{
    let lo = v % 0x1_0000_0000;
    let hi = v / 0x1_0000_0000;
    vstd::arithmetic::div_mod::lemma_fundamental_div_mod(v as int, 0x1_0000_0000);
    assert(hi < 0x1_0000_0000) by {
        vstd::arithmetic::div_mod::lemma_div_is_ordered(v as int, 0x1_0000_0000_0000_0000 - 1, 0x1_0000_0000);
    }
    let s = le64(v) + rest;
    lemma_le32_value(lo, Seq::empty());
    lemma_le32_value(hi, Seq::empty());
    assert(s.subrange(0, 4) =~= le32(lo) + Seq::<u8>::empty());
    assert(s.subrange(4, 8) =~= le32(hi) + Seq::<u8>::empty());
}

/// Whether the byte strings a value holds fit the 64-bit length prefix.
pub open spec fn lengths_fit(v: ValueModel) -> bool {
    match v {
        ValueModel::Bytes(b) => b.len() <= u64::MAX,
        ValueModel::Str(s) => vstd::utf8::encode_utf8(s).len() <= u64::MAX,
        _ => true,
    }
}

/// A value of a plain scalar kind reads back from its payload as itself,
/// whatever follows the payload.
pub proof fn lemma_scalar_round_trip(t: ProtoType, v: ValueModel, rest: Seq<u8>)
    requires
        is_plain_scalar(t),
        fits(t, v),
        lengths_fit(v),
    ensures
        scalar_at(t, wire_type_of(t), scalar_payload(t, v) + rest) == Some((v, scalar_payload(t, v).len())),
{
    let w = wire_type_of(t);
    let s = scalar_payload(t, v) + rest;
    match w {
        WireType::Varint => {
            let x = varint_of(t, v);
            match v {
                ValueModel::Int32(n) => {
                    if t == ProtoType::Sint32 {
                        assert(x < 0x1_0000_0000);
                        assert(unzigzag(x) == n);
                    } else {
                        assert(((n as u64) as i32) == n) by (bit_vector);
                    }
                },
                ValueModel::Int64(n) => {
                    if t == ProtoType::Sint64 {
                        assert(unzigzag(x) == n);
                    } else {
                        assert(((n as u64) as i64) == n) by (bit_vector);
                    }
                },
                _ => {},
            }
            assert(x <= u64::MAX);
            lemma_varint_round_trip(x as u64, rest);
            assert(from_varint(t, x) == v);
        },
        WireType::ThirtyTwoBit => {
            let x = fixed_of(v);
            match v {
                ValueModel::Int32(n) => {
                    assert(((n as u32) as i32) == n) by (bit_vector);
                },
                _ => {},
            }
            lemma_le32_value(x, rest);
            assert(from_fixed(t, x) == v);
        },
        WireType::SixtyFourBit => {
            let x = fixed_of(v);
            match v {
                ValueModel::Int64(n) => {
                    assert(((n as u64) as i64) == n) by (bit_vector);
                },
                _ => {},
            }
            lemma_le64_value(x, rest);
            assert(from_fixed(t, x) == v);
        },
        _ => {
            let b = match v {
                ValueModel::Bytes(b) => b,
                ValueModel::Str(c) => vstd::utf8::encode_utf8(c),
                _ => Seq::empty(),
            };
            lemma_varint_round_trip(b.len() as u64, b + rest);
            assert(s =~= varint_bytes(b.len()) + (b + rest));
            let n = varint_bytes(b.len()).len();
            assert(s.subrange(n as int, (n + b.len()) as int) =~= b);
            match v {
                ValueModel::Str(c) => {
                    vstd::utf8::encode_utf8_valid_utf8(c);
                    vstd::utf8::encode_utf8_decode_utf8(c);
                },
                _ => {},
            }
        },
    }
}


/// The wire type a key was written with reads back as itself.
proof fn lemma_wire_code_round_trip(w: WireType)
    ensures
        wire_of_code(wire_code(w)) == w,
{
}

/// One field of a well-known body, written at `pos` as `scalar_field`, is
/// read as the value it holds.
#[verifier::rlimit(80)]
proof fn lemma_known_step(t: ProtoType, s: Seq<u8>, pos: nat, end: nat, cur: ValueModel, tag: u32, k: ProtoType, x: ValueModel)
    requires
        is_wrapper(t) || is_time(t),
        crate::scalar::known_part(t, tag) == Some(k),
        1 <= tag <= 2,
        is_plain_scalar(k),
        fits(k, x),
        lengths_fit(x),
        pos + scalar_field(tag, k, x).len() <= s.len(),
        pos < end,
        s.subrange(pos as int, (pos + scalar_field(tag, k, x).len()) as int) == scalar_field(tag, k, x),
    ensures
        known_fields(t, s, pos, end, cur) == known_fields(
            t,
            s,
            pos + scalar_field(tag, k, x).len(),
            end,
            if is_time(t) { crate::scalar::with_time_part(cur, tag, x) } else { x },
        ),
{
    let f = scalar_field(tag, k, x);
    let rest_all = s.subrange(pos as int, s.len() as int);
    let after = s.subrange((pos + f.len()) as int, s.len() as int);
    assert(rest_all =~= f + after);
    let kb = key_bytes(tag, wire_type_of(k));
    let pl = scalar_payload(k, x);
    assert(rest_all =~= kb + (pl + after));
    lemma_key_round_trip(tag, wire_type_of(k), pl + after);
    lemma_wire_code_round_trip(wire_type_of(k));
    let p = pos + kb.len();
    assert forall|i: int| 0 <= i < s.len() - p implies s.subrange(p as int, s.len() as int)[i] == (pl + after)[i] by {
        assert(s[p + i] == rest_all[kb.len() + i]);
    }
    assert(s.subrange(p as int, s.len() as int) =~= pl + after);
    lemma_scalar_round_trip(k, x, after);
    assert(pl.len() > 0) by {
        match wire_type_of(k) {
            WireType::Varint => {
                assert(varint_bytes(varint_of(k, x)).len() >= 1);
            },
            WireType::ThirtyTwoBit => {},
            WireType::SixtyFourBit => {},
            _ => {
                let b = match x {
                    ValueModel::Bytes(b) => b,
                    ValueModel::Str(c) => vstd::utf8::encode_utf8(c),
                    _ => Seq::empty(),
                };
                assert(varint_bytes(b.len()).len() >= 1);
            },
        }
    }
}

/// Whether a value survives zero suppression inside a well-known body: its
/// zero form is the one its kind reads back.
pub open spec fn canonical_zero(t: ProtoType, v: ValueModel) -> bool {
    is_zero(v) ==> v == zero_of(t)
}

/// A well-known body read from within its length prefix.
proof fn lemma_delimited_body(t: ProtoType, body: Seq<u8>, rest: Seq<u8>)
    requires
        body.len() <= u64::MAX,
    ensures
        ({
            let s = delimited(body) + rest;
            let n = varint_bytes(body.len()).len();
            &&& delimited_at(s) == Some((n, n + body.len()))
            &&& s.subrange(n as int, (n + body.len()) as int) == body
            &&& n >= 1
        }),
{
    let s = delimited(body) + rest;
    lemma_varint_round_trip(body.len() as u64, body + rest);
    assert(s =~= varint_bytes(body.len()) + (body + rest));
    let n = varint_bytes(body.len()).len();
    assert(s.subrange(n as int, (n + body.len()) as int) =~= body);
    assert(varint_bytes(body.len()).len() >= 1);
}

proof fn lemma_wrapper_round_trip(t: ProtoType, v: ValueModel, rest: Seq<u8>)
    requires
        is_wrapper(t),
        fits(t, v),
        lengths_fit(v),
        canonical_zero(t, v),
        wrapper_body(t, v).len() <= u64::MAX,
    ensures
        value_at(t, wire_type_of(t), value_payload(t, v) + rest) == Some((v, value_payload(t, v).len())),
{
    let body = wrapper_body(t, v);
    let s = value_payload(t, v) + rest;
    lemma_delimited_body(t, body, rest);
    let n = varint_bytes(body.len()).len();
    let end = n + body.len();
    let k = wrapped_kind(t);
    if !is_zero(v) {
        lemma_known_step(t, s, n, end, zero_of(t), 1, k, v);
    }
}

proof fn lemma_time_round_trip(t: ProtoType, v: ValueModel, rest: Seq<u8>)
    requires
        is_time(t),
        fits(t, v),
    ensures
        value_at(t, wire_type_of(t), value_payload(t, v) + rest) == Some((v, value_payload(t, v).len())),
{
    let body = time_body(v);
    let s = value_payload(t, v) + rest;
    let (sec, nan) = time_parts(v);
    let f1 = if sec == 0 { Seq::empty() } else { scalar_field(1, ProtoType::Int64, ValueModel::Int64(sec)) };
    let f2 = if nan == 0 { Seq::empty() } else { scalar_field(2, ProtoType::Int32, ValueModel::Int32(nan)) };
    assert(body =~= f1 + f2);
    assert(body.len() <= 30) by {
        crate::wire::lemma_varint_len((sec as u64) as nat);
        crate::wire::lemma_varint_len((nan as u64) as nat);
        crate::wire::lemma_varint_len(8);
        crate::wire::lemma_varint_len(16);
    }
    lemma_delimited_body(t, body, rest);
    let n = varint_bytes(body.len()).len();
    let end = n + body.len();
    let mid = if sec == 0 { zero_of(t) } else { crate::scalar::with_time_part(zero_of(t), 1, ValueModel::Int64(sec)) };
    if sec != 0 {
        assert(s.subrange(n as int, (n + f1.len()) as int) =~= f1);
        lemma_known_step(t, s, n, end, zero_of(t), 1, ProtoType::Int64, ValueModel::Int64(sec));
    }
    if nan != 0 {
        assert(s.subrange((n + f1.len()) as int, (n + f1.len() + f2.len()) as int) =~= f2);
        lemma_known_step(t, s, n + f1.len(), end, mid, 2, ProtoType::Int32, ValueModel::Int32(nan));
    }
}

/// A value of any kind but a nested message reads back from its payload as
/// itself, whatever follows the payload. For a wrapper, the zero value must
/// be the one its kind reads back (a float or double wrapper holding -0.0
/// reads back as +0.0).
pub proof fn lemma_value_round_trip(t: ProtoType, v: ValueModel, rest: Seq<u8>)
    requires
        !(t is CustomMessage),
        fits(t, v),
        lengths_fit(v),
        is_wrapper(t) ==> canonical_zero(t, v),
        is_wrapper(t) ==> wrapper_body(t, v).len() <= u64::MAX,
    ensures
        value_at(t, wire_type_of(t), value_payload(t, v) + rest) == Some((v, value_payload(t, v).len())),
{
    if is_wrapper(t) {
        lemma_wrapper_round_trip(t, v, rest);
    } else if is_time(t) {
        lemma_time_round_trip(t, v, rest);
    } else {
        lemma_scalar_round_trip(t, v, rest);
    }
}


/// In a descriptor with unique field numbers, looking up the number of field
/// `k` finds `k`.
pub proof fn lemma_find_unique(fields: Seq<(u32, FieldDescriptor)>, k: nat, i: nat)
    requires
        k < fields.len(),
        i <= k,
        forall|a: int, b: int| 0 <= a < b < fields.len() ==> #[trigger] fields[a].0 != #[trigger] fields[b].0,
    ensures
        find_from(fields, fields[k as int].0, i) == Some(k),
    decreases k - i,
{
    if i < k {
        assert(fields[i as int].0 != fields[k as int].0);
        lemma_find_unique(fields, k, i + 1);
    }
}

/// The bytes that one value of field `tag` is written as, when nothing is
/// suppressed.
pub open spec fn written_value(tag: u32, t: ProtoType, v: ValueModel) -> Seq<u8> {
    key_bytes(tag, wire_type_of(t)) + value_payload(t, v)
}

/// What reading one value into field `k` puts in its slot.
pub open spec fn read_slot(fd: FieldDescriptor, slot: Option<FieldModel>, v: ValueModel) -> Option<FieldModel> {
    if fd.attribute is Repeated {
        crate::decode::with_items(slot, seq![v])
    } else {
        Some(FieldModel::Single(v))
    }
}

/// Whether field `fd` holds values of a kind other than a nested message
/// that a single entry carries: it is not a map, and a list of it is not
/// read as packed from a single entry.
pub open spec fn single_entry_field(fd: FieldDescriptor) -> bool {
    &&& !(fd.value_type is CustomMessage)
    &&& !(fd.attribute is MapWithKey)
}

/// Whether a value reads back as itself from its payload.
pub open spec fn value_round_trips(t: ProtoType, v: ValueModel) -> bool {
    &&& fits(t, v)
    &&& lengths_fit(v)
    &&& (is_wrapper(t) ==> canonical_zero(t, v))
    &&& (is_wrapper(t) ==> wrapper_body(t, v).len() <= u64::MAX)
}

/// A value written as one entry of field `k` is read back into that field's
/// slot, and the other members of its oneof group are unset.
#[verifier::rlimit(80)]
pub proof fn lemma_read_written_value(reg: Registry, idx: nat, k: nat, v: ValueModel, s: Seq<u8>, pos: nat, st: DecodeState)
    requires
        reg.wf(),
        idx < reg.messages@.len(),
        k < reg.messages@[idx as int].fields@.len(),
        single_entry_field(reg.messages@[idx as int].fields@[k as int].1),
        value_round_trips(reg.messages@[idx as int].fields@[k as int].1.value_type, v),
        pos + written_value(
            reg.messages@[idx as int].fields@[k as int].0,
            reg.messages@[idx as int].fields@[k as int].1.value_type,
            v,
        ).len() <= s.len(),
        s.subrange(
            pos as int,
            (pos + written_value(
                reg.messages@[idx as int].fields@[k as int].0,
                reg.messages@[idx as int].fields@[k as int].1.value_type,
                v,
            ).len()) as int,
        ) == written_value(
            reg.messages@[idx as int].fields@[k as int].0,
            reg.messages@[idx as int].fields@[k as int].1.value_type,
            v,
        ),
    ensures
        ({
            let fields = reg.messages@[idx as int].fields@;
            let (tag, fd) = fields[k as int];
            next_field(reg, idx, s, pos, st) == Some(
                (
                    DecodeState {
                        slots: clear_siblings(fields, st.slots.update(k as int, read_slot(fd, st.slots[k as int], v)), k as int),
                        unknown: st.unknown,
                    },
                    pos + written_value(tag, fd.value_type, v).len(),
                ),
            )
        }),
{
    let fields = reg.messages@[idx as int].fields@;
    let (tag, fd) = fields[k as int];
    let t = fd.value_type;
    let w = wire_type_of(t);
    assert(reg.messages@[idx as int].wf(reg.messages@.len() as nat));
    assert(1 <= fields[k as int].0 <= crate::wire::MAX_TAG);
    let kb = key_bytes(tag, w);
    let pl = value_payload(t, v);
    let rest_all = s.subrange(pos as int, s.len() as int);
    let after = s.subrange((pos + kb.len() + pl.len()) as int, s.len() as int);
    assert(rest_all =~= kb + (pl + after));
    lemma_key_round_trip(tag, w, pl + after);
    lemma_wire_code_round_trip(w);
    lemma_find_unique(fields, k, 0);
    let p = pos + kb.len();
    assert forall|i: int| 0 <= i < s.len() - p implies s.subrange(p as int, s.len() as int)[i] == (pl + after)[i] by {
        assert(s[p + i] == rest_all[kb.len() + i]);
    }
    assert(s.subrange(p as int, s.len() as int) =~= pl + after);
    lemma_value_round_trip(t, v, after);
    assert(kb.len() >= 1);
    if fd.attribute is Repeated && w == WireType::LengthDelimited {
        assert(!crate::descriptors::is_packable(t));
    }
    assert(one_value(reg, t, w, s, p) == Some((v, p + pl.len())));
}

/// Adding entries to a list slot one group after another adds them all.
pub proof fn lemma_with_items_concat(slot: Option<FieldModel>, a: Seq<ValueModel>, b: Seq<ValueModel>)
    ensures
        crate::decode::with_items(crate::decode::with_items(slot, a), b) == crate::decode::with_items(slot, a + b),
{
    match slot {
        Some(FieldModel::Repeated(xs)) => {
            assert(xs + a + b =~= xs + (a + b));
        },
        _ => {},
    }
}


/// The payloads of a list, one after another.
pub open spec fn payloads(t: ProtoType, items: Seq<ValueModel>) -> Seq<u8>
    decreases items.len(),
{
    if items.len() == 0 {
        Seq::empty()
    } else {
        scalar_payload(t, items[0]) + payloads(t, items.drop_first())
    }
}

/// A list written entry by entry, each entry with its own key.
pub open spec fn unpacked_entries(tag: u32, t: ProtoType, items: Seq<ValueModel>) -> Seq<u8>
    decreases items.len(),
{
    if items.len() == 0 {
        Seq::empty()
    } else {
        written_value(tag, t, items[0]) + unpacked_entries(tag, t, items.drop_first())
    }
}

/// A list written as one packed entry; nothing for an empty list.
pub open spec fn packed_entry(tag: u32, t: ProtoType, items: Seq<ValueModel>) -> Seq<u8> {
    if items.len() == 0 {
        Seq::empty()
    } else {
        key_bytes(tag, WireType::LengthDelimited) + delimited(payloads(t, items))
    }
}

/// A list slot after `items` were read into it one way or the other.
pub open spec fn add_all(slot: Option<FieldModel>, items: Seq<ValueModel>) -> Option<FieldModel> {
    if items.len() == 0 {
        slot
    } else {
        crate::decode::with_items(slot, items)
    }
}

/// Whether every value of a list reads back as itself.
pub open spec fn all_round_trip(t: ProtoType, items: Seq<ValueModel>) -> bool {
    forall|i: int| 0 <= i < items.len() ==> value_round_trips(t, #[trigger] items[i])
}

proof fn lemma_read_payloads(t: ProtoType, items: Seq<ValueModel>, s: Seq<u8>, pos: nat, end: nat, acc: Seq<ValueModel>)
    requires
        is_plain_scalar(t),
        crate::descriptors::is_packable(t),
        all_round_trip(t, items),
        end == pos + payloads(t, items).len(),
        end <= s.len(),
        s.subrange(pos as int, end as int) == payloads(t, items),
    ensures
        crate::decode::packed_items(t, s, pos, end, acc) == Some(acc + items),
    decreases items.len(),
{
    if items.len() == 0 {
        assert(acc + items =~= acc);
    } else {
        let v = items[0];
        let tail = items.drop_first();
        let pl = scalar_payload(t, v);
        let after = s.subrange((pos + pl.len()) as int, s.len() as int);
        assert(value_round_trips(t, items[0]));
        lemma_scalar_round_trip(t, v, after);
        assert(s.subrange(pos as int, s.len() as int) =~= pl + after);
        assert(pl.len() > 0) by {
            if wire_type_of(t) == WireType::Varint {
                assert(varint_bytes(varint_of(t, v)).len() >= 1);
            }
        }
        assert forall|i: int| 0 <= i < tail.len() implies value_round_trips(t, #[trigger] tail[i]) by {
            assert(tail[i] == items[i + 1]);
        }
        assert(payloads(t, items) == pl + payloads(t, tail));
        assert forall|i: int| 0 <= i < end - (pos + pl.len()) implies s.subrange((pos + pl.len()) as int, end as int)[i]
            == payloads(t, tail)[i] by {
            assert(s[pos + pl.len() + i] == s.subrange(pos as int, end as int)[pl.len() + i]);
        }
        assert(s.subrange((pos + pl.len()) as int, end as int) =~= payloads(t, tail));
        lemma_read_payloads(t, tail, s, pos + pl.len(), end, acc.push(v));
        assert(acc.push(v) + tail =~= acc + items);
    }
}

/// Reading field `k`, which is not in a oneof group, changes only its slot.
proof fn lemma_clear_no_group(fields: Seq<(u32, FieldDescriptor)>, slots: Seq<Option<FieldModel>>, k: int)
    requires
        0 <= k < fields.len(),
        slots.len() == fields.len(),
        group_of(fields[k].1) is None,
    ensures
        clear_siblings(fields, slots, k) == slots,
{
    assert(clear_siblings(fields, slots, k) =~= slots);
}

#[verifier::rlimit(80)]
proof fn lemma_read_unpacked(reg: Registry, idx: nat, k: nat, items: Seq<ValueModel>, s: Seq<u8>, pos: nat, end: nat, st: DecodeState)
    requires
        reg.wf(),
        idx < reg.messages@.len(),
        k < reg.messages@[idx as int].fields@.len(),
        st.slots.len() == reg.messages@[idx as int].fields@.len(),
        reg.messages@[idx as int].fields@[k as int].1.attribute is Repeated,
        single_entry_field(reg.messages@[idx as int].fields@[k as int].1),
        all_round_trip(reg.messages@[idx as int].fields@[k as int].1.value_type, items),
        end == pos + unpacked_entries(
            reg.messages@[idx as int].fields@[k as int].0,
            reg.messages@[idx as int].fields@[k as int].1.value_type,
            items,
        ).len(),
        end <= s.len(),
        s.subrange(pos as int, end as int) == unpacked_entries(
            reg.messages@[idx as int].fields@[k as int].0,
            reg.messages@[idx as int].fields@[k as int].1.value_type,
            items,
        ),
    ensures
        message_fields(reg, idx, s, pos, end, st) == Some(
            DecodeState {
                slots: st.slots.update(k as int, add_all(st.slots[k as int], items)),
                unknown: st.unknown,
            },
        ),
    decreases items.len(),
{
    let fields = reg.messages@[idx as int].fields@;
    let (tag, fd) = fields[k as int];
    let t = fd.value_type;
    if items.len() == 0 {
        assert(st.slots.update(k as int, st.slots[k as int]) =~= st.slots);
    } else {
        let v = items[0];
        let tail = items.drop_first();
        let wv = written_value(tag, t, v);
        assert(value_round_trips(t, items[0]));
        assert(s.subrange(pos as int, (pos + wv.len()) as int) =~= wv);
        lemma_read_written_value(reg, idx, k, v, s, pos, st);
        let slot1 = crate::decode::with_items(st.slots[k as int], seq![v]);
        lemma_clear_no_group(fields, st.slots.update(k as int, slot1), k as int);
        let st1 = DecodeState { slots: st.slots.update(k as int, slot1), unknown: st.unknown };
        assert(wv.len() > 0) by {
            assert(key_bytes(tag, wire_type_of(t)).len() >= 1);
        }
        assert forall|i: int| 0 <= i < tail.len() implies value_round_trips(t, #[trigger] tail[i]) by {
            assert(tail[i] == items[i + 1]);
        }
        assert(unpacked_entries(tag, t, items) == wv + unpacked_entries(tag, t, tail));
        assert forall|i: int| 0 <= i < end - (pos + wv.len()) implies s.subrange((pos + wv.len()) as int, end as int)[i]
            == unpacked_entries(tag, t, tail)[i] by {
            assert(s[pos + wv.len() + i] == s.subrange(pos as int, end as int)[wv.len() + i]);
        }
        assert(s.subrange((pos + wv.len()) as int, end as int) =~= unpacked_entries(tag, t, tail));
        lemma_read_unpacked(reg, idx, k, tail, s, pos + wv.len(), end, st1);
        lemma_with_items_concat(st.slots[k as int], seq![v], tail);
        assert(seq![v] + tail =~= items);
        assert(st1.slots.update(k as int, add_all(st1.slots[k as int], tail)) =~= st.slots.update(
            k as int,
            add_all(st.slots[k as int], items),
        ));
    }
}

/// Where the parts of a packed entry that stands at `pos` lie.
#[verifier::rlimit(80)]
proof fn lemma_packed_layout(tag: u32, t: ProtoType, items: Seq<ValueModel>, s: Seq<u8>, pos: nat)
    requires
        1 <= tag <= crate::wire::MAX_TAG,
        is_plain_scalar(t),
        crate::descriptors::is_packable(t),
        all_round_trip(t, items),
        payloads(t, items).len() <= u64::MAX,
        items.len() > 0,
        pos + packed_entry(tag, t, items).len() <= s.len(),
        s.subrange(pos as int, (pos + packed_entry(tag, t, items).len()) as int) == packed_entry(tag, t, items),
    ensures
        ({
            let body = payloads(t, items);
            let kn = key_bytes(tag, WireType::LengthDelimited).len();
            let n = varint_bytes(body.len()).len();
            &&& kn >= 1
            &&& packed_entry(tag, t, items).len() == kn + n + body.len()
            &&& parse_key(s.subrange(pos as int, s.len() as int)) == Some((tag, 2nat, kn))
            &&& delimited_at(s.subrange((pos + kn) as int, s.len() as int)) == Some((n, n + body.len()))
            &&& crate::decode::packed_items(t, s, pos + kn + n, pos + kn + n + body.len(), Seq::empty()) == Some(items)
        }),
{
    let packed = packed_entry(tag, t, items);
    let body = payloads(t, items);
    let kb = key_bytes(tag, WireType::LengthDelimited);
    let d = delimited(body);
    let after = s.subrange((pos + packed.len()) as int, s.len() as int);
    assert(packed =~= kb + d);
    let whole = s.subrange(pos as int, s.len() as int);
    assert(whole =~= kb + (d + after)) by {
        assert forall|x: int| 0 <= x < whole.len() implies whole[x] == (kb + (d + after))[x] by {
            if x < packed.len() {
                assert(s.subrange(pos as int, (pos + packed.len()) as int)[x] == packed[x]);
            }
        }
    }
    lemma_key_round_trip(tag, WireType::LengthDelimited, d + after);
    let p = pos + kb.len();
    assert(s.subrange(p as int, s.len() as int) =~= d + after) by {
        assert forall|x: int| 0 <= x < s.len() - p implies s.subrange(p as int, s.len() as int)[x] == (d + after)[x] by {
            assert(s[p + x] == whole[kb.len() + x]);
        }
    }
    lemma_delimited_body(t, body, after);
    let n = varint_bytes(body.len()).len();
    let a = p + n;
    assert(s.subrange(a as int, (a + body.len()) as int) =~= body) by {
        assert forall|x: int| 0 <= x < body.len() implies s.subrange(a as int, (a + body.len()) as int)[x] == body[x] by {
            assert(s[a + x] == s.subrange(p as int, s.len() as int)[n + x]);
            assert((d + after)[n + x] == d[n + x]);
        }
    }
    lemma_read_payloads(t, items, s, a, a + body.len(), Seq::empty());
    assert(Seq::<ValueModel>::empty() + items =~= items);
    assert(kb.len() >= 1);
}

/// A packed entry of field `k` that stands at `pos` is read whole into
/// the field's list.
#[verifier::rlimit(80)]
proof fn lemma_read_packed_at(reg: Registry, idx: nat, k: nat, items: Seq<ValueModel>, s: Seq<u8>, pos: nat, st: DecodeState)
    requires
        reg.wf(),
        idx < reg.messages@.len(),
        k < reg.messages@[idx as int].fields@.len(),
        st.slots.len() == reg.messages@[idx as int].fields@.len(),
        reg.messages@[idx as int].fields@[k as int].1.attribute is Repeated,
        crate::descriptors::is_packable(reg.messages@[idx as int].fields@[k as int].1.value_type),
        all_round_trip(reg.messages@[idx as int].fields@[k as int].1.value_type, items),
        payloads(reg.messages@[idx as int].fields@[k as int].1.value_type, items).len() <= u64::MAX,
        items.len() > 0,
        ({
            let (tag, fd) = reg.messages@[idx as int].fields@[k as int];
            let packed = packed_entry(tag, fd.value_type, items);
            pos + packed.len() <= s.len() && s.subrange(pos as int, (pos + packed.len()) as int) == packed
        }),
    ensures
        ({
            let (tag, fd) = reg.messages@[idx as int].fields@[k as int];
            let packed = packed_entry(tag, fd.value_type, items);
            next_field(reg, idx, s, pos, st) == Some(
                (
                    DecodeState {
                        slots: st.slots.update(k as int, crate::decode::with_items(st.slots[k as int], items)),
                        unknown: st.unknown,
                    },
                    pos + packed.len(),
                ),
            )
        }),
{
    let fields = reg.messages@[idx as int].fields@;
    let (tag, fd) = fields[k as int];
    let t = fd.value_type;
    assert(reg.messages@[idx as int].wf(reg.messages@.len() as nat));
    assert(1 <= fields[k as int].0 <= crate::wire::MAX_TAG);
    lemma_packed_layout(tag, t, items, s, pos);
    let kn = key_bytes(tag, WireType::LengthDelimited).len();
    lemma_find_unique(fields, k, 0);
    lemma_clear_no_group(fields, st.slots.update(k as int, crate::decode::with_items(st.slots[k as int], items)), k as int);
    assert(wire_of_code(2) == WireType::LengthDelimited);
    assert(next_field(reg, idx, s, pos, st) == known_field(reg, idx, k, WireType::LengthDelimited, s, pos + kn, st));
}

proof fn lemma_read_packed(reg: Registry, idx: nat, k: nat, items: Seq<ValueModel>, st: DecodeState)
    requires
        reg.wf(),
        idx < reg.messages@.len(),
        k < reg.messages@[idx as int].fields@.len(),
        st.slots.len() == reg.messages@[idx as int].fields@.len(),
        reg.messages@[idx as int].fields@[k as int].1.attribute is Repeated,
        crate::descriptors::is_packable(reg.messages@[idx as int].fields@[k as int].1.value_type),
        all_round_trip(reg.messages@[idx as int].fields@[k as int].1.value_type, items),
        payloads(reg.messages@[idx as int].fields@[k as int].1.value_type, items).len() <= u64::MAX,
        items.len() > 0,
    ensures
        ({
            let (tag, fd) = reg.messages@[idx as int].fields@[k as int];
            let packed = packed_entry(tag, fd.value_type, items);
            next_field(reg, idx, packed, 0, st) == Some(
                (
                    DecodeState {
                        slots: st.slots.update(k as int, crate::decode::with_items(st.slots[k as int], items)),
                        unknown: st.unknown,
                    },
                    packed.len(),
                ),
            )
        }),
{
    let (tag, fd) = reg.messages@[idx as int].fields@[k as int];
    let packed = packed_entry(tag, fd.value_type, items);
    assert(packed.subrange(0, packed.len() as int) =~= packed);
    lemma_read_packed_at(reg, idx, k, items, packed, 0, st);
}

#[verifier::rlimit(80)]
/// A list of a packable kind reads the same whether it was written packed
/// or entry by entry: both add the same values, in the same order, to the
/// list already read.
pub proof fn lemma_packed_and_unpacked_agree(reg: Registry, idx: nat, k: nat, items: Seq<ValueModel>, st: DecodeState)
    requires
        reg.wf(),
        idx < reg.messages@.len(),
        k < reg.messages@[idx as int].fields@.len(),
        st.slots.len() == reg.messages@[idx as int].fields@.len(),
        reg.messages@[idx as int].fields@[k as int].1.attribute is Repeated,
        crate::descriptors::is_packable(reg.messages@[idx as int].fields@[k as int].1.value_type),
        all_round_trip(reg.messages@[idx as int].fields@[k as int].1.value_type, items),
        payloads(reg.messages@[idx as int].fields@[k as int].1.value_type, items).len() <= u64::MAX,
    ensures
        ({
            let (tag, fd) = reg.messages@[idx as int].fields@[k as int];
            let packed = packed_entry(tag, fd.value_type, items);
            let unpacked = unpacked_entries(tag, fd.value_type, items);
            let expected = Some(
                DecodeState {
                    slots: st.slots.update(k as int, add_all(st.slots[k as int], items)),
                    unknown: st.unknown,
                },
            );
            &&& message_fields(reg, idx, packed, 0, packed.len(), st) == expected
            &&& message_fields(reg, idx, unpacked, 0, unpacked.len(), st) == expected
        }),
{
    let fields = reg.messages@[idx as int].fields@;
    let (tag, fd) = fields[k as int];
    let t = fd.value_type;
    let unpacked = unpacked_entries(tag, t, items);
    assert(unpacked.subrange(0, unpacked.len() as int) =~= unpacked);
    lemma_read_unpacked(reg, idx, k, items, unpacked, 0, unpacked.len(), st);
    let packed = packed_entry(tag, t, items);
    if items.len() == 0 {
        assert(st.slots.update(k as int, st.slots[k as int]) =~= st.slots);
    } else {
        lemma_read_packed(reg, idx, k, items, st);
        let st1 = DecodeState {
            slots: st.slots.update(k as int, crate::decode::with_items(st.slots[k as int], items)),
            unknown: st.unknown,
        };
        assert(message_fields(reg, idx, packed, packed.len(), packed.len(), st1) == Some(st1));
    }
}


/// Whether a slot holds a singular value, a non-empty list or a non-empty
/// map, of kinds other than nested messages, that is written (not
/// suppressed) and reads back as itself.
pub open spec fn slot_round_trips(fd: FieldDescriptor, slot: Option<FieldModel>) -> bool {
    match slot {
        None => true,
        Some(FieldModel::Entries(es)) => {
            &&& fd.attribute is MapWithKey
            &&& es.len() > 0
            &&& forall|j: int| 0 <= j < es.len() ==> entry_round_trips(fd.attribute->MapWithKey_0, fd.value_type, #[trigger] es[j])
        },
        Some(FieldModel::Repeated(items)) => {
            &&& single_entry_field(fd)
            &&& fd.attribute is Repeated
            &&& items.len() > 0
            &&& all_round_trip(fd.value_type, items)
            &&& payloads(fd.value_type, items).len() <= u64::MAX
        },
        Some(FieldModel::Single(v)) => {
            &&& single_entry_field(fd)
            &&& !(fd.attribute is Repeated)
            &&& value_round_trips(fd.value_type, v)
            &&& (fd.attribute is Plain ==> is_wrapper(fd.value_type) || !is_zero(v))
        },
        _ => false,
    }
}

/// Whether a message of descriptor `idx` holds only singular values, lists
/// and maps that round-trip, at most one member of each oneof group, and no
/// unknown bytes.
pub open spec fn flat_message(reg: Registry, idx: nat, m: MessageModel) -> bool {
    let fields = reg.messages@[idx as int].fields@;
    &&& m.fields.len() == fields.len()
    &&& m.unknown_fields.len() == 0
    &&& forall|i: int| 0 <= i < fields.len() ==> slot_round_trips(fields[i].1, #[trigger] m.fields[i])
    &&& forall|i: int, j: int|
        0 <= i < fields.len() && 0 <= j < fields.len() && i != j && #[trigger] m.fields[i] is Some
            && #[trigger] m.fields[j] is Some ==> group_of(fields[i].1) is None || group_of(fields[i].1)
            != group_of(fields[j].1)
}

/// Reading up to `mid` and then on to `end` is reading up to `end`.
pub proof fn lemma_fields_chain(reg: Registry, idx: nat, s: Seq<u8>, pos: nat, mid: nat, end: nat, st: DecodeState, st_mid: DecodeState)
    requires
        pos <= mid <= end,
        message_fields(reg, idx, s, pos, mid, st) == Some(st_mid),
    ensures
        message_fields(reg, idx, s, pos, end, st) == message_fields(reg, idx, s, mid, end, st_mid),
    decreases s.len() - pos,
{
    if pos >= mid || pos >= s.len() {
    } else {
        match next_field(reg, idx, s, pos, st) {
            Some((st2, e)) => {
                if pos < e <= s.len() {
                    lemma_fields_chain(reg, idx, s, e, mid, end, st2, st_mid);
                }
            },
            None => {},
        }
    }
}

proof fn lemma_packed_parts_flatten(t: ProtoType, items: Seq<ValueModel>)
    ensures
        crate::encode::packed_parts(t, items).flatten() == payloads(t, items),
    decreases items.len(),
{
    if items.len() > 0 {
        assert(crate::encode::packed_parts(t, items).drop_first() =~= crate::encode::packed_parts(t, items.drop_first()));
        lemma_packed_parts_flatten(t, items.drop_first());
    } else {
        assert(crate::encode::packed_parts(t, items) =~= Seq::<Seq<u8>>::empty());
    }
}

proof fn lemma_list_parts_flatten(reg: Registry, tag: u32, t: ProtoType, items: Seq<ValueModel>)
    requires
        !(t is CustomMessage),
    ensures
        crate::encode::list_parts(reg, tag, t, items).flatten() == unpacked_entries(tag, t, items),
    decreases items.len(),
{
    if items.len() > 0 {
        assert(crate::encode::list_parts(reg, tag, t, items).drop_first() =~= crate::encode::list_parts(
            reg,
            tag,
            t,
            items.drop_first(),
        ));
        lemma_list_parts_flatten(reg, tag, t, items.drop_first());
    } else {
        assert(crate::encode::list_parts(reg, tag, t, items) =~= Seq::<Seq<u8>>::empty());
    }
}

/// One value written at `pos` as field `tag` (1 or 2) of a map entry is read
/// as the entry's key or value.
#[verifier::rlimit(80)]
proof fn lemma_entry_step(
    reg: Registry,
    kt: ProtoType,
    vt: ProtoType,
    s: Seq<u8>,
    pos: nat,
    end: nat,
    kv: (Option<ValueModel>, Option<ValueModel>),
    tag: u32,
    x: ValueModel,
)
    requires
        tag == 1 || tag == 2,
        !((if tag == 1 { kt } else { vt }) is CustomMessage),
        value_round_trips(if tag == 1 { kt } else { vt }, x),
        pos + written_value(tag, if tag == 1 { kt } else { vt }, x).len() <= end,
        end <= s.len(),
        s.subrange(pos as int, (pos + written_value(tag, if tag == 1 { kt } else { vt }, x).len()) as int)
            == written_value(tag, if tag == 1 { kt } else { vt }, x),
    ensures
        crate::decode::entry_fields(reg, kt, vt, s, pos, end, kv) == crate::decode::entry_fields(
            reg,
            kt,
            vt,
            s,
            pos + written_value(tag, if tag == 1 { kt } else { vt }, x).len(),
            end,
            if tag == 1 { (Some(x), kv.1) } else { (kv.0, Some(x)) },
        ),
{
    let t = if tag == 1 { kt } else { vt };
    let w = wire_type_of(t);
    let kb = key_bytes(tag, w);
    let pl = value_payload(t, x);
    let wv = written_value(tag, t, x);
    let whole = s.subrange(pos as int, s.len() as int);
    let after = s.subrange((pos + wv.len()) as int, s.len() as int);
    assert(whole =~= kb + (pl + after)) by {
        assert forall|y: int| 0 <= y < whole.len() implies whole[y] == (kb + (pl + after))[y] by {
            if y < wv.len() {
                assert(s.subrange(pos as int, (pos + wv.len()) as int)[y] == wv[y]);
            }
        }
    }
    lemma_key_round_trip(tag, w, pl + after);
    lemma_wire_code_round_trip(w);
    let p = pos + kb.len();
    assert(s.subrange(p as int, s.len() as int) =~= pl + after) by {
        assert forall|y: int| 0 <= y < s.len() - p implies s.subrange(p as int, s.len() as int)[y] == (pl + after)[y] by {
            assert(s[p + y] == whole[kb.len() + y]);
        }
    }
    lemma_value_round_trip(t, x, after);
    assert(kb.len() >= 1);
    assert(one_value(reg, t, w, s, p) == Some((x, p + pl.len())));
}

/// The body of a map entry: its key as field 1 and its value as field 2.
pub open spec fn entry_body(kt: ProtoType, vt: ProtoType, e: (ValueModel, ValueModel)) -> Seq<u8> {
    written_value(1, kt, e.0) + written_value(2, vt, e.1)
}

/// Whether a map entry reads back as itself.
pub open spec fn entry_round_trips(kt: ProtoType, vt: ProtoType, e: (ValueModel, ValueModel)) -> bool {
    &&& !(kt is CustomMessage)
    &&& !(vt is CustomMessage)
    &&& value_round_trips(kt, e.0)
    &&& value_round_trips(vt, e.1)
    &&& entry_body(kt, vt, e).len() <= u64::MAX
}

/// The body of a map entry that lies at `a..b` reads as its key and value.
#[verifier::rlimit(80)]
proof fn lemma_entry_body_read(reg: Registry, kt: ProtoType, vt: ProtoType, e: (ValueModel, ValueModel), s: Seq<u8>, a: nat, b: nat)
    requires
        entry_round_trips(kt, vt, e),
        b == a + entry_body(kt, vt, e).len(),
        b <= s.len(),
        s.subrange(a as int, b as int) == entry_body(kt, vt, e),
    ensures
        crate::decode::entry_fields(reg, kt, vt, s, a, b, (None, None)) == Some((Some(e.0), Some(e.1))),
{
    let w1 = written_value(1, kt, e.0);
    let w2 = written_value(2, vt, e.1);
    let body = entry_body(kt, vt, e);
    assert(body =~= w1 + w2);
    assert(s.subrange(a as int, (a + w1.len()) as int) =~= w1) by {
        assert forall|y: int| 0 <= y < w1.len() implies s.subrange(a as int, (a + w1.len()) as int)[y] == w1[y] by {
            assert(s[a + y] == s.subrange(a as int, b as int)[y]);
        }
    }
    lemma_entry_step(reg, kt, vt, s, a, b, (None, None), 1, e.0);
    assert(s.subrange((a + w1.len()) as int, (a + w1.len() + w2.len()) as int) =~= w2) by {
        assert forall|y: int| 0 <= y < w2.len() implies s.subrange((a + w1.len()) as int, (a + w1.len() + w2.len()) as int)[y]
            == w2[y] by {
            assert(s[a + w1.len() + y] == s.subrange(a as int, b as int)[w1.len() + y]);
        }
    }
    lemma_entry_step(reg, kt, vt, s, a + w1.len(), b, (Some(e.0), None), 2, e.1);
}

/// Where the parts of a map entry that stands at `pos` lie, and what the
/// entry reads as.
#[verifier::rlimit(100)]
proof fn lemma_entry_layout(reg: Registry, tag: u32, kt: ProtoType, vt: ProtoType, e: (ValueModel, ValueModel), s: Seq<u8>, pos: nat)
    requires
        1 <= tag <= crate::wire::MAX_TAG,
        entry_round_trips(kt, vt, e),
        pos + crate::encode::entry_bytes(reg, tag, kt, vt, e).len() <= s.len(),
        s.subrange(pos as int, (pos + crate::encode::entry_bytes(reg, tag, kt, vt, e).len()) as int)
            == crate::encode::entry_bytes(reg, tag, kt, vt, e),
    ensures
        ({
            let kn = key_bytes(tag, WireType::LengthDelimited).len();
            let eb = crate::encode::entry_bytes(reg, tag, kt, vt, e);
            &&& kn >= 1
            &&& parse_key(s.subrange(pos as int, s.len() as int)) == Some((tag, 2nat, kn))
            &&& map_entry(reg, kt, vt, WireType::LengthDelimited, s, pos + kn) == Some((e, pos + eb.len()))
        }),
{
    let body = entry_body(kt, vt, e);
    let w1 = written_value(1, kt, e.0);
    let w2 = written_value(2, vt, e.1);
    let eb = crate::encode::entry_bytes(reg, tag, kt, vt, e);
    let kb = key_bytes(tag, WireType::LengthDelimited);
    let d = delimited(body);
    assert(eb =~= kb + d);
    let whole = s.subrange(pos as int, s.len() as int);
    let after = s.subrange((pos + eb.len()) as int, s.len() as int);
    assert(whole =~= kb + (d + after)) by {
        assert forall|y: int| 0 <= y < whole.len() implies whole[y] == (kb + (d + after))[y] by {
            if y < eb.len() {
                assert(s.subrange(pos as int, (pos + eb.len()) as int)[y] == eb[y]);
            }
        }
    }
    lemma_key_round_trip(tag, WireType::LengthDelimited, d + after);
    let p = pos + kb.len();
    assert(s.subrange(p as int, s.len() as int) =~= d + after) by {
        assert forall|y: int| 0 <= y < s.len() - p implies s.subrange(p as int, s.len() as int)[y] == (d + after)[y] by {
            assert(s[p + y] == whole[kb.len() + y]);
        }
    }
    lemma_delimited_body(vt, body, after);
    let n = varint_bytes(body.len()).len();
    let a = p + n;
    let b = a + body.len();
    assert(s.subrange(a as int, b as int) =~= body) by {
        assert forall|y: int| 0 <= y < body.len() implies s.subrange(a as int, b as int)[y] == body[y] by {
            assert(s[a + y] == s.subrange(p as int, s.len() as int)[n + y]);
            assert((d + after)[n + y] == d[n + y]);
        }
    }
    lemma_entry_body_read(reg, kt, vt, e, s, a, b);
    assert(crate::decode::entry_fields(reg, kt, vt, s, a, b, (None, None)) == Some((Some(e.0), Some(e.1))));
    assert(kb.len() >= 1);
}

/// A map entry of field `k` that stands at `pos` is read into the field's
/// map.
#[verifier::rlimit(80)]
proof fn lemma_read_entry_at(reg: Registry, idx: nat, k: nat, kt: ProtoType, e: (ValueModel, ValueModel), s: Seq<u8>, pos: nat, st: DecodeState)
    requires
        reg.wf(),
        idx < reg.messages@.len(),
        k < reg.messages@[idx as int].fields@.len(),
        st.slots.len() == reg.messages@[idx as int].fields@.len(),
        reg.messages@[idx as int].fields@[k as int].1.attribute == FieldAttribute::MapWithKey(kt),
        entry_round_trips(kt, reg.messages@[idx as int].fields@[k as int].1.value_type, e),
        ({
            let (tag, fd) = reg.messages@[idx as int].fields@[k as int];
            let eb = crate::encode::entry_bytes(reg, tag, kt, fd.value_type, e);
            pos + eb.len() <= s.len() && s.subrange(pos as int, (pos + eb.len()) as int) == eb
        }),
    ensures
        ({
            let (tag, fd) = reg.messages@[idx as int].fields@[k as int];
            let eb = crate::encode::entry_bytes(reg, tag, kt, fd.value_type, e);
            next_field(reg, idx, s, pos, st) == Some(
                (
                    DecodeState {
                        slots: st.slots.update(k as int, crate::decode::with_entry(st.slots[k as int], e)),
                        unknown: st.unknown,
                    },
                    pos + eb.len(),
                ),
            )
        }),
{
    let fields = reg.messages@[idx as int].fields@;
    let (tag, fd) = fields[k as int];
    let vt = fd.value_type;
    assert(reg.messages@[idx as int].wf(reg.messages@.len() as nat));
    assert(1 <= fields[k as int].0 <= crate::wire::MAX_TAG);
    lemma_entry_layout(reg, tag, kt, vt, e, s, pos);
    let kn = key_bytes(tag, WireType::LengthDelimited).len();
    lemma_find_unique(fields, k, 0);
    lemma_clear_no_group(fields, st.slots.update(k as int, crate::decode::with_entry(st.slots[k as int], e)), k as int);
    assert(wire_of_code(2) == WireType::LengthDelimited);
    assert(next_field(reg, idx, s, pos, st) == known_field(reg, idx, k, WireType::LengthDelimited, s, pos + kn, st));
}

/// Map entries written one after another.
pub open spec fn entries_bytes(reg: Registry, tag: u32, kt: ProtoType, vt: ProtoType, es: Seq<(ValueModel, ValueModel)>) -> Seq<u8>
    decreases es.len(),
{
    if es.len() == 0 {
        Seq::empty()
    } else {
        crate::encode::entry_bytes(reg, tag, kt, vt, es[0]) + entries_bytes(reg, tag, kt, vt, es.drop_first())
    }
}

/// A map slot after `es` were read into it.
pub open spec fn add_entries(slot: Option<FieldModel>, es: Seq<(ValueModel, ValueModel)>) -> Option<FieldModel> {
    if es.len() == 0 {
        slot
    } else {
        match slot {
            Some(FieldModel::Entries(xs)) => Some(FieldModel::Entries(xs + es)),
            _ => Some(FieldModel::Entries(es)),
        }
    }
}

proof fn lemma_entry_parts_flatten(reg: Registry, tag: u32, kt: ProtoType, vt: ProtoType, es: Seq<(ValueModel, ValueModel)>)
    ensures
        crate::encode::entry_parts(reg, tag, kt, vt, es).flatten() == entries_bytes(reg, tag, kt, vt, es),
    decreases es.len(),
{
    if es.len() > 0 {
        assert(crate::encode::entry_parts(reg, tag, kt, vt, es).drop_first() =~= crate::encode::entry_parts(
            reg,
            tag,
            kt,
            vt,
            es.drop_first(),
        ));
        lemma_entry_parts_flatten(reg, tag, kt, vt, es.drop_first());
    } else {
        assert(crate::encode::entry_parts(reg, tag, kt, vt, es) =~= Seq::<Seq<u8>>::empty());
    }
}

#[verifier::rlimit(80)]
proof fn lemma_read_entries(reg: Registry, idx: nat, k: nat, kt: ProtoType, es: Seq<(ValueModel, ValueModel)>, s: Seq<u8>, pos: nat, end: nat, st: DecodeState)
    requires
        reg.wf(),
        idx < reg.messages@.len(),
        k < reg.messages@[idx as int].fields@.len(),
        st.slots.len() == reg.messages@[idx as int].fields@.len(),
        reg.messages@[idx as int].fields@[k as int].1.attribute == FieldAttribute::MapWithKey(kt),
        forall|j: int| 0 <= j < es.len() ==> entry_round_trips(kt, reg.messages@[idx as int].fields@[k as int].1.value_type, #[trigger] es[j]),
        end == pos + entries_bytes(
            reg,
            reg.messages@[idx as int].fields@[k as int].0,
            kt,
            reg.messages@[idx as int].fields@[k as int].1.value_type,
            es,
        ).len(),
        end <= s.len(),
        s.subrange(pos as int, end as int) == entries_bytes(
            reg,
            reg.messages@[idx as int].fields@[k as int].0,
            kt,
            reg.messages@[idx as int].fields@[k as int].1.value_type,
            es,
        ),
    ensures
        message_fields(reg, idx, s, pos, end, st) == Some(
            DecodeState { slots: st.slots.update(k as int, add_entries(st.slots[k as int], es)), unknown: st.unknown },
        ),
    decreases es.len(),
{
    let fields = reg.messages@[idx as int].fields@;
    let (tag, fd) = fields[k as int];
    let vt = fd.value_type;
    if es.len() == 0 {
        assert(st.slots.update(k as int, st.slots[k as int]) =~= st.slots);
    } else {
        let e = es[0];
        let tail = es.drop_first();
        let eb = crate::encode::entry_bytes(reg, tag, kt, vt, e);
        assert(entries_bytes(reg, tag, kt, vt, es) == eb + entries_bytes(reg, tag, kt, vt, tail));
        assert(entry_round_trips(kt, vt, es[0]));
        assert(s.subrange(pos as int, (pos + eb.len()) as int) =~= eb) by {
            assert forall|y: int| 0 <= y < eb.len() implies s.subrange(pos as int, (pos + eb.len()) as int)[y] == eb[y] by {
                assert(s[pos + y] == s.subrange(pos as int, end as int)[y]);
            }
        }
        lemma_read_entry_at(reg, idx, k, kt, e, s, pos, st);
        let slot1 = crate::decode::with_entry(st.slots[k as int], e);
        let st1 = DecodeState { slots: st.slots.update(k as int, slot1), unknown: st.unknown };
        assert(eb.len() > 0) by {
            assert(key_bytes(tag, WireType::LengthDelimited).len() >= 1);
        }
        assert forall|j: int| 0 <= j < tail.len() implies entry_round_trips(kt, vt, #[trigger] tail[j]) by {
            assert(tail[j] == es[j + 1]);
        }
        assert(s.subrange((pos + eb.len()) as int, end as int) =~= entries_bytes(reg, tag, kt, vt, tail)) by {
            assert forall|y: int| 0 <= y < end - (pos + eb.len()) implies s.subrange((pos + eb.len()) as int, end as int)[y]
                == entries_bytes(reg, tag, kt, vt, tail)[y] by {
                assert(s[pos + eb.len() + y] == s.subrange(pos as int, end as int)[eb.len() + y]);
            }
        }
        lemma_read_entries(reg, idx, k, kt, tail, s, pos + eb.len(), end, st1);
        assert(seq![e] + tail =~= es);
        match st.slots[k as int] {
            Some(FieldModel::Entries(xs)) => {
                assert(xs.push(e) + tail =~= xs + es);
            },
            _ => {
                assert(seq![e] + tail =~= es);
            },
        }
        assert(st1.slots.update(k as int, add_entries(st1.slots[k as int], tail)) =~= st.slots.update(
            k as int,
            add_entries(st.slots[k as int], es),
        ));
    }
}

/// The slots of `m` before field `i`, the others unset.
pub open spec fn prefix_slots(m: MessageModel, i: int) -> Seq<Option<FieldModel>> {
    Seq::new(m.fields.len(), |j: int| if j < i { m.fields[j] } else { None })
}

#[verifier::rlimit(80)]
proof fn lemma_read_parts(reg: Registry, idx: nat, m: MessageModel, i: nat, s: Seq<u8>, pos: nat, end: nat, unknown: Seq<u8>)
    requires
        reg.wf(),
        idx < reg.messages@.len(),
        flat_message(reg, idx, m),
        i <= m.fields.len(),
        end <= s.len(),
        pos <= end,
        s.subrange(pos as int, end as int) == message_parts(reg, idx, m).subrange(i as int, m.fields.len() as int).flatten(),
    ensures
        message_fields(reg, idx, s, pos, end, DecodeState { slots: prefix_slots(m, i as int), unknown })
            == Some(DecodeState { slots: m.fields, unknown }),
    decreases m.fields.len() - i,
{
    let fields = reg.messages@[idx as int].fields@;
    let parts = message_parts(reg, idx, m);
    let n = m.fields.len();
    let st = DecodeState { slots: prefix_slots(m, i as int), unknown };
    if i == n {
        assert(parts.subrange(i as int, n as int) =~= Seq::<Seq<u8>>::empty());
        assert(prefix_slots(m, i as int) =~= m.fields);
    } else {
        let rest_parts = parts.subrange((i + 1) as int, n as int);
        assert(parts.subrange(i as int, n as int).drop_first() =~= rest_parts);
        let part = parts[i as int];
        assert(parts.subrange(i as int, n as int).flatten() == part + rest_parts.flatten());
        assert(slot_round_trips(fields[i as int].1, m.fields[i as int]));
        match m.fields[i as int] {
            None => {
                assert(part =~= Seq::<u8>::empty());
                assert(prefix_slots(m, (i + 1) as int) =~= prefix_slots(m, i as int));
                assert(s.subrange(pos as int, end as int) =~= rest_parts.flatten());
                lemma_read_parts(reg, idx, m, i + 1, s, pos, end, unknown);
            },
            Some(FieldModel::Entries(es)) => {
                let (tag, fd) = fields[i as int];
                let t = fd.value_type;
                let kt = fd.attribute->MapWithKey_0;
                assert(st.slots[i as int] is None);
                let updated = st.slots.update(i as int, add_entries(st.slots[i as int], es));
                assert(updated =~= prefix_slots(m, (i + 1) as int));
                lemma_entry_parts_flatten(reg, tag, kt, t, es);
                assert(part == entries_bytes(reg, tag, kt, t, es));
                assert(part.len() > 0) by {
                    assert(crate::encode::entry_bytes(reg, tag, kt, t, es[0]).len() > 0) by {
                        assert(key_bytes(tag, WireType::LengthDelimited).len() >= 1);
                    }
                }
                assert(s.subrange(pos as int, (pos + part.len()) as int) =~= part) by {
                    assert forall|x: int| 0 <= x < part.len() implies s.subrange(pos as int, (pos + part.len()) as int)[x]
                        == part[x] by {
                        assert(s[pos + x] == s.subrange(pos as int, end as int)[x]);
                    }
                }
                let st1 = DecodeState { slots: updated, unknown };
                lemma_read_entries(reg, idx, i, kt, es, s, pos, pos + part.len(), st);
                lemma_fields_chain(reg, idx, s, pos, pos + part.len(), end, st, st1);
                assert(s.subrange((pos + part.len()) as int, end as int) =~= rest_parts.flatten()) by {
                    assert forall|x: int| 0 <= x < end - (pos + part.len()) implies s.subrange((pos + part.len()) as int, end as int)[x]
                        == rest_parts.flatten()[x] by {
                        assert(s[pos + part.len() + x] == s.subrange(pos as int, end as int)[part.len() + x]);
                    }
                }
                lemma_read_parts(reg, idx, m, i + 1, s, pos + part.len(), end, unknown);
            },
            Some(FieldModel::Repeated(items)) => {
                let (tag, fd) = fields[i as int];
                let t = fd.value_type;
                assert(reg.messages@[idx as int].wf(reg.messages@.len() as nat));
                assert(1 <= fields[i as int].0 <= crate::wire::MAX_TAG);
                assert(st.slots[i as int] is None);
                let updated = st.slots.update(i as int, crate::decode::with_items(st.slots[i as int], items));
                assert(updated =~= prefix_slots(m, (i + 1) as int));
                if crate::descriptors::is_packable(t) {
                    lemma_packed_parts_flatten(t, items);
                    assert(part == packed_entry(tag, t, items));
                } else {
                    lemma_list_parts_flatten(reg, tag, t, items);
                    assert(part == unpacked_entries(tag, t, items));
                }
                assert(part.len() > 0) by {
                    if crate::descriptors::is_packable(t) {
                        assert(key_bytes(tag, WireType::LengthDelimited).len() >= 1);
                    } else {
                        assert(key_bytes(tag, wire_type_of(t)).len() >= 1);
                    }
                }
                assert(s.subrange(pos as int, (pos + part.len()) as int) =~= part) by {
                    assert forall|x: int| 0 <= x < part.len() implies s.subrange(pos as int, (pos + part.len()) as int)[x]
                        == part[x] by {
                        assert(s[pos + x] == s.subrange(pos as int, end as int)[x]);
                    }
                }
                let st1 = DecodeState { slots: updated, unknown };
                if crate::descriptors::is_packable(t) {
                    lemma_read_packed_at(reg, idx, i, items, s, pos, st);
                    assert(message_fields(reg, idx, s, pos, end, st) == message_fields(reg, idx, s, pos + part.len(), end, st1));
                } else {
                    lemma_read_unpacked(reg, idx, i, items, s, pos, pos + part.len(), st);
                    lemma_fields_chain(reg, idx, s, pos, pos + part.len(), end, st, st1);
                }
                assert(s.subrange((pos + part.len()) as int, end as int) =~= rest_parts.flatten()) by {
                    assert forall|x: int| 0 <= x < end - (pos + part.len()) implies s.subrange((pos + part.len()) as int, end as int)[x]
                        == rest_parts.flatten()[x] by {
                        assert(s[pos + part.len() + x] == s.subrange(pos as int, end as int)[part.len() + x]);
                    }
                }
                lemma_read_parts(reg, idx, m, i + 1, s, pos + part.len(), end, unknown);
            },
            Some(f) => {
                let (tag, fd) = fields[i as int];
                let t = fd.value_type;
                let v = f->Single_0;
                assert(part == written_value(tag, t, v));
                assert(part.len() > 0) by {
                    assert(key_bytes(tag, wire_type_of(t)).len() >= 1);
                }
                assert(s.subrange(pos as int, (pos + part.len()) as int) =~= part) by {
                    assert forall|x: int| 0 <= x < part.len() implies s.subrange(pos as int, (pos + part.len()) as int)[x]
                        == part[x] by {
                        assert(s[pos + x] == s.subrange(pos as int, end as int)[x]);
                    }
                }
                lemma_read_written_value(reg, idx, i, v, s, pos, st);
                let updated = st.slots.update(i as int, Some(FieldModel::Single(v)));
                assert(updated =~= prefix_slots(m, (i + 1) as int));
                assert(clear_siblings(fields, updated, i as int) =~= updated) by {
                    assert forall|j: int| 0 <= j < updated.len() && j != i && group_of(fields[i as int].1) is Some
                        && group_of(fields[j].1) == group_of(fields[i as int].1) implies updated[j] is None by {
                        if j < i && m.fields[j] is Some {
                            assert(m.fields[i as int] is Some);
                        }
                    }
                }
                assert(s.subrange((pos + part.len()) as int, end as int) =~= rest_parts.flatten()) by {
                    assert forall|x: int| 0 <= x < end - (pos + part.len()) implies s.subrange((pos + part.len()) as int, end as int)[x]
                        == rest_parts.flatten()[x] by {
                        assert(s[pos + part.len() + x] == s.subrange(pos as int, end as int)[part.len() + x]);
                    }
                }
                lemma_read_parts(reg, idx, m, i + 1, s, pos + part.len(), end, unknown);
            },
        }
    }
}

/// A message that holds only singular values, non-empty lists and non-empty
/// maps of kinds other than nested messages (no singular value a suppressed
/// zero, at most one member of each oneof group, no unknown bytes) reads
/// back, field by field, as itself.
pub proof fn lemma_flat_round_trip(reg: Registry, idx: nat, m: MessageModel)
    requires
        reg.wf(),
        idx < reg.messages@.len(),
        flat_message(reg, idx, m),
    ensures
        crate::decode::decode_message(reg, idx, message_bytes(reg, idx, m)) == Some(
            DecodeState { slots: m.fields, unknown: Seq::empty() },
        ),
{
    let bytes = message_bytes(reg, idx, m);
    let parts = message_parts(reg, idx, m);
    assert(parts.subrange(0, m.fields.len() as int) =~= parts);
    assert(bytes =~= parts.flatten());
    assert(bytes.subrange(0, bytes.len() as int) =~= bytes);
    assert(prefix_slots(m, 0) =~= crate::decode::initial_state(m.fields.len()).slots);
    lemma_read_parts(reg, idx, m, 0, bytes, 0, bytes.len(), Seq::empty());
}


proof fn lemma_unknown_reread(tag: u32, code: nat, s: Seq<u8>, p: nat, kept: Seq<u8>, e: nat)
    requires
        1 <= tag <= crate::wire::MAX_TAG,
        p <= s.len(),
        unknown_at(tag, code, s, p) == Some((kept, e)),
    ensures
        ({
            let kn = key_bytes(tag, wire_of_code(code)).len();
            &&& kn >= 1
            &&& parse_key(kept) == Some((tag, code, kn))
            &&& unknown_at(tag, code, kept, kn) == Some((kept, kept.len()))
        }),
{
    let w = wire_of_code(code);
    let kb = key_bytes(tag, w);
    let payload = kept.subrange(kb.len() as int, kept.len() as int);
    assert(kept =~= kb + payload);
    lemma_key_round_trip(tag, w, payload);
    assert(wire_code(w) == code);
    let rest = s.subrange(p as int, s.len() as int);
    if code == 0 {
        let (v, n) = parse_varint(rest)->Some_0;
        crate::scalar::lemma_parse_varint_bounds(rest);
        assert(payload =~= varint_bytes(v) + Seq::<u8>::empty());
        lemma_varint_round_trip(v as u64, Seq::empty());
    } else if code == 2 {
        let (a, b) = delimited_at(rest)->Some_0;
        let d = s.subrange((p + a) as int, (p + b) as int);
        crate::scalar::lemma_parse_varint_bounds(rest);
        assert(payload =~= delimited(d) + Seq::<u8>::empty());
        lemma_varint_round_trip(d.len() as u64, d + Seq::<u8>::empty());
        assert(payload =~= varint_bytes(d.len()) + (d + Seq::<u8>::empty()));
        let n = varint_bytes(d.len()).len();
        assert(payload.subrange(n as int, (n + d.len()) as int) =~= d);
        assert(kept.subrange((kb.len() + n) as int, (kb.len() + n + d.len()) as int) =~= d);
    } else {
        assert(code == 1 || code == 5);
    }
    assert(kb.len() >= 1);
}

/// The bytes that a read keeps for an unknown field read back as exactly
/// those bytes: a message made of them alone keeps them whole as its unknown
/// bytes.
pub proof fn lemma_unknown_bytes_stable(
    reg: Registry,
    idx: nat,
    tag: u32,
    code: nat,
    s: Seq<u8>,
    p: nat,
    st: DecodeState,
    kept: Seq<u8>,
    e: nat,
)
    requires
        1 <= tag <= crate::wire::MAX_TAG,
        p <= s.len(),
        find_from(reg.messages@[idx as int].fields@, tag, 0) is None,
        unknown_at(tag, code, s, p) == Some((kept, e)),
    ensures
        message_fields(reg, idx, kept, 0, kept.len(), st) == Some(
            DecodeState { slots: st.slots, unknown: st.unknown + kept },
        ),
{
    lemma_unknown_reread(tag, code, s, p, kept, e);
    assert(kept.subrange(0, kept.len() as int) =~= kept);
    let st2 = DecodeState { slots: st.slots, unknown: st.unknown + kept };
    assert(next_field(reg, idx, kept, 0, st) == Some((st2, kept.len())));
    assert(message_fields(reg, idx, kept, kept.len(), kept.len(), st2) == Some(st2));
}

} // verus!
