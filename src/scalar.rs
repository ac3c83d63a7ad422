//! The wire forms of single values of the scalar kinds and of the
//! well-known wrapper, Timestamp and Duration shapes.
use vstd::prelude::*;
use crate::descriptors::ProtoType;
use crate::error::DecodeError;
use crate::value::{value_model, Value, ValueModel};
use crate::well_known_types::{Duration, Timestamp};
use crate::wire::{
    key_bytes, parse_key, parse_varint, put_key, put_varint, take_key, take_varint, varint_bytes,
    wire_code, WireType,
};

verus! {

/// Whether a value has the variant that a kind takes.
pub open spec fn fits(t: ProtoType, v: ValueModel) -> bool {
    match t {
        ProtoType::Bool | ProtoType::BoolValue => v is Bool,
        ProtoType::Int32 | ProtoType::Sint32 | ProtoType::Sfixed32 | ProtoType::Enum(_)
        | ProtoType::Int32Value => v is Int32,
        ProtoType::Int64 | ProtoType::Sint64 | ProtoType::Sfixed64 | ProtoType::Int64Value => v is Int64,
        ProtoType::Uint32 | ProtoType::Fixed32 | ProtoType::UInt32Value => v is Uint32,
        ProtoType::Uint64 | ProtoType::Fixed64 | ProtoType::UInt64Value => v is Uint64,
        ProtoType::Float | ProtoType::FloatValue => v is Float,
        ProtoType::Double | ProtoType::DoubleValue => v is Double,
        ProtoType::Bytes | ProtoType::BytesValue => v is Bytes,
        ProtoType::String | ProtoType::StringValue => v is Str,
        ProtoType::CustomMessage(_) => v is Message,
        ProtoType::Timestamp => v is Timestamp,
        ProtoType::Duration => v is Duration,
    }
}

/// The wire type that a single value of a kind is written with.
pub open spec fn wire_type_of(t: ProtoType) -> WireType {
    match t {
        ProtoType::Bool | ProtoType::Int32 | ProtoType::Int64 | ProtoType::Uint32
        | ProtoType::Uint64 | ProtoType::Sint32 | ProtoType::Sint64
        | ProtoType::Enum(_) => WireType::Varint,
        ProtoType::Fixed64 | ProtoType::Sfixed64 | ProtoType::Double => WireType::SixtyFourBit,
        ProtoType::Fixed32 | ProtoType::Sfixed32 | ProtoType::Float => WireType::ThirtyTwoBit,
        _ => WireType::LengthDelimited,
    }
}

/// The kind that a wrapper holds; other kinds are their own.
pub open spec fn wrapped_kind(t: ProtoType) -> ProtoType {
    match t {
        ProtoType::BoolValue => ProtoType::Bool,
        ProtoType::BytesValue => ProtoType::Bytes,
        ProtoType::DoubleValue => ProtoType::Double,
        ProtoType::FloatValue => ProtoType::Float,
        ProtoType::Int32Value => ProtoType::Int32,
        ProtoType::Int64Value => ProtoType::Int64,
        ProtoType::UInt32Value => ProtoType::Uint32,
        ProtoType::UInt64Value => ProtoType::Uint64,
        ProtoType::StringValue => ProtoType::String,
        _ => t,
    }
}

pub open spec fn is_wrapper(t: ProtoType) -> bool {
    match t {
        ProtoType::BoolValue | ProtoType::BytesValue | ProtoType::DoubleValue
        | ProtoType::FloatValue | ProtoType::Int32Value | ProtoType::Int64Value
        | ProtoType::UInt32Value | ProtoType::UInt64Value | ProtoType::StringValue => true,
        _ => false,
    }
}

pub open spec fn is_time(t: ProtoType) -> bool {
    t is Timestamp || t is Duration
}

/// Kinds whose single value is a plain scalar on the wire.
pub open spec fn is_plain_scalar(t: ProtoType) -> bool {
    !is_wrapper(t) && !is_time(t) && !(t is CustomMessage)
}

/// Zig-zag: 0, -1, 1, -2, ... onto 0, 1, 2, 3, ...
pub open spec fn zigzag(n: int) -> nat {
    if n >= 0 {
        (2 * n) as nat
    } else {
        (-2 * n - 1) as nat
    }
}

pub open spec fn unzigzag(u: nat) -> int {
    if u % 2 == 0 {
        (u / 2) as int
    } else {
        -((u / 2) as int) - 1
    }
}

/// The integer that a varint kind writes for a value.
pub open spec fn varint_of(t: ProtoType, v: ValueModel) -> nat {
    match (t, v) {
        (ProtoType::Bool, ValueModel::Bool(b)) => if b { 1 } else { 0 },
        (ProtoType::Sint32, ValueModel::Int32(n)) => zigzag(n as int),
        (ProtoType::Sint64, ValueModel::Int64(n)) => zigzag(n as int),
        (_, ValueModel::Int32(n)) => (n as u64) as nat,
        (_, ValueModel::Int64(n)) => (n as u64) as nat,
        (_, ValueModel::Uint32(n)) => n as nat,
        (_, ValueModel::Uint64(n)) => n as nat,
        _ => 0,
    }
}

/// The value that a varint kind reads from an integer.
pub open spec fn from_varint(t: ProtoType, x: nat) -> ValueModel {
    match t {
        ProtoType::Bool => ValueModel::Bool(x != 0),
        ProtoType::Int64 => ValueModel::Int64(x as i64),
        ProtoType::Uint32 => ValueModel::Uint32(x as u32),
        ProtoType::Uint64 => ValueModel::Uint64(x as u64),
        ProtoType::Sint32 => ValueModel::Int32(unzigzag((x as u32) as nat) as i32),
        ProtoType::Sint64 => ValueModel::Int64(unzigzag(x) as i64),
        _ => ValueModel::Int32(x as i32),
    }
}

/// Little-endian bytes of a 32-bit pattern.
pub open spec fn le32(v: nat) -> Seq<u8> {
    seq![(v % 256) as u8, ((v / 256) % 256) as u8, ((v / 65536) % 256) as u8, ((v / 16777216) % 256) as u8]
}

pub open spec fn le32_value(s: Seq<u8>) -> nat {
    (s[0] + 256 * s[1] + 65536 * s[2] + 16777216 * s[3]) as nat
}

/// Little-endian bytes of a 64-bit pattern: the low word first.
pub open spec fn le64(v: nat) -> Seq<u8> {
    le32(v % 0x1_0000_0000) + le32(v / 0x1_0000_0000)
}

pub open spec fn le64_value(s: Seq<u8>) -> nat {
    le32_value(s.subrange(0, 4)) + 0x1_0000_0000 * le32_value(s.subrange(4, 8))
}

/// The bit pattern that a fixed-width kind writes for a value.
pub open spec fn fixed_of(v: ValueModel) -> nat {
    match v {
        ValueModel::Int32(n) => (n as u32) as nat,
        ValueModel::Int64(n) => (n as u64) as nat,
        ValueModel::Uint32(n) => n as nat,
        ValueModel::Uint64(n) => n as nat,
        ValueModel::Float(n) => n as nat,
        ValueModel::Double(n) => n as nat,
        _ => 0,
    }
}

pub open spec fn from_fixed(t: ProtoType, x: nat) -> ValueModel {
    match t {
        ProtoType::Fixed32 => ValueModel::Uint32(x as u32),
        ProtoType::Sfixed32 => ValueModel::Int32(x as i32),
        ProtoType::Float => ValueModel::Float(x as u32),
        ProtoType::Fixed64 => ValueModel::Uint64(x as u64),
        ProtoType::Sfixed64 => ValueModel::Int64(x as i64),
        _ => ValueModel::Double(x as u64),
    }
}

/// A length prefix and the bytes it announces.
pub open spec fn delimited(p: Seq<u8>) -> Seq<u8> {
    varint_bytes(p.len()) + p
}

/// The wire bytes, after the key, of one value of a plain scalar kind.
pub open spec fn scalar_payload(t: ProtoType, v: ValueModel) -> Seq<u8> {
    match wire_type_of(t) {
        WireType::Varint => varint_bytes(varint_of(t, v)),
        WireType::ThirtyTwoBit => le32(fixed_of(v)),
        WireType::SixtyFourBit => le64(fixed_of(v)),
        _ => match v {
            ValueModel::Bytes(b) => delimited(b),
            ValueModel::Str(s) => delimited(vstd::utf8::encode_utf8(s)),
            _ => Seq::empty(),
        },
    }
}

/// Whether a value is its kind's zero value: false, zero, +0.0 or -0.0, empty.
pub open spec fn is_zero(v: ValueModel) -> bool {
    match v {
        ValueModel::Bool(b) => !b,
        ValueModel::Int32(n) => n == 0,
        ValueModel::Int64(n) => n == 0,
        ValueModel::Uint32(n) => n == 0,
        ValueModel::Uint64(n) => n == 0,
        ValueModel::Float(n) => n == 0 || n == 0x8000_0000,
        ValueModel::Double(n) => n == 0 || n == 0x8000_0000_0000_0000,
        ValueModel::Bytes(b) => b.len() == 0,
        ValueModel::Str(s) => s.len() == 0,
        ValueModel::Timestamp(t) => t.seconds == 0 && t.nanos == 0,
        ValueModel::Duration(d) => d.seconds == 0 && d.nanos == 0,
        ValueModel::Message(_) => false,
    }
}

/// A whole field of a plain scalar kind: key and payload.
pub open spec fn scalar_field(tag: u32, t: ProtoType, v: ValueModel) -> Seq<u8> {
    key_bytes(tag, wire_type_of(t)) + scalar_payload(t, v)
}

/// Seconds and nanoseconds of a Timestamp or Duration value.
pub open spec fn time_parts(v: ValueModel) -> (i64, i32) {
    match v {
        ValueModel::Timestamp(t) => (t.seconds, t.nanos),
        ValueModel::Duration(d) => (d.seconds, d.nanos),
        _ => (0, 0),
    }
}

/// The body of a wrapper message: field 1 holds the value unless it is zero.
pub open spec fn wrapper_body(t: ProtoType, v: ValueModel) -> Seq<u8> {
    if is_zero(v) {
        Seq::empty()
    } else {
        scalar_field(1, wrapped_kind(t), v)
    }
}

/// The body of a Timestamp or Duration message: seconds as field 1 and
/// nanoseconds as field 2, each left out when zero.
pub open spec fn time_body(v: ValueModel) -> Seq<u8> {
    let (s, n) = time_parts(v);
    (if s == 0 { Seq::empty() } else { scalar_field(1, ProtoType::Int64, ValueModel::Int64(s)) })
        + (if n == 0 { Seq::empty() } else { scalar_field(2, ProtoType::Int32, ValueModel::Int32(n)) })
}

/// The wire bytes, after the key, of one value of any kind but a nested
/// message.
pub open spec fn value_payload(t: ProtoType, v: ValueModel) -> Seq<u8> {
    if is_wrapper(t) {
        delimited(wrapper_body(t, v))
    } else if is_time(t) {
        delimited(time_body(v))
    } else {
        scalar_payload(t, v)
    }
}


/// A length prefix at the front of `s` and the region it announces, when the
/// region lies within `s`.
pub open spec fn delimited_at(s: Seq<u8>) -> Option<(nat, nat)> {
    match parse_varint(s) {
        Some((len, n)) => if n + len <= s.len() {
            Some((n, n + len))
        } else {
            None
        },
        None => None,
    }
}

/// One value of a plain scalar kind at the front of `s`, which came with wire
/// type `w`: the value and the bytes it took.
pub open spec fn scalar_at(t: ProtoType, w: WireType, s: Seq<u8>) -> Option<(ValueModel, nat)> {
    if w != wire_type_of(t) {
        None
    } else {
        match w {
            WireType::Varint => match parse_varint(s) {
                Some((x, n)) => Some((from_varint(t, x), n)),
                None => None,
            },
            WireType::ThirtyTwoBit => if s.len() >= 4 {
                Some((from_fixed(t, le32_value(s)), 4))
            } else {
                None
            },
            WireType::SixtyFourBit => if s.len() >= 8 {
                Some((from_fixed(t, le64_value(s)), 8))
            } else {
                None
            },
            _ => match delimited_at(s) {
                Some((a, b)) => if t is String {
                    if vstd::utf8::valid_utf8(s.subrange(a as int, b as int)) {
                        Some((ValueModel::Str(vstd::utf8::decode_utf8(s.subrange(a as int, b as int))), b))
                    } else {
                        None
                    }
                } else {
                    Some((ValueModel::Bytes(s.subrange(a as int, b as int)), b))
                },
                None => None,
            },
        }
    }
}

/// The bytes that an unknown field of wire-type code `code` takes at the front
/// of `s`, after its key. Groups are not skipped.
pub open spec fn skip_at(code: nat, s: Seq<u8>) -> Option<nat> {
    if code == 0 {
        match parse_varint(s) {
            Some((_, n)) => Some(n),
            None => None,
        }
    } else if code == 1 {
        if s.len() >= 8 { Some(8) } else { None }
    } else if code == 5 {
        if s.len() >= 4 { Some(4) } else { None }
    } else if code == 2 {
        match delimited_at(s) {
            Some((_, b)) => Some(b),
            None => None,
        }
    } else {
        None
    }
}

/// The zero value of a kind.
pub open spec fn zero_of(t: ProtoType) -> ValueModel {
    match wrapped_kind(t) {
        ProtoType::Bool => ValueModel::Bool(false),
        ProtoType::Int64 | ProtoType::Sint64 | ProtoType::Sfixed64 => ValueModel::Int64(0),
        ProtoType::Uint32 | ProtoType::Fixed32 => ValueModel::Uint32(0),
        ProtoType::Uint64 | ProtoType::Fixed64 => ValueModel::Uint64(0),
        ProtoType::Float => ValueModel::Float(0),
        ProtoType::Double => ValueModel::Double(0),
        ProtoType::Bytes => ValueModel::Bytes(Seq::empty()),
        ProtoType::String => ValueModel::Str(Seq::empty()),
        ProtoType::Timestamp => ValueModel::Timestamp(Timestamp { seconds: 0, nanos: 0 }),
        ProtoType::Duration => ValueModel::Duration(Duration { seconds: 0, nanos: 0 }),
        _ => ValueModel::Int32(0),
    }
}

/// `cur` with its seconds (`which` is 1) or nanoseconds (2) replaced.
pub open spec fn with_time_part(cur: ValueModel, which: u32, x: ValueModel) -> ValueModel {
    let (s, n) = time_parts(cur);
    let s2 = if which == 1 { match x { ValueModel::Int64(v) => v, _ => s } } else { s };
    let n2 = if which == 2 { match x { ValueModel::Int32(v) => v, _ => n } } else { n };
    match cur {
        ValueModel::Duration(_) => ValueModel::Duration(Duration { seconds: s2, nanos: n2 }),
        _ => ValueModel::Timestamp(Timestamp { seconds: s2, nanos: n2 }),
    }
}

/// The kind of field `tag` of a well-known message shape, if it has one.
pub open spec fn known_part(t: ProtoType, tag: u32) -> Option<ProtoType> {
    if is_wrapper(t) && tag == 1 {
        Some(wrapped_kind(t))
    } else if is_time(t) && tag == 1 {
        Some(ProtoType::Int64)
    } else if is_time(t) && tag == 2 {
        Some(ProtoType::Int32)
    } else {
        None
    }
}

/// Reads the fields of a well-known message body from `pos` up to `end`,
/// starting from `cur`: a later field overwrites an earlier one, and fields
/// of other numbers are skipped. Reading must stop exactly at `end`.
pub open spec fn known_fields(t: ProtoType, s: Seq<u8>, pos: nat, end: nat, cur: ValueModel) -> Option<ValueModel>
    decreases s.len() - pos,
{
    if pos >= end || pos >= s.len() {
        if pos == end { Some(cur) } else { None }
    } else {
        match parse_key(s.subrange(pos as int, s.len() as int)) {
            None => None,
            Some((tag, code, kn)) => {
                let p = pos + kn;
                let rest = s.subrange(p as int, s.len() as int);
                match known_part(t, tag) {
                    Some(k) => match scalar_at(k, crate::wire::wire_of_code(code), rest) {
                        Some((x, n)) => {
                            let next = if is_time(t) { with_time_part(cur, tag, x) } else { x };
                            if n > 0 && p + n <= s.len() { known_fields(t, s, p + n, end, next) } else { None }
                        },
                        None => None,
                    },
                    None => match skip_at(code, rest) {
                        Some(n) => if n > 0 && p + n <= s.len() { known_fields(t, s, p + n, end, cur) } else { None },
                        None => None,
                    },
                }
            },
        }
    }
}

/// One value of any kind but a nested message at the front of `s`, which
/// came with wire type `w`: the value and the bytes it took.
pub open spec fn value_at(t: ProtoType, w: WireType, s: Seq<u8>) -> Option<(ValueModel, nat)> {
    if is_wrapper(t) || is_time(t) {
        if w != WireType::LengthDelimited {
            None
        } else {
            match delimited_at(s) {
                Some((a, b)) => match known_fields(t, s, a, b, zero_of(t)) {
                    Some(v) => Some((v, b)),
                    None => None,
                },
                None => None,
            }
        }
    } else {
        scalar_at(t, w, s)
    }
}


/// Relies on String::from_utf8: it succeeds exactly on valid UTF-8, and then
/// holds the characters that the bytes encode.
#[verifier::external_body]
fn string_from_utf8(bytes: Vec<u8>) -> (r: Option<String>)
    ensures
        r is Some <==> vstd::utf8::valid_utf8(bytes@),
        r matches Some(s) ==> s@ == vstd::utf8::decode_utf8(bytes@),
{
    String::from_utf8(bytes).ok()
}

/// Appends the bytes of `src`.
pub fn append_bytes(buf: &mut Vec<u8>, src: &[u8])
    ensures
        final(buf)@ == old(buf)@ + src@,
{
    let mut i: usize = 0;
    while i < src.len()
        invariant
            i <= src@.len(),
            buf@ == old(buf)@ + src@.subrange(0, i as int),
        decreases src@.len() - i,
    {
        buf.push(src[i]);
        i = i + 1;
        assert(buf@ =~= old(buf)@ + src@.subrange(0, i as int));
    }
    assert(src@.subrange(0, src@.len() as int) =~= src@);
}

/// Copies `data[a..b]`.
pub fn copy_range(data: &[u8], a: usize, b: usize) -> (r: Vec<u8>)
    requires
        a <= b <= data@.len(),
    ensures
        r@ == data@.subrange(a as int, b as int),
{
    let mut r: Vec<u8> = Vec::new();
    let mut i: usize = a;
    while i < b
        invariant
            a <= i <= b,
            b <= data@.len(),
            r@ == data@.subrange(a as int, i as int),
        decreases b - i,
    {
        r.push(data[i]);
        i = i + 1;
        assert(r@ =~= data@.subrange(a as int, i as int));
    }
    r
}

fn push_le32(v: u32, buf: &mut Vec<u8>)
    ensures
        final(buf)@ == old(buf)@ + le32(v as nat),
{
    buf.push((v % 256) as u8);
    buf.push(((v / 256) % 256) as u8);
    buf.push(((v / 65536) % 256) as u8);
    buf.push(((v / 16777216) % 256) as u8);
    assert(buf@ =~= old(buf)@ + le32(v as nat));
}

fn push_le64(v: u64, buf: &mut Vec<u8>)
    ensures
        final(buf)@ == old(buf)@ + le64(v as nat),
{
    push_le32((v % 0x1_0000_0000) as u32, buf);
    push_le32((v / 0x1_0000_0000) as u32, buf);
    assert(buf@ =~= old(buf)@ + le64(v as nat));
}

fn read_le32(data: &[u8], pos: usize) -> (r: u32)
    requires
        pos + 4 <= data@.len(),
    ensures
        r as nat == le32_value(data@.subrange(pos as int, data@.len() as int)),
{
    let r = data[pos] as u32 + 256 * (data[pos + 1] as u32) + 65536 * (data[pos + 2] as u32)
        + 16777216 * (data[pos + 3] as u32);
    r
}

fn read_le64(data: &[u8], pos: usize) -> (r: u64)
    requires
        pos + 8 <= data@.len(),
    ensures
        r as nat == le64_value(data@.subrange(pos as int, data@.len() as int)),
{
    let lo = read_le32(data, pos) as u64;
    let _l = data.len();
    let hi = read_le32(data, pos + 4) as u64;
    let ghost s = data@.subrange(pos as int, data@.len() as int);
    assert(s.subrange(0, 4) =~= data@.subrange(pos as int, data@.len() as int).subrange(0, 4));
    assert(le32_value(s.subrange(0, 4)) == le32_value(s));
    assert(le32_value(s.subrange(4, 8)) == le32_value(data@.subrange(pos + 4, data@.len() as int)));
    assert(hi * 0x1_0000_0000 <= 0xffff_ffff * 0x1_0000_0000) by (nonlinear_arith)
        requires hi <= 0xffff_ffff;
    lo + hi * 0x1_0000_0000
}

fn zigzag64(n: i64) -> (r: u64)
    ensures
        r as nat == zigzag(n as int),
{
    if n >= 0 {
        (n as u64) * 2
    } else {
        ((-(n + 1)) as u64) * 2 + 1
    }
}

fn unzigzag64(u: u64) -> (r: i64)
    ensures
        r as int == unzigzag(u as nat),
{
    if u % 2 == 0 {
        (u / 2) as i64
    } else {
        -((u / 2) as i64) - 1
    }
}

/// The integer that a varint kind writes for a value.
fn varint_of_value(t: ProtoType, v: &Value) -> (r: u64)
    requires
        wire_type_of(t) == WireType::Varint,
        fits(t, value_model(*v)),
    ensures
        r as nat == varint_of(t, value_model(*v)),
{
    match v {
        Value::Bool(b) => if *b { 1 } else { 0 },
        Value::Int32(n) => match t {
            ProtoType::Sint32 => zigzag64(*n as i64),
            _ => *n as u64,
        },
        Value::Int64(n) => match t {
            ProtoType::Sint64 => zigzag64(*n),
            _ => *n as u64,
        },
        Value::Uint32(n) => *n as u64,
        Value::Uint64(n) => *n,
        _ => 0,
    }
}

/// The value that a varint kind reads from an integer.
fn value_of_varint(t: ProtoType, x: u64) -> (r: Value)
    requires
        wire_type_of(t) == WireType::Varint,
    ensures
        value_model(r) == from_varint(t, x as nat),
{
    match t {
        ProtoType::Bool => Value::Bool(x != 0),
        ProtoType::Int64 => Value::Int64(x as i64),
        ProtoType::Uint32 => Value::Uint32(x as u32),
        ProtoType::Uint64 => Value::Uint64(x),
        ProtoType::Sint32 => Value::Int32(unzigzag64((x as u32) as u64) as i32),
        ProtoType::Sint64 => Value::Int64(unzigzag64(x)),
        _ => Value::Int32(x as i32),
    }
}

fn value_of_fixed(t: ProtoType, x: u64) -> (r: Value)
    requires
        wire_type_of(t) == WireType::ThirtyTwoBit || wire_type_of(t) == WireType::SixtyFourBit,
    ensures
        value_model(r) == from_fixed(t, x as nat),
{
    match t {
        ProtoType::Fixed32 => Value::Uint32(x as u32),
        ProtoType::Sfixed32 => Value::Int32(x as i32),
        ProtoType::Float => Value::Float(x as u32),
        ProtoType::Fixed64 => Value::Uint64(x),
        ProtoType::Sfixed64 => Value::Int64(x as i64),
        _ => Value::Double(x),
    }
}

/// Writes a length prefix and then `body`.
pub fn put_delimited(body: &[u8], buf: &mut Vec<u8>)
    ensures
        final(buf)@ == old(buf)@ + delimited(body@),
{
    put_varint(body.len() as u64, buf);
    append_bytes(buf, body);
    assert(buf@ =~= old(buf)@ + delimited(body@));
}

/// Writes the payload of one value of a plain scalar kind.
pub fn encode_scalar(t: ProtoType, v: &Value, buf: &mut Vec<u8>)
    requires
        is_plain_scalar(t),
        fits(t, value_model(*v)),
    ensures
        final(buf)@ == old(buf)@ + scalar_payload(t, value_model(*v)),
{
    match t {
        ProtoType::Bool | ProtoType::Int32 | ProtoType::Int64 | ProtoType::Uint32
        | ProtoType::Uint64 | ProtoType::Sint32 | ProtoType::Sint64 | ProtoType::Enum(_) => {
            put_varint(varint_of_value(t, v), buf);
        },
        ProtoType::Fixed32 | ProtoType::Sfixed32 | ProtoType::Float => {
            let x: u32 = match v {
                Value::Uint32(n) => *n,
                Value::Int32(n) => *n as u32,
                Value::Float(n) => *n,
                _ => 0,
            };
            push_le32(x, buf);
        },
        ProtoType::Fixed64 | ProtoType::Sfixed64 | ProtoType::Double => {
            let x: u64 = match v {
                Value::Uint64(n) => *n,
                Value::Int64(n) => *n as u64,
                Value::Double(n) => *n,
                _ => 0,
            };
            push_le64(x, buf);
        },
        _ => match v {
            Value::Bytes(b) => put_delimited(b.as_slice(), buf),
            Value::Str(s) => put_delimited(s.as_str().as_bytes(), buf),
            _ => {},
        },
    }
}

/// Whether a value is its kind's zero value.
pub fn is_zero_value(v: &Value) -> (r: bool)
    ensures
        r == is_zero(value_model(*v)),
{
    match v {
        Value::Bool(b) => !*b,
        Value::Int32(n) => *n == 0,
        Value::Int64(n) => *n == 0,
        Value::Uint32(n) => *n == 0,
        Value::Uint64(n) => *n == 0,
        Value::Float(n) => *n == 0 || *n == 0x8000_0000,
        Value::Double(n) => *n == 0 || *n == 0x8000_0000_0000_0000,
        Value::Bytes(b) => b.len() == 0,
        Value::Str(s) => s.as_str().is_empty(),
        Value::Timestamp(t) => t.seconds == 0 && t.nanos == 0,
        Value::Duration(d) => d.seconds == 0 && d.nanos == 0,
        Value::Message(_) => false,
    }
}

/// Writes one value of any kind but a nested message, after its key.
pub fn encode_value(t: ProtoType, v: &Value, buf: &mut Vec<u8>)
    requires
        !(t is CustomMessage),
        fits(t, value_model(*v)),
    ensures
        final(buf)@ == old(buf)@ + value_payload(t, value_model(*v)),
{
    match t {
        ProtoType::BoolValue | ProtoType::BytesValue | ProtoType::DoubleValue
        | ProtoType::FloatValue | ProtoType::Int32Value | ProtoType::Int64Value
        | ProtoType::UInt32Value | ProtoType::UInt64Value | ProtoType::StringValue => {
            let mut body: Vec<u8> = Vec::new();
            if !is_zero_value(v) {
                let k = wrapped_kind_of(t);
                put_key(1, wire_type_exec(k), &mut body);
                encode_scalar(k, v, &mut body);
            }
            assert(body@ =~= wrapper_body(t, value_model(*v)));
            put_delimited(body.as_slice(), buf);
        },
        ProtoType::Timestamp | ProtoType::Duration => {
            let (s, n) = match v {
                Value::Timestamp(x) => (x.seconds, x.nanos),
                Value::Duration(x) => (x.seconds, x.nanos),
                _ => (0, 0),
            };
            let mut body: Vec<u8> = Vec::new();
            if s != 0 {
                put_key(1, WireType::Varint, &mut body);
                encode_scalar(ProtoType::Int64, &Value::Int64(s), &mut body);
            }
            if n != 0 {
                put_key(2, WireType::Varint, &mut body);
                encode_scalar(ProtoType::Int32, &Value::Int32(n), &mut body);
            }
            assert(body@ =~= time_body(value_model(*v)));
            put_delimited(body.as_slice(), buf);
        },
        _ => encode_scalar(t, v, buf),
    }
}

/// The wire type that a single value of a kind is written with.
pub fn wire_type_exec(t: ProtoType) -> (r: WireType)
    ensures
        r == wire_type_of(t),
{
    match t {
        ProtoType::Bool | ProtoType::Int32 | ProtoType::Int64 | ProtoType::Uint32
        | ProtoType::Uint64 | ProtoType::Sint32 | ProtoType::Sint64
        | ProtoType::Enum(_) => WireType::Varint,
        ProtoType::Fixed64 | ProtoType::Sfixed64 | ProtoType::Double => WireType::SixtyFourBit,
        ProtoType::Fixed32 | ProtoType::Sfixed32 | ProtoType::Float => WireType::ThirtyTwoBit,
        _ => WireType::LengthDelimited,
    }
}

/// The kind that a wrapper holds; other kinds are their own.
pub fn wrapped_kind_of(t: ProtoType) -> (r: ProtoType)
    ensures
        r == wrapped_kind(t),
{
    match t {
        ProtoType::BoolValue => ProtoType::Bool,
        ProtoType::BytesValue => ProtoType::Bytes,
        ProtoType::DoubleValue => ProtoType::Double,
        ProtoType::FloatValue => ProtoType::Float,
        ProtoType::Int32Value => ProtoType::Int32,
        ProtoType::Int64Value => ProtoType::Int64,
        ProtoType::UInt32Value => ProtoType::Uint32,
        ProtoType::UInt64Value => ProtoType::Uint64,
        ProtoType::StringValue => ProtoType::String,
        _ => t,
    }
}


/// The wire type of a code that a key held.
pub fn wire_of_code_exec(c: u8) -> (r: WireType)
    ensures
        r == crate::wire::wire_of_code(c as nat),
{
    if c == 0 {
        WireType::Varint
    } else if c == 1 {
        WireType::SixtyFourBit
    } else if c == 2 {
        WireType::LengthDelimited
    } else if c == 3 {
        WireType::StartGroup
    } else if c == 4 {
        WireType::EndGroup
    } else {
        WireType::ThirtyTwoBit
    }
}

/// Reads a varint at `data[pos..]`: its value and the position after it.
pub fn read_varint(data: &[u8], pos: usize) -> (r: Option<(u64, usize)>)
    requires
        pos <= data@.len(),
    ensures
        match parse_varint(data@.subrange(pos as int, data@.len() as int)) {
            Some((v, n)) => r matches Some((x, e)) && x == v && e == pos + n && pos + n <= data@.len()
                && 1 <= n <= 10,
            None => r is None,
        },
{
    proof {
        lemma_parse_varint_bounds(data@.subrange(pos as int, data@.len() as int));
    }
    match take_varint(data, pos) {
        Some((v, rest)) => {
            proof {
                lemma_parse_varint_bounds(data@.subrange(pos as int, data@.len() as int));
            }
            Some((v, data.len() - rest))
        },
        None => None,
    }
}

/// A varint read from `s` takes between one byte and all of `s`, and fits
/// in 64 bits.
pub proof fn lemma_parse_varint_bounds(s: Seq<u8>)
    ensures
        parse_varint(s) matches Some((v, n)) ==> 1 <= n <= s.len() && n <= 10 && v <= u64::MAX,
{
    lemma_varint_prefix_bounds(s, 10);
    crate::wire::lemma_varint_bound_ten();
}

proof fn lemma_varint_prefix_bounds(s: Seq<u8>, budget: nat)
    ensures
        crate::wire::varint_prefix(s, budget) matches Some((v, n)) ==> 1 <= n <= s.len() && n <= budget
            && v < crate::wire::varint_bound(budget),
    decreases budget,
{
    if budget > 0 && s.len() > 0 && s[0] >= 128 {
        lemma_varint_prefix_bounds(s.drop_first(), (budget - 1) as nat);
        if let Some((v, n)) = crate::wire::varint_prefix(s.drop_first(), (budget - 1) as nat) {
            if budget - 1 == 0 {
            } else {
                assert(crate::wire::varint_bound(budget) == 128 * crate::wire::varint_bound((budget - 1) as nat));
                assert((s[0] - 128) + 128 * v < 128 * crate::wire::varint_bound((budget - 1) as nat)) by (nonlinear_arith)
                    requires s[0] - 128 < 128, v < crate::wire::varint_bound((budget - 1) as nat), 0 <= s[0] - 128;
            }
        }
    } else if budget > 0 && s.len() > 0 {
        assert(crate::wire::varint_bound(budget) >= 2) by {
            lemma_varint_bound_ge_two(budget);
        }
        if budget > 1 {
            assert(crate::wire::varint_bound(budget) >= 256) by {
                lemma_varint_bound_ge_two((budget - 1) as nat);
            }
        }
    }
}

proof fn lemma_varint_bound_ge_two(b: nat)
    ensures
        crate::wire::varint_bound(b) >= 2,
    decreases b,
{
    if b > 1 {
        lemma_varint_bound_ge_two((b - 1) as nat);
    }
}

/// Reads a length prefix at `data[pos..]`: where the region it announces
/// starts and ends.
pub fn read_delimited(data: &[u8], pos: usize) -> (r: Option<(usize, usize)>)
    requires
        pos <= data@.len(),
    ensures
        match delimited_at(data@.subrange(pos as int, data@.len() as int)) {
            Some((a, b)) => r matches Some((x, y)) && x == pos + a && y == pos + b,
            None => r is None,
        },
        r matches Some((a, b)) ==> pos < a <= b <= data@.len(),
{
    match read_varint(data, pos) {
        Some((len, p)) => {
            proof {
                lemma_parse_varint_bounds(data@.subrange(pos as int, data@.len() as int));
            }
            if len <= (data.len() - p) as u64 {
                Some((p, p + len as usize))
            } else {
                None
            }
        },
        None => None,
    }
}

/// Reads one value of a plain scalar kind at `data[pos..]`, which came with
/// wire type `w`: the value and the position after it.
pub fn parse_scalar(t: ProtoType, w: WireType, data: &[u8], pos: usize) -> (r: Result<(Value, usize), DecodeError>)
    requires
        pos <= data@.len(),
        is_plain_scalar(t),
    ensures
        match scalar_at(t, w, data@.subrange(pos as int, data@.len() as int)) {
            Some((v, n)) => r matches Ok((x, end)) && value_model(x) == v && end == pos + n,
            None => r matches Err(e) && e.is_malformed(),
        },
        r matches Ok((_, end)) ==> pos < end <= data@.len(),
{
    let ghost s = data@.subrange(pos as int, data@.len() as int);
    if w != wire_type_exec(t) {
        return Err(DecodeError::ProstDecode);
    }
    match w {
        WireType::Varint => match read_varint(data, pos) {
            Some((x, end)) => {
                let v = value_of_varint(t, x);
                Ok((v, end))
            },
            None => Err(DecodeError::ProstDecode),
        },
        WireType::ThirtyTwoBit => {
            if data.len() - pos >= 4 {
                Ok((value_of_fixed(t, read_le32(data, pos) as u64), pos + 4))
            } else {
                Err(DecodeError::ProstDecode)
            }
        },
        WireType::SixtyFourBit => {
            if data.len() - pos >= 8 {
                Ok((value_of_fixed(t, read_le64(data, pos)), pos + 8))
            } else {
                Err(DecodeError::ProstDecode)
            }
        },
        _ => match read_delimited(data, pos) {
            Some((a, b)) => {
                let bytes = copy_range(data, a, b);
                assert(bytes@ == s.subrange(a - pos, b - pos));
                match t {
                    ProtoType::String => match string_from_utf8(bytes) {
                        Some(text) => {
                            assert(value_model(Value::Str(text)) == ValueModel::Str(text@));
                            Ok((Value::Str(text), b))
                        },
                        None => Err(DecodeError::ProstDecode),
                    },
                    _ => {
                        assert(value_model(Value::Bytes(bytes)) == ValueModel::Bytes(bytes@));
                        Ok((Value::Bytes(bytes), b))
                    },
                }
            },
            None => Err(DecodeError::ProstDecode),
        },
    }
}

/// Skips the payload of an unknown field of wire-type code `code` at
/// `data[pos..]`: the position after it.
pub fn skip_unknown(code: u8, data: &[u8], pos: usize) -> (r: Option<usize>)
    requires
        pos <= data@.len(),
    ensures
        match skip_at(code as nat, data@.subrange(pos as int, data@.len() as int)) {
            Some(n) => r matches Some(e) && e == pos + n,
            None => r is None,
        },
        r matches Some(e) ==> pos < e <= data@.len(),
{
    if code == 0 {
        match read_varint(data, pos) {
            Some((_, end)) => Some(end),
            None => None,
        }
    } else if code == 1 {
        if data.len() - pos >= 8 { Some(pos + 8) } else { None }
    } else if code == 5 {
        if data.len() - pos >= 4 { Some(pos + 4) } else { None }
    } else if code == 2 {
        match read_delimited(data, pos) {
            Some((_, b)) => Some(b),
            None => None,
        }
    } else {
        None
    }
}


/// Whether a kind is one of the scalar wrappers.
pub fn is_wrapper_exec(t: ProtoType) -> (r: bool)
    ensures
        r == is_wrapper(t),
{
    match t {
        ProtoType::BoolValue | ProtoType::BytesValue | ProtoType::DoubleValue
        | ProtoType::FloatValue | ProtoType::Int32Value | ProtoType::Int64Value
        | ProtoType::UInt32Value | ProtoType::UInt64Value | ProtoType::StringValue => true,
        _ => false,
    }
}

fn known_part_exec(t: ProtoType, tag: u32) -> (r: Option<ProtoType>)
    ensures
        r == known_part(t, tag),
        r matches Some(k) ==> is_plain_scalar(k),
{
    let time = match t {
        ProtoType::Timestamp | ProtoType::Duration => true,
        _ => false,
    };
    if is_wrapper_exec(t) && tag == 1 {
        Some(wrapped_kind_of(t))
    } else if time && tag == 1 {
        Some(ProtoType::Int64)
    } else if time && tag == 2 {
        Some(ProtoType::Int32)
    } else {
        None
    }
}

pub fn zero_value(t: ProtoType) -> (r: Value)
    ensures
        value_model(r) == zero_of(t),
{
    match wrapped_kind_of(t) {
        ProtoType::Bool => Value::Bool(false),
        ProtoType::Int64 | ProtoType::Sint64 | ProtoType::Sfixed64 => Value::Int64(0),
        ProtoType::Uint32 | ProtoType::Fixed32 => Value::Uint32(0),
        ProtoType::Uint64 | ProtoType::Fixed64 => Value::Uint64(0),
        ProtoType::Float => Value::Float(0),
        ProtoType::Double => Value::Double(0),
        ProtoType::Bytes => Value::Bytes(Vec::new()),
        ProtoType::String => {
            let r = Value::Str(String::new());
            assert(value_model(r) == ValueModel::Str(Seq::<char>::empty()));
            r
        },
        ProtoType::Timestamp => Value::Timestamp(Timestamp { seconds: 0, nanos: 0 }),
        ProtoType::Duration => Value::Duration(Duration { seconds: 0, nanos: 0 }),
        _ => Value::Int32(0),
    }
}

fn with_time_part_exec(cur: Value, which: u32, x: Value) -> (r: Value)
    ensures
        value_model(r) == with_time_part(value_model(cur), which, value_model(x)),
{
    let (s, n) = match cur {
        Value::Timestamp(v) => (v.seconds, v.nanos),
        Value::Duration(v) => (v.seconds, v.nanos),
        _ => (0, 0),
    };
    let s2 = if which == 1 {
        match x {
            Value::Int64(v) => v,
            _ => s,
        }
    } else {
        s
    };
    let n2 = if which == 2 {
        match x {
            Value::Int32(v) => v,
            _ => n,
        }
    } else {
        n
    };
    match cur {
        Value::Duration(_) => Value::Duration(Duration { seconds: s2, nanos: n2 }),
        _ => Value::Timestamp(Timestamp { seconds: s2, nanos: n2 }),
    }
}

#[verifier::rlimit(40)]
/// Reads the fields of a well-known message body at `data[start..end]`,
/// starting from `cur`; positions in the contract count from `base`.
fn parse_known_fields(t: ProtoType, data: &[u8], base: usize, start: usize, end: usize, cur: Value) -> (r:
    Result<Value, DecodeError>)
    requires
        base <= start <= data@.len(),
        start <= end,
        is_wrapper(t) || is_time(t),
    ensures
        match known_fields(
            t,
            data@.subrange(base as int, data@.len() as int),
            (start - base) as nat,
            (end - base) as nat,
            value_model(cur),
        ) {
            Some(v) => r matches Ok(x) && value_model(x) == v,
            None => r matches Err(e) && e.is_malformed(),
        },
{
    let ghost s = data@.subrange(base as int, data@.len() as int);
    let ghost goal = known_fields(t, s, (start - base) as nat, (end - base) as nat, value_model(cur));
    let mut pos = start;
    let mut acc = cur;
    let time = match t {
        ProtoType::Timestamp | ProtoType::Duration => true,
        _ => false,
    };
    loop
        invariant
            base <= pos <= data@.len(),
            base <= start <= end,
            is_wrapper(t) || is_time(t),
            s == data@.subrange(base as int, data@.len() as int),
            time == is_time(t),
            goal == known_fields(t, s, (pos - base) as nat, (end - base) as nat, value_model(acc)),
            goal == known_fields(t, s, (start - base) as nat, (end - base) as nat, value_model(cur)),
        decreases data@.len() - pos,
    {
        if pos >= end || pos >= data.len() {
            assert(goal == if pos == end { Some(value_model(acc)) } else { None::<ValueModel> });
            if pos == end {
                return Ok(acc);
            } else {
                return Err(DecodeError::InvalidData);
            }
        }
        let ghost rel = (pos - base) as nat;
        assert(s.subrange(rel as int, s.len() as int) =~= data@.subrange(pos as int, data@.len() as int));
        match take_key(data, pos) {
            None => {
                return Err(DecodeError::ProstDecode);
            },
            Some((tag, code, rest)) => {
                let p = data.len() - rest;
                assert(s.subrange((p - base) as int, s.len() as int) =~= data@.subrange(p as int, data@.len() as int));
                match known_part_exec(t, tag) {
                    Some(k) => {
                        match parse_scalar(k, wire_of_code_exec(code), data, p) {
                            Ok((x, q)) => {
                                if q > p {
                                    if time {
                                        acc = with_time_part_exec(acc, tag, x);
                                    } else {
                                        acc = x;
                                    }
                                    pos = q;
                                } else {
                                    return Err(DecodeError::InvalidData);
                                }
                            },
                            Err(e) => {
                                return Err(e);
                            },
                        }
                    },
                    None => {
                        match skip_unknown(code, data, p) {
                            Some(q) => {
                                if q > p {
                                    pos = q;
                                } else {
                                    return Err(DecodeError::InvalidData);
                                }
                            },
                            None => {
                                return Err(DecodeError::ProstDecode);
                            },
                        }
                    },
                }
            },
        }
    }
}

/// Reads one value of any kind but a nested message at `data[pos..]`, which
/// came with wire type `w`: the value and the position after it.
pub fn parse_value(t: ProtoType, w: WireType, data: &[u8], pos: usize) -> (r: Result<(Value, usize), DecodeError>)
    requires
        pos <= data@.len(),
        !(t is CustomMessage),
    ensures
        match value_at(t, w, data@.subrange(pos as int, data@.len() as int)) {
            Some((v, n)) => r matches Ok((x, end)) && value_model(x) == v && end == pos + n,
            None => r matches Err(e) && e.is_malformed(),
        },
        r matches Ok((_, end)) ==> pos < end <= data@.len(),
{
    let time = match t {
        ProtoType::Timestamp | ProtoType::Duration => true,
        _ => false,
    };
    if is_wrapper_exec(t) || time {
        if w != WireType::LengthDelimited {
            return Err(DecodeError::ProstDecode);
        }
        match read_delimited(data, pos) {
            Some((a, b)) => {
                match parse_known_fields(t, data, pos, a, b, zero_value(t)) {
                    Ok(v) => Ok((v, b)),
                    Err(e) => Err(e),
                }
            },
            None => Err(DecodeError::ProstDecode),
        }
    } else {
        parse_scalar(t, w, data, pos)
    }
}


/// Whether a value has the variant that a kind takes.
pub fn fits_exec(t: ProtoType, v: &Value) -> (r: bool)
    ensures
        r == fits(t, value_model(*v)),
{
    match t {
        ProtoType::Bool | ProtoType::BoolValue => matches!(v, Value::Bool(_)),
        ProtoType::Int32 | ProtoType::Sint32 | ProtoType::Sfixed32 | ProtoType::Enum(_)
        | ProtoType::Int32Value => matches!(v, Value::Int32(_)),
        ProtoType::Int64 | ProtoType::Sint64 | ProtoType::Sfixed64 | ProtoType::Int64Value => matches!(v, Value::Int64(_)),
        ProtoType::Uint32 | ProtoType::Fixed32 | ProtoType::UInt32Value => matches!(v, Value::Uint32(_)),
        ProtoType::Uint64 | ProtoType::Fixed64 | ProtoType::UInt64Value => matches!(v, Value::Uint64(_)),
        ProtoType::Float | ProtoType::FloatValue => matches!(v, Value::Float(_)),
        ProtoType::Double | ProtoType::DoubleValue => matches!(v, Value::Double(_)),
        ProtoType::Bytes | ProtoType::BytesValue => matches!(v, Value::Bytes(_)),
        ProtoType::String | ProtoType::StringValue => matches!(v, Value::Str(_)),
        ProtoType::CustomMessage(_) => matches!(v, Value::Message(_)),
        ProtoType::Timestamp => matches!(v, Value::Timestamp(_)),
        ProtoType::Duration => matches!(v, Value::Duration(_)),
    }
}



/// A plain scalar read from the wire has its kind's variant.
pub proof fn lemma_scalar_at_fits(t: ProtoType, w: WireType, s: Seq<u8>)
    requires
        is_plain_scalar(t),
    ensures
        scalar_at(t, w, s) matches Some((v, _)) ==> fits(t, v),
{
}

proof fn lemma_known_fields_fit(t: ProtoType, s: Seq<u8>, pos: nat, end: nat, cur: ValueModel)
    requires
        is_wrapper(t) || is_time(t),
        fits(t, cur),
    ensures
        known_fields(t, s, pos, end, cur) matches Some(v) ==> fits(t, v),
    decreases s.len() - pos,
{
    if pos >= end || pos >= s.len() {
    } else {
        match parse_key(s.subrange(pos as int, s.len() as int)) {
            None => {},
            Some((tag, code, kn)) => {
                let p = pos + kn;
                let rest = s.subrange(p as int, s.len() as int);
                match known_part(t, tag) {
                    Some(k) => {
                        lemma_scalar_at_fits(k, crate::wire::wire_of_code(code), rest);
                        match scalar_at(k, crate::wire::wire_of_code(code), rest) {
                            Some((x, n)) => {
                                let next = if is_time(t) { with_time_part(cur, tag, x) } else { x };
                                if n > 0 && p + n <= s.len() {
                                    lemma_known_fields_fit(t, s, p + n, end, next);
                                }
                            },
                            None => {},
                        }
                    },
                    None => match skip_at(code, rest) {
                        Some(n) => if n > 0 && p + n <= s.len() {
                            lemma_known_fields_fit(t, s, p + n, end, cur);
                        },
                        None => {},
                    },
                }
            },
        }
    }
}

/// A value read from the wire has its kind's variant.
pub proof fn lemma_value_at_fits(t: ProtoType, w: WireType, s: Seq<u8>)
    requires
        !(t is CustomMessage),
    ensures
        value_at(t, w, s) matches Some((v, _)) ==> fits(t, v),
{
    if is_wrapper(t) || is_time(t) {
        if let Some((a, b)) = delimited_at(s) {
            lemma_known_fields_fit(t, s, a, b, zero_of(t));
        }
    } else {
        lemma_scalar_at_fits(t, w, s);
    }
}

} // verus!
