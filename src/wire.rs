//! Wire-format primitives: varints, field keys and fixed-width integers.
use vstd::prelude::*;

verus! {

/// The four wire types in use, and the two retired group markers.
#[derive(Clone, Copy, PartialEq, Eq, Debug, Structural)]
pub enum WireType {
    Varint,
    SixtyFourBit,
    LengthDelimited,
    StartGroup,
    EndGroup,
    ThirtyTwoBit,
}

/// The code that a wire type occupies in the low three bits of a key.
pub open spec fn wire_code(w: WireType) -> nat {
    match w {
        WireType::Varint => 0,
        WireType::SixtyFourBit => 1,
        WireType::LengthDelimited => 2,
        WireType::StartGroup => 3,
        WireType::EndGroup => 4,
        WireType::ThirtyTwoBit => 5,
    }
}

pub open spec fn wire_of_code(c: nat) -> WireType {
    if c == 0 {
        WireType::Varint
    } else if c == 1 {
        WireType::SixtyFourBit
    } else if c == 2 {
        WireType::LengthDelimited
    } else if c == 3 {
        WireType::StartGroup
    } else if c == 4 {
        WireType::EndGroup
    } else {
        WireType::ThirtyTwoBit
    }
}

/// The largest field number.
pub const MAX_TAG: u32 = 536870911;


/// Relies on prost::encoding::encode_varint: appends the LEB128 form of the value.
#[verifier::external_body]
pub(crate) fn put_varint(value: u64, buf: &mut Vec<u8>)
    ensures
        final(buf)@ == old(buf)@ + varint_bytes(value as nat),
{
    prost::encoding::encode_varint(value, buf)
}

/// Relies on prost::encoding::decode_varint: reads one varint from `data[pos..]`
/// and hands back how many bytes are left after it.
#[verifier::external_body]
pub(crate) fn take_varint(data: &[u8], pos: usize) -> (r: Option<(u64, usize)>)
    requires
        pos <= data@.len(),
    ensures
        match r {
            Some((v, rest)) => rest <= data@.len() - pos && parse_varint(data@.subrange(pos as int, data@.len() as int)) == Some(
                (v as nat, (data@.len() - pos - rest) as nat),
            ),
            None => parse_varint(data@.subrange(pos as int, data@.len() as int)) is None,
        },
{
    let mut buf = &data[pos..];
    let v = prost::encoding::decode_varint(&mut buf).ok()?;
    Some((v, buf.len()))
}

/// Relies on prost::encoding::encode_key: appends the varint `tag << 3 | wire type`.
#[verifier::external_body]
pub(crate) fn put_key(tag: u32, w: WireType, buf: &mut Vec<u8>)
    requires
        1 <= tag <= MAX_TAG,
    ensures
        final(buf)@ == old(buf)@ + key_bytes(tag, w),
{
    let wire_type = match w {
        WireType::Varint => prost::encoding::WireType::Varint,
        WireType::SixtyFourBit => prost::encoding::WireType::SixtyFourBit,
        WireType::LengthDelimited => prost::encoding::WireType::LengthDelimited,
        WireType::StartGroup => prost::encoding::WireType::StartGroup,
        WireType::EndGroup => prost::encoding::WireType::EndGroup,
        WireType::ThirtyTwoBit => prost::encoding::WireType::ThirtyTwoBit,
    };
    prost::encoding::encode_key(tag, wire_type, buf)
}

/// Relies on prost::encoding::decode_key: reads one key from `data[pos..]`,
/// giving its field number, its wire-type code and how many bytes are left.
#[verifier::external_body]
pub(crate) fn take_key(data: &[u8], pos: usize) -> (r: Option<(u32, u8, usize)>)
    requires
        pos <= data@.len(),
    ensures
        match r {
            Some((tag, code, rest)) => rest <= data@.len() - pos && parse_key(data@.subrange(pos as int, data@.len() as int))
                == Some((tag, code as nat, (data@.len() - pos - rest) as nat)),
            None => parse_key(data@.subrange(pos as int, data@.len() as int)) is None,
        },
{
    let mut buf = &data[pos..];
    let (tag, wire_type) = prost::encoding::decode_key(&mut buf).ok()?;
    Some((tag, wire_type as u8, buf.len()))
}

/// Relies on prost::encoding::encoded_len_varint: the length of a varint.
#[verifier::external_body]
pub(crate) fn varint_len(value: u64) -> (r: usize)
    ensures
        r == varint_bytes(value as nat).len(),
{
    prost::encoding::encoded_len_varint(value)
}

/// Relies on prost::encoding::key_len: the length of the key of a field.
#[verifier::external_body]
pub(crate) fn key_len(tag: u32) -> (r: usize)
    requires
        1 <= tag <= MAX_TAG,
    ensures
        r == varint_bytes((tag * 8) as nat).len(),
{
    prost::encoding::key_len(tag)
}

/// The LEB128 form of `v`: seven bits per byte, low group first, the high bit
/// set on every byte but the last.
pub open spec fn varint_bytes(v: nat) -> Seq<u8>
    decreases v,
{
    if v < 128 {
        seq![v as u8]
    } else {
        seq![(v % 128 + 128) as u8] + varint_bytes(v / 128)
    }
}

/// Reads a LEB128 varint of at most `budget` bytes from the front of `s`:
/// its value and its length. The last byte allowed may hold one bit only, so
/// that ten bytes hold no more than 64 bits. Longer forms than needed are read.
pub open spec fn varint_prefix(s: Seq<u8>, budget: nat) -> Option<(nat, nat)>
    decreases budget,
{
    if budget == 0 || s.len() == 0 {
        None
    } else if s[0] < 128 {
        if budget == 1 && s[0] >= 2 {
            None
        } else {
            Some((s[0] as nat, 1))
        }
    } else {
        match varint_prefix(s.drop_first(), (budget - 1) as nat) {
            Some((v, n)) => Some((((s[0] - 128) + 128 * v) as nat, n + 1)),
            None => None,
        }
    }
}

/// A varint at the front of `s`, as a 64-bit value.
pub open spec fn parse_varint(s: Seq<u8>) -> Option<(nat, nat)> {
    varint_prefix(s, 10)
}

/// A field key at the front of `s`: field number, wire-type code and length.
pub open spec fn parse_key(s: Seq<u8>) -> Option<(u32, nat, nat)> {
    match parse_varint(s) {
        Some((k, n)) => if k <= u32::MAX && k % 8 <= 5 && k / 8 >= 1 {
            Some(((k / 8) as u32, k % 8, n))
        } else {
            None
        },
        None => None,
    }
}

/// The bytes of the key of field `tag` with wire type `w`.
pub open spec fn key_bytes(tag: u32, w: WireType) -> Seq<u8> {
    varint_bytes((tag * 8 + wire_code(w)) as nat)
}

pub open spec fn varint_bound(budget: nat) -> nat
    decreases budget,
{
    if budget <= 1 {
        2
    } else {
        128 * varint_bound((budget - 1) as nat)
    }
}

proof fn lemma_varint_prefix_round_trip(v: nat, budget: nat, rest: Seq<u8>)
    requires
        budget >= 1,
        v < varint_bound(budget) || (budget > 1 && v < 128),
    ensures
        varint_prefix(varint_bytes(v) + rest, budget) == Some((v, varint_bytes(v).len())),
    decreases v,
{
    let s = varint_bytes(v) + rest;
    if v < 128 {
        assert(s[0] == v as u8);
        if budget == 1 {
            assert(varint_bound(1) == 2);
        }
    } else {
        assert(budget > 1) by {
            if budget <= 1 {
                assert(varint_bound(budget) == 2);
            }
        }
        let b1 = (budget - 1) as nat;
        assert(v / 128 < varint_bound(b1)) by {
            assert(varint_bound(budget) == 128 * varint_bound(b1));
            if v >= varint_bound(budget) {
                assert(v < 128);
            }
            assert(v < 128 * varint_bound(b1));
            assert(v / 128 < varint_bound(b1)) by (nonlinear_arith)
                requires v < 128 * varint_bound(b1);
        }
        lemma_varint_prefix_round_trip(v / 128, b1, rest);
        assert(s[0] == (v % 128 + 128) as u8);
        assert(s.drop_first() =~= varint_bytes(v / 128) + rest);
        assert((v % 128) + 128 * (v / 128) == v) by (nonlinear_arith);
    }
}

/// A varint reads back as the value it was written from, whatever follows it.
pub proof fn lemma_varint_round_trip(v: u64, rest: Seq<u8>)
    ensures
        parse_varint(varint_bytes(v as nat) + rest) == Some((v as nat, varint_bytes(v as nat).len())),
{
    lemma_varint_bound_ten();
    lemma_varint_prefix_round_trip(v as nat, 10, rest);
}

/// Ten varint bytes hold exactly 64 bits.
pub proof fn lemma_varint_bound_ten()
    ensures
        varint_bound(10) == 0x1_0000_0000_0000_0000,
{
    reveal_with_fuel(varint_bound, 10);
}

/// Every varint is between one and ten bytes long.
pub proof fn lemma_varint_len(v: nat)
    requires
        v <= u64::MAX,
    ensures
        1 <= varint_bytes(v).len() <= 10,
        v < 128 <==> varint_bytes(v).len() == 1,
{
    lemma_varint_bound_ten();
    lemma_varint_len_bound(v, 10);
}

proof fn lemma_varint_len_bound(v: nat, budget: nat)
    requires
        budget >= 1,
        v < varint_bound(budget) || (budget > 1 && v < 128),
    ensures
        1 <= varint_bytes(v).len() <= budget,
        v < 128 <==> varint_bytes(v).len() == 1,
    decreases v,
{
    if v >= 128 {
        assert(budget > 1) by {
            if budget <= 1 {
                assert(varint_bound(budget) == 2);
            }
        }
        let b1 = (budget - 1) as nat;
        assert(v / 128 < varint_bound(b1)) by {
            assert(varint_bound(budget) == 128 * varint_bound(b1));
            if v >= varint_bound(budget) {
                assert(v < 128);
            }
            assert(v / 128 < varint_bound(b1)) by (nonlinear_arith)
                requires v < 128 * varint_bound(b1);
        }
        lemma_varint_len_bound(v / 128, b1);
    }
}

/// A key reads back as the field number and wire type it was written from.
pub proof fn lemma_key_round_trip(tag: u32, w: WireType, rest: Seq<u8>)
    requires
        1 <= tag <= MAX_TAG,
    ensures
        parse_key(key_bytes(tag, w) + rest) == Some((tag, wire_code(w), key_bytes(tag, w).len())),
{
    let k = (tag * 8 + wire_code(w)) as nat;
    lemma_varint_round_trip(k as u64, rest);
    assert(k / 8 == tag as nat && k % 8 == wire_code(w)) by (nonlinear_arith)
        requires k == tag * 8 + wire_code(w), wire_code(w) <= 5;
}


} // verus!
