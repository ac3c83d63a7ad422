//! The decode engine: wire bytes and a descriptor to field values, merged
//! into a message object.
use vstd::prelude::*;
use crate::descriptors::{
    is_packable, BetterprotoMessageClass, FieldAttribute, FieldDescriptor, ProtoType, Registry,
};
use crate::error::DecodeError;
use crate::scalar::{
    append_bytes, copy_range, delimited, delimited_at, parse_scalar, parse_value, read_delimited, read_varint,
    scalar_at, value_at, wire_of_code_exec, wire_type_exec, wire_type_of, zero_of, zero_value,
};
use crate::value::{
    entries_model, field_model, message_model, slots_model, value_model, values_model, BetterprotoMessage,
    FieldModel, FieldValue, MessageModel, Value, ValueModel,
};
use crate::wire::{
    key_bytes, parse_key, parse_varint, put_key, put_varint, take_key, varint_bytes, wire_of_code, WireType,
    MAX_TAG,
};

verus! {

// ---------------------------------------------------------------------------
// What bytes decode to.

/// A message being read: one slot per field of its descriptor, and the bytes
/// of the fields that the descriptor does not know.
pub struct DecodeState {
    pub slots: Seq<Option<FieldModel>>,
    pub unknown: Seq<u8>,
}

/// Nothing read yet, for a descriptor of `n` fields.
pub open spec fn initial_state(n: nat) -> DecodeState {
    DecodeState { slots: Seq::new(n, |i: int| None), unknown: Seq::empty() }
}

/// The first position from `i` on of the field numbered `tag`.
pub open spec fn find_from(fields: Seq<(u32, FieldDescriptor)>, tag: u32, i: nat) -> Option<nat>
    decreases fields.len() - i,
{
    if i >= fields.len() {
        None
    } else if fields[i as int].0 == tag {
        Some(i)
    } else {
        find_from(fields, tag, i + 1)
    }
}

/// The oneof group of a field, if it is in one.
pub open spec fn group_of(fd: FieldDescriptor) -> Option<u32> {
    match fd.attribute {
        FieldAttribute::Group(g) => Some(g),
        _ => None,
    }
}

/// After field `k` was read: the other members of its group are unset.
pub open spec fn clear_siblings(fields: Seq<(u32, FieldDescriptor)>, slots: Seq<Option<FieldModel>>, k: int) -> Seq<
    Option<FieldModel>,
> {
    Seq::new(
        slots.len(),
        |i: int|
            if i != k && group_of(fields[k].1) is Some && group_of(fields[i].1) == group_of(fields[k].1) {
                None
            } else {
                slots[i]
            },
    )
}

/// A list slot with `items` added at the end.
pub open spec fn with_items(slot: Option<FieldModel>, items: Seq<ValueModel>) -> Option<FieldModel> {
    match slot {
        Some(FieldModel::Repeated(xs)) => Some(FieldModel::Repeated(xs + items)),
        _ => Some(FieldModel::Repeated(items)),
    }
}

/// A map slot with one more entry at the end.
pub open spec fn with_entry(slot: Option<FieldModel>, e: (ValueModel, ValueModel)) -> Option<FieldModel> {
    match slot {
        Some(FieldModel::Entries(es)) => Some(FieldModel::Entries(es.push(e))),
        _ => Some(FieldModel::Entries(seq![e])),
    }
}

/// An unknown field of number `tag` and wire-type code `code` whose payload
/// starts at `p`: the bytes kept for it (its key and payload written afresh,
/// which keeps them as they were but for over-long varints) and where it ends.
pub open spec fn unknown_at(tag: u32, code: nat, s: Seq<u8>, p: nat) -> Option<(Seq<u8>, nat)> {
    let rest = s.subrange(p as int, s.len() as int);
    let w = wire_of_code(code);
    if code == 0 {
        match parse_varint(rest) {
            Some((v, n)) => Some((key_bytes(tag, w) + varint_bytes(v), p + n)),
            None => None,
        }
    } else if code == 1 {
        if p + 8 <= s.len() {
            Some((key_bytes(tag, w) + s.subrange(p as int, p + 8 as int), p + 8))
        } else {
            None
        }
    } else if code == 5 {
        if p + 4 <= s.len() {
            Some((key_bytes(tag, w) + s.subrange(p as int, p + 4 as int), p + 4))
        } else {
            None
        }
    } else if code == 2 {
        match delimited_at(rest) {
            Some((a, b)) => Some((key_bytes(tag, w) + delimited(s.subrange((p + a) as int, (p + b) as int)), p + b)),
            None => None,
        }
    } else {
        None
    }
}

/// The entries of a packed list from `pos` up to `end`, after `acc`.
/// Reading must stop exactly at `end`.
pub open spec fn packed_items(t: ProtoType, s: Seq<u8>, pos: nat, end: nat, acc: Seq<ValueModel>) -> Option<Seq<ValueModel>>
    decreases s.len() - pos,
{
    if pos >= end || pos >= s.len() {
        if pos == end {
            Some(acc)
        } else {
            None
        }
    } else {
        match scalar_at(t, wire_type_of(t), s.subrange(pos as int, s.len() as int)) {
            Some((v, n)) => if n > 0 && pos + n <= s.len() {
                packed_items(t, s, pos + n, end, acc.push(v))
            } else {
                None
            },
            None => None,
        }
    }
}

/// The value a field of kind `t` takes when a map entry leaves it out: the
/// zero value, or a fresh message.
pub open spec fn default_model(reg: Registry, t: ProtoType) -> ValueModel {
    match t {
        ProtoType::CustomMessage(c) => ValueModel::Message(
            MessageModel {
                class: c,
                fields: initial_state(reg.messages@[c.0 as int].fields@.len() as nat).slots,
                unknown_fields: Seq::empty(),
                serialized_on_wire: false,
            },
        ),
        _ => zero_of(t),
    }
}

/// The message that a finished read of class `c` gives.
pub open spec fn finish(c: BetterprotoMessageClass, st: DecodeState) -> MessageModel {
    MessageModel { class: c, fields: st.slots, unknown_fields: st.unknown, serialized_on_wire: true }
}

/// The fields of a message of descriptor `idx` from `pos` up to `end`, read
/// into `st`. Reading must stop exactly at `end`.
pub open spec fn message_fields(reg: Registry, idx: nat, s: Seq<u8>, pos: nat, end: nat, st: DecodeState) -> Option<
    DecodeState,
>
    decreases s.len() - pos, 3nat,
{
    if pos >= end || pos >= s.len() {
        if pos == end {
            Some(st)
        } else {
            None
        }
    } else {
        match next_field(reg, idx, s, pos, st) {
            Some((st2, e)) => if pos < e <= s.len() {
                message_fields(reg, idx, s, e, end, st2)
            } else {
                None
            },
            None => None,
        }
    }
}

/// One field at `pos`, read into `st`: the new state and where the field ends.
/// A known field goes to its slot as its attribute says, and unsets the other
/// members of its oneof group; an unknown one is kept as bytes.
pub open spec fn next_field(reg: Registry, idx: nat, s: Seq<u8>, pos: nat, st: DecodeState) -> Option<
    (DecodeState, nat),
>
    decreases s.len() - pos, 2nat,
{
    match parse_key(s.subrange(pos as int, s.len() as int)) {
        None => None,
        Some((tag, code, kn)) => {
            let p = pos + kn;
            let w = wire_of_code(code);
            let fields = reg.messages@[idx as int].fields@;
            if p > s.len() || kn == 0 {
                None
            } else {
                match find_from(fields, tag, 0) {
                    None => match unknown_at(tag, code, s, p) {
                        Some((bytes, e)) => Some((DecodeState { slots: st.slots, unknown: st.unknown + bytes }, e)),
                        None => None,
                    },
                    Some(k) => known_field(reg, idx, k, w, s, p, st),
                }
            }
        },
    }
}

/// Field `k` of descriptor `idx`, whose payload starts at `p` and came with
/// wire type `w`, read into `st`.
pub open spec fn known_field(reg: Registry, idx: nat, k: nat, w: WireType, s: Seq<u8>, p: nat, st: DecodeState) -> Option<
    (DecodeState, nat),
>
    decreases s.len() - p, 2nat,
{
    let fields = reg.messages@[idx as int].fields@;
    let fd = fields[k as int].1;
    let t = fd.value_type;
    let upd: Option<(Option<FieldModel>, nat)> = match fd.attribute {
        FieldAttribute::Repeated => if w == WireType::LengthDelimited && is_packable(t) {
            match delimited_at(s.subrange(p as int, s.len() as int)) {
                Some((a, b)) => match packed_items(t, s, p + a, p + b, Seq::empty()) {
                    Some(items) => Some((with_items(st.slots[k as int], items), p + b)),
                    None => None,
                },
                None => None,
            }
        } else {
            match one_value(reg, t, w, s, p) {
                Some((v, e)) => Some((with_items(st.slots[k as int], seq![v]), e)),
                None => None,
            }
        },
        FieldAttribute::MapWithKey(kt) => match map_entry(reg, kt, t, w, s, p) {
            Some((e, q)) => Some((with_entry(st.slots[k as int], e), q)),
            None => None,
        },
        _ => match one_value(reg, t, w, s, p) {
            Some((v, e)) => Some((Some(FieldModel::Single(v)), e)),
            None => None,
        },
    };
    match upd {
        Some((slot, e)) => Some(
            (
                DecodeState {
                    slots: clear_siblings(fields, st.slots.update(k as int, slot), k as int),
                    unknown: st.unknown,
                },
                e,
            ),
        ),
        None => None,
    }
}

/// One value of kind `t` whose payload starts at `p` and came with wire type
/// `w`: the value and where it ends. A nested message is read field by field
/// within its length prefix.
pub open spec fn one_value(reg: Registry, t: ProtoType, w: WireType, s: Seq<u8>, p: nat) -> Option<(ValueModel, nat)>
    decreases s.len() - p, 1nat,
{
    if p > s.len() {
        None
    } else {
        match t {
            ProtoType::CustomMessage(c) => if w != WireType::LengthDelimited {
                None
            } else {
                match delimited_at(s.subrange(p as int, s.len() as int)) {
                    Some((a, b)) => if a > 0 {
                        match message_fields(
                            reg,
                            c.0 as nat,
                            s,
                            p + a,
                            p + b,
                            initial_state(reg.messages@[c.0 as int].fields@.len() as nat),
                        ) {
                            Some(st) => Some((ValueModel::Message(finish(c, st)), p + b)),
                            None => None,
                        }
                    } else {
                        None
                    },
                    None => None,
                }
            },
            _ => match value_at(t, w, s.subrange(p as int, s.len() as int)) {
                Some((v, n)) => Some((v, p + n)),
                None => None,
            },
        }
    }
}

/// The fields of a map entry from `pos` up to `end`: field 1 is the key and
/// field 2 the value, a later one overwriting an earlier one; any other field
/// number is malformed. Reading must stop exactly at `end`.
pub open spec fn entry_fields(
    reg: Registry,
    kt: ProtoType,
    vt: ProtoType,
    s: Seq<u8>,
    pos: nat,
    end: nat,
    kv: (Option<ValueModel>, Option<ValueModel>),
) -> Option<(Option<ValueModel>, Option<ValueModel>)>
    decreases s.len() - pos, 3nat,
{
    if pos >= end || pos >= s.len() {
        if pos == end {
            Some(kv)
        } else {
            None
        }
    } else {
        match parse_key(s.subrange(pos as int, s.len() as int)) {
            None => None,
            Some((tag, code, kn)) => {
                let p = pos + kn;
                let w = wire_of_code(code);
                if kn == 0 || p > s.len() {
                    None
                } else if tag == 1 {
                    match one_value(reg, kt, w, s, p) {
                        Some((k, e)) => if e > pos && e <= s.len() {
                            entry_fields(reg, kt, vt, s, e, end, (Some(k), kv.1))
                        } else {
                            None
                        },
                        None => None,
                    }
                } else if tag == 2 {
                    match one_value(reg, vt, w, s, p) {
                        Some((v, e)) => if e > pos && e <= s.len() {
                            entry_fields(reg, kt, vt, s, e, end, (kv.0, Some(v)))
                        } else {
                            None
                        },
                        None => None,
                    }
                } else {
                    None
                }
            },
        }
    }
}

/// A map entry whose payload starts at `p`: key and value, each its kind's
/// default when left out, and where the entry ends.
pub open spec fn map_entry(reg: Registry, kt: ProtoType, vt: ProtoType, w: WireType, s: Seq<u8>, p: nat) -> Option<
    ((ValueModel, ValueModel), nat),
>
    decreases s.len() - p, 1nat,
{
    if w != WireType::LengthDelimited || p > s.len() {
        None
    } else {
        match delimited_at(s.subrange(p as int, s.len() as int)) {
            Some((a, b)) => if a > 0 {
                match entry_fields(reg, kt, vt, s, p + a, p + b, (None, None)) {
                    Some((k, v)) => Some(
                        (
                            (
                                match k {
                                    Some(x) => x,
                                    None => default_model(reg, kt),
                                },
                                match v {
                                    Some(x) => x,
                                    None => default_model(reg, vt),
                                },
                            ),
                            p + b,
                        ),
                    ),
                    None => None,
                }
            } else {
                None
            },
            None => None,
        }
    }
}

/// A whole buffer read as a message of descriptor `idx`.
pub open spec fn decode_message(reg: Registry, idx: nat, s: Seq<u8>) -> Option<DecodeState> {
    message_fields(reg, idx, s, 0, s.len(), initial_state(reg.messages@[idx as int].fields@.len() as nat))
}

/// A message after a read was merged into it: the fields read replace those
/// it had, the unknown bytes read follow its own, and it is marked as read
/// from the wire.
pub open spec fn merged(m: MessageModel, st: DecodeState) -> MessageModel {
    MessageModel {
        class: m.class,
        fields: Seq::new(
            m.fields.len(),
            |i: int| if st.slots[i] is Some { st.slots[i] } else { m.fields[i] },
        ),
        unknown_fields: m.unknown_fields + st.unknown,
        serialized_on_wire: true,
    }
}


// ---------------------------------------------------------------------------
// Reading.

/// The mathematical form of an optional field value.
pub open spec fn opt_field_model(o: Option<FieldValue>) -> Option<FieldModel> {
    match o {
        Some(f) => Some(field_model(f)),
        None => None,
    }
}

/// Replacing one slot replaces its model.
pub proof fn lemma_slots_update(fs: Seq<Option<FieldValue>>, k: int, x: Option<FieldValue>)
    requires
        0 <= k < fs.len(),
    ensures
        slots_model(fs.update(k, x)) == slots_model(fs).update(k, opt_field_model(x)),
{
    assert(slots_model(fs.update(k, x)) =~= slots_model(fs).update(k, opt_field_model(x)));
}

/// A key read from `s` takes between one byte and all of `s`, and its field
/// number is a valid one.
pub proof fn lemma_parse_key_bounds(s: Seq<u8>)
    ensures
        parse_key(s) matches Some((tag, code, n)) ==> 1 <= n <= s.len() && 1 <= tag <= MAX_TAG && code <= 5,
{
    crate::scalar::lemma_parse_varint_bounds(s);
    if let Some((k, n)) = parse_varint(s) {
        if k <= u32::MAX && k % 8 <= 5 && k / 8 >= 1 {
            assert(k / 8 <= 536870911);
        }
    }
}

/// The index of the field numbered `tag`.
pub fn find_field(fields: &Vec<(u32, FieldDescriptor)>, tag: u32) -> (r: Option<usize>)
    ensures
        match find_from(fields@, tag, 0) {
            Some(k) => r matches Some(x) && x == k && k < fields@.len(),
            None => r is None,
        },
{
    let mut i: usize = 0;
    while i < fields.len()
        invariant
            i <= fields@.len(),
            find_from(fields@, tag, 0) == find_from(fields@, tag, i as nat),
        decreases fields@.len() - i,
    {
        if fields[i].0 == tag {
            return Some(i);
        }
        i = i + 1;
    }
    None
}

impl ProtoType {
    /// The value a field of this kind takes when a map entry leaves it out.
    pub fn default_value(&self, reg: &Registry) -> (r: Value)
        requires
            crate::descriptors::class_wf(*self, reg.messages@.len() as nat),
        ensures
            value_model(r) == default_model(*reg, *self),
    {
        match self {
            ProtoType::CustomMessage(c) => {
                let n = reg.messages[c.0].fields.len();
                let m = BetterprotoMessage {
                    class: *c,
                    fields: empty_slots(n),
                    unknown_fields: Vec::new(),
                    serialized_on_wire: false,
                };
                assert(message_model(m).fields =~= initial_state(n as nat).slots);
                assert(message_model(m).unknown_fields =~= Seq::<u8>::empty());
                Value::Message(m)
            },
            _ => zero_value(*self),
        }
    }
}

/// `n` unset slots.
pub fn empty_slots(n: usize) -> (r: Vec<Option<FieldValue>>)
    ensures
        r@.len() == n,
        slots_model(r@) == initial_state(n as nat).slots,
{
    let mut r: Vec<Option<FieldValue>> = Vec::new();
    let mut i: usize = 0;
    while i < n
        invariant
            i <= n,
            r@.len() == i,
            forall|j: int| 0 <= j < i ==> r@[j] is None,
        decreases n - i,
    {
        r.push(None);
        i = i + 1;
    }
    assert(slots_model(r@) =~= initial_state(n as nat).slots);
    r
}

/// Reads the entries of a packed list at `data[pos..end]`.
pub fn parse_packed(t: ProtoType, data: &[u8], pos: usize, end: usize) -> (r: Result<Vec<Value>, DecodeError>)
    requires
        pos <= data@.len(),
        is_packable(t),
    ensures
        match packed_items(t, data@, pos as nat, end as nat, Seq::empty()) {
            Some(items) => r matches Ok(vs) && values_model(vs@) == items,
            None => r matches Err(e) && e.is_malformed(),
        },
{
    let ghost goal = packed_items(t, data@, pos as nat, end as nat, Seq::empty());
    let mut out: Vec<Value> = Vec::new();
    let mut cur = pos;
    assert(values_model(out@) =~= Seq::<ValueModel>::empty());
    loop
        invariant
            pos <= cur <= data@.len(),
            is_packable(t),
            goal == packed_items(t, data@, pos as nat, end as nat, Seq::empty()),
            goal == packed_items(t, data@, cur as nat, end as nat, values_model(out@)),
        decreases data@.len() - cur,
    {
        if cur >= end || cur >= data.len() {
            if cur == end {
                return Ok(out);
            } else {
                return Err(DecodeError::InvalidData);
            }
        }
        match parse_scalar(t, wire_type_exec(t), data, cur) {
            Ok((v, next)) => {
                let ghost before = out@;
                out.push(v);
                assert(values_model(out@) =~= values_model(before).push(value_model(v)));
                cur = next;
            },
            Err(e) => {
                return Err(e);
            },
        }
    }
}

/// The state of a message being read.
pub struct CustomMessageBuilder {
    pub fields: Vec<Option<FieldValue>>,
    pub unknown_fields: Vec<u8>,
}

impl CustomMessageBuilder {
    pub open spec fn model(&self) -> DecodeState {
        DecodeState { slots: slots_model(self.fields@), unknown: self.unknown_fields@ }
    }

    /// Nothing read yet, for a descriptor of `n` fields.
    pub fn new(n: usize) -> (r: CustomMessageBuilder)
        ensures
            r.model() == initial_state(n as nat),
            r.fields@.len() == n,
    {
        let r = CustomMessageBuilder { fields: empty_slots(n), unknown_fields: Vec::new() };
        assert(r.model().unknown =~= Seq::<u8>::empty());
        r
    }

    /// Keeps an unknown field of number `tag` and wire-type code `code`,
    /// whose payload starts at `p`: the position after it.
    pub fn parse_next_unknown(&mut self, tag: u32, code: u8, data: &[u8], p: usize) -> (r: Result<usize, DecodeError>)
        requires
            1 <= tag <= MAX_TAG,
            p <= data@.len(),
        ensures
            match unknown_at(tag, code as nat, data@, p as nat) {
                Some((bytes, e)) => r matches Ok(x) && x == e && final(self).unknown_fields@
                    == old(self).unknown_fields@ + bytes,
                None => r matches Err(e) && e.is_malformed(),
            },
            final(self).fields == old(self).fields,
            r matches Ok(e) ==> p < e <= data@.len(),
    {
        let w = wire_of_code_exec(code);
        let ghost before = self.unknown_fields@;
        if code == 0 {
            match read_varint(data, p) {
                Some((v, e)) => {
                    put_key(tag, w, &mut self.unknown_fields);
                    put_varint(v, &mut self.unknown_fields);
                    assert(self.unknown_fields@ =~= before + (key_bytes(tag, w) + varint_bytes(v as nat)));
                    Ok(e)
                },
                None => Err(DecodeError::ProstDecode),
            }
        } else if code == 1 || code == 5 {
            let n: usize = if code == 1 { 8 } else { 4 };
            if data.len() - p < n {
                return Err(DecodeError::InvalidData);
            }
            put_key(tag, w, &mut self.unknown_fields);
            let bytes = copy_range(data, p, p + n);
            append_bytes(&mut self.unknown_fields, bytes.as_slice());
            assert(self.unknown_fields@ =~= before + (key_bytes(tag, w) + data@.subrange(p as int, p + n as int)));
            Ok(p + n)
        } else if code == 2 {
            match read_delimited(data, p) {
                Some((a, b)) => {
                    put_key(tag, w, &mut self.unknown_fields);
                    let bytes = copy_range(data, a, b);
                    crate::scalar::put_delimited(bytes.as_slice(), &mut self.unknown_fields);
                    assert(self.unknown_fields@ =~= before + (key_bytes(tag, w) + delimited(data@.subrange(a as int, b as int))));
                    Ok(b)
                },
                None => Err(DecodeError::ProstDecode),
            }
        } else {
            Err(DecodeError::InvalidData)
        }
    }

    /// Unsets the other members of the oneof group of field `k`.
    pub fn clear_siblings(&mut self, fields: &Vec<(u32, FieldDescriptor)>, k: usize)
        requires
            old(self).fields@.len() == fields@.len(),
            k < fields@.len(),
        ensures
            final(self).fields@.len() == old(self).fields@.len(),
            final(self).unknown_fields == old(self).unknown_fields,
            final(self).model().slots == clear_siblings(fields@, old(self).model().slots, k as int),
    {
        let ghost orig = self.model().slots;
        let group = match &fields[k].1.attribute {
            FieldAttribute::Group(g) => Some(*g),
            _ => None,
        };
        let mut i: usize = 0;
        while i < self.fields.len()
            invariant
                self.fields@.len() == fields@.len(),
                k < fields@.len(),
                i <= fields@.len(),
                self.unknown_fields == old(self).unknown_fields,
                group == group_of(fields@[k as int].1),
                orig == old(self).model().slots,
                orig.len() == fields@.len(),
                forall|j: int|
                    0 <= j < fields@.len() ==> #[trigger] slots_model(self.fields@)[j] == if j < i {
                        clear_siblings(fields@, orig, k as int)[j]
                    } else {
                        orig[j]
                    },
            decreases fields@.len() - i,
        {
            let same = match (&fields[i].1.attribute, group) {
                (FieldAttribute::Group(h), Some(g)) => *h == g,
                _ => false,
            };
            if i != k && same {
                proof {
                    lemma_slots_update(self.fields@, i as int, None);
                }
                self.fields.set(i, None);
            }
            i = i + 1;
        }
        assert(self.model().slots =~= clear_siblings(fields@, orig, k as int));
    }

    /// The message this read gives, of class `c`.
    pub fn finish(self, c: BetterprotoMessageClass) -> (r: BetterprotoMessage)
        ensures
            message_model(r) == finish(c, self.model()),
    {
        BetterprotoMessage {
            class: c,
            fields: self.fields,
            unknown_fields: self.unknown_fields,
            serialized_on_wire: true,
        }
    }
}


impl CustomMessageBuilder {
    /// Adds `items` at the end of the list in slot `k`.
    fn append_repeated(&mut self, k: usize, items: Vec<Value>)
        requires
            k < old(self).fields@.len(),
        ensures
            final(self).fields@.len() == old(self).fields@.len(),
            final(self).unknown_fields == old(self).unknown_fields,
            final(self).model().slots == old(self).model().slots.update(
                k as int,
                with_items(old(self).model().slots[k as int], values_model(items@)),
            ),
    {
        let mut slot: Option<FieldValue> = None;
        std::mem::swap(&mut self.fields[k], &mut slot);
        let ghost old_slot = slot;
        assert(opt_field_model(old_slot) == old(self).model().slots[k as int]);
        let mut items = items;
        let new_slot = match slot {
            Some(FieldValue::Repeated(mut xs)) => {
                let ghost xs0 = xs@;
                let ghost items0 = items@;
                xs.append(&mut items);
                assert(values_model(xs@) =~= values_model(xs0) + values_model(items0));
                Some(FieldValue::Repeated(xs))
            },
            _ => Some(FieldValue::Repeated(items)),
        };
        proof {
            lemma_slots_update(self.fields@, k as int, new_slot);
        }
        self.fields.set(k, new_slot);
    }
}


impl CustomMessageBuilder {
    /// Adds one entry at the end of the map in slot `k`.
    fn push_map_entry(&mut self, k: usize, entry: (Value, Value))
        requires
            k < old(self).fields@.len(),
        ensures
            final(self).fields@.len() == old(self).fields@.len(),
            final(self).unknown_fields == old(self).unknown_fields,
            final(self).model().slots == old(self).model().slots.update(
                k as int,
                with_entry(old(self).model().slots[k as int], (value_model(entry.0), value_model(entry.1))),
            ),
    {
        let mut slot: Option<FieldValue> = None;
        std::mem::swap(&mut self.fields[k], &mut slot);
        assert(opt_field_model(slot) == old(self).model().slots[k as int]);
        let ghost e = (value_model(entry.0), value_model(entry.1));
        let new_slot = match slot {
            Some(FieldValue::Entries(mut es)) => {
                let ghost es0 = es@;
                es.push(entry);
                assert(entries_model(es@) =~= entries_model(es0).push(e));
                Some(FieldValue::Entries(es))
            },
            _ => {
                let es = vec![entry];
                assert(entries_model(es@) =~= seq![e]);
                Some(FieldValue::Entries(es))
            },
        };
        proof {
            lemma_slots_update(self.fields@, k as int, new_slot);
        }
        self.fields.set(k, new_slot);
    }

    /// Puts a single value in slot `k`, replacing what it held.
    fn set_single(&mut self, k: usize, v: Value)
        requires
            k < old(self).fields@.len(),
        ensures
            final(self).fields@.len() == old(self).fields@.len(),
            final(self).unknown_fields == old(self).unknown_fields,
            final(self).model().slots == old(self).model().slots.update(
                k as int,
                Some(FieldModel::Single(value_model(v))),
            ),
    {
        proof {
            lemma_slots_update(self.fields@, k as int, Some(FieldValue::Single(v)));
        }
        self.fields.set(k, Some(FieldValue::Single(v)));
    }

    /// Reads the fields of a message of descriptor `idx` at `data[pos..end]`
    /// into this state.
    pub fn parse_fields(&mut self, reg: &Registry, idx: usize, data: &[u8], pos: usize, end: usize) -> (r: Result<
        (),
        DecodeError,
    >)
        requires
            reg.wf(),
            idx < reg.messages@.len(),
            old(self).fields@.len() == reg.messages@[idx as int].fields@.len(),
            pos <= data@.len(),
        ensures
            final(self).fields@.len() == old(self).fields@.len(),
            match message_fields(*reg, idx as nat, data@, pos as nat, end as nat, old(self).model()) {
                Some(st) => r is Ok && final(self).model() == st,
                None => r matches Err(e) && e.is_malformed(),
            },
        decreases data@.len() - pos, 3nat,
    {
        let ghost goal = message_fields(*reg, idx as nat, data@, pos as nat, end as nat, self.model());
        let mut cur = pos;
        loop
            invariant
                reg.wf(),
                idx < reg.messages@.len(),
                self.fields@.len() == reg.messages@[idx as int].fields@.len(),
                self.fields@.len() == old(self).fields@.len(),
                pos <= cur <= data@.len(),
                goal == message_fields(*reg, idx as nat, data@, pos as nat, end as nat, old(self).model()),
                goal == message_fields(*reg, idx as nat, data@, cur as nat, end as nat, self.model()),
            decreases data@.len() - cur,
        {
            if cur >= end || cur >= data.len() {
                if cur == end {
                    return Ok(());
                } else {
                    return Err(DecodeError::InvalidData);
                }
            }
            match self.parse_next_field(reg, idx, data, cur) {
                Ok(next) => {
                    cur = next;
                },
                Err(e) => {
                    return Err(e);
                },
            }
        }
    }

    /// Reads one field at `data[pos..]` into this state: the position after it.
    #[verifier::rlimit(50)]
    pub fn parse_next_field(&mut self, reg: &Registry, idx: usize, data: &[u8], pos: usize) -> (r: Result<
        usize,
        DecodeError,
    >)
        requires
            reg.wf(),
            idx < reg.messages@.len(),
            old(self).fields@.len() == reg.messages@[idx as int].fields@.len(),
            pos < data@.len(),
        ensures
            final(self).fields@.len() == old(self).fields@.len(),
            match next_field(*reg, idx as nat, data@, pos as nat, old(self).model()) {
                Some((st, e)) => r matches Ok(x) && x == e && final(self).model() == st,
                None => r matches Err(e) && e.is_malformed(),
            },
            r matches Ok(e) ==> pos < e <= data@.len(),
        decreases data@.len() - pos, 2nat,
    {
        proof {
            lemma_parse_key_bounds(data@.subrange(pos as int, data@.len() as int));
        }
        let (tag, code, rest) = match take_key(data, pos) {
            Some(x) => x,
            None => {
                return Err(DecodeError::ProstDecode);
            },
        };
        let p = data.len() - rest;
        let w = wire_of_code_exec(code);
        let desc = &reg.messages[idx];
        assert(desc.wf(reg.messages@.len() as nat));
        let ghost st0 = self.model();
        assert(parse_key(data@.subrange(pos as int, data@.len() as int)) == Some((tag, code as nat, (p - pos) as nat)));
        match find_field(&desc.fields, tag) {
            None => {
                assert(next_field(*reg, idx as nat, data@, pos as nat, st0) == match unknown_at(tag, code as nat, data@, p as nat) {
                    Some((bytes, e)) => Some((DecodeState { slots: st0.slots, unknown: st0.unknown + bytes }, e)),
                    None => None,
                });
                self.parse_next_unknown(tag, code, data, p)
            },
            Some(k) => {
                assert(find_from(desc.fields@, tag, 0) == Some(k as nat));
                assert(reg.messages@[idx as int].fields@ == desc.fields@);
                assert(w == wire_of_code(code as nat));
                assert(next_field(*reg, idx as nat, data@, pos as nat, st0) == known_field(*reg, idx as nat, k as nat, w, data@, p as nat, st0));
                self.parse_known_field(reg, idx, k, w, data, p)
            },
        }
    }

    /// Reads field `k` of descriptor `idx`, whose payload is at `data[p..]`
    /// and came with wire type `w`, into this state: the position after it.
    fn parse_known_field(&mut self, reg: &Registry, idx: usize, k: usize, w: WireType, data: &[u8], p: usize) -> (r:
        Result<usize, DecodeError>)
        requires
            reg.wf(),
            idx < reg.messages@.len(),
            k < reg.messages@[idx as int].fields@.len(),
            old(self).fields@.len() == reg.messages@[idx as int].fields@.len(),
            p <= data@.len(),
        ensures
            final(self).fields@.len() == old(self).fields@.len(),
            match known_field(*reg, idx as nat, k as nat, w, data@, p as nat, old(self).model()) {
                Some((st, e)) => r matches Ok(x) && x == e && final(self).model() == st,
                None => r matches Err(e) && e.is_malformed(),
            },
            r matches Ok(e) ==> p < e <= data@.len(),
        decreases data@.len() - p, 2nat,
    {
        let desc = &reg.messages[idx];
        assert(desc.wf(reg.messages@.len() as nat));
        let t = desc.fields[k].1.value_type;
        assert(crate::descriptors::type_wf(desc.fields@[k as int].1, reg.messages@.len() as nat));
        let end = match &desc.fields[k].1.attribute {
            FieldAttribute::Repeated => {
                if w == WireType::LengthDelimited && t.is_packable() {
                    match read_delimited(data, p) {
                        Some((a, b)) => match parse_packed(t, data, a, b) {
                            Ok(items) => {
                                self.append_repeated(k, items);
                                b
                            },
                            Err(e) => {
                                return Err(e);
                            },
                        },
                        None => {
                            return Err(DecodeError::ProstDecode);
                        },
                    }
                } else {
                    match parse_one_value(reg, t, w, data, p) {
                        Ok((v, e)) => {
                            let items = vec![v];
                            assert(values_model(items@) =~= seq![value_model(v)]);
                            self.append_repeated(k, items);
                            e
                        },
                        Err(e) => {
                            return Err(e);
                        },
                    }
                }
            },
            FieldAttribute::MapWithKey(key_type) => {
                match parse_map_entry(reg, *key_type, t, w, data, p) {
                    Ok((entry, q)) => {
                        self.push_map_entry(k, entry);
                        q
                    },
                    Err(e) => {
                        return Err(e);
                    },
                }
            },
            _ => {
                match parse_one_value(reg, t, w, data, p) {
                    Ok((v, e)) => {
                        self.set_single(k, v);
                        e
                    },
                    Err(e) => {
                        return Err(e);
                    },
                }
            },
        };
        self.clear_siblings(&desc.fields, k);
        Ok(end)
    }
}

/// Reads one value of kind `t` at `data[p..]`, which came with wire type `w`:
/// the value and the position after it.
pub fn parse_one_value(reg: &Registry, t: ProtoType, w: WireType, data: &[u8], p: usize) -> (r: Result<
    (Value, usize),
    DecodeError,
>)
    requires
        reg.wf(),
        crate::descriptors::class_wf(t, reg.messages@.len() as nat),
        p <= data@.len(),
    ensures
        match one_value(*reg, t, w, data@, p as nat) {
            Some((v, e)) => r matches Ok((x, q)) && value_model(x) == v && q == e,
            None => r matches Err(e) && e.is_malformed(),
        },
        r matches Ok((_, q)) ==> p < q <= data@.len(),
    decreases data@.len() - p, 1nat,
{
    match t {
        ProtoType::CustomMessage(c) => {
            if w != WireType::LengthDelimited {
                return Err(DecodeError::ProstDecode);
            }
            match read_delimited(data, p) {
                Some((a, b)) => {
                    let mut builder = CustomMessageBuilder::new(reg.messages[c.0].fields.len());
                    match builder.parse_fields(reg, c.0, data, a, b) {
                        Ok(()) => Ok((Value::Message(builder.finish(c)), b)),
                        Err(e) => Err(e),
                    }
                },
                None => Err(DecodeError::ProstDecode),
            }
        },
        _ => parse_value(t, w, data, p),
    }
}

/// The key and value of a map entry being read.
pub struct MapEntryBuilder {
    pub key: Option<Value>,
    pub value: Option<Value>,
}

pub open spec fn opt_value_model(o: Option<Value>) -> Option<ValueModel> {
    match o {
        Some(v) => Some(value_model(v)),
        None => None,
    }
}

impl MapEntryBuilder {
    pub open spec fn model(&self) -> (Option<ValueModel>, Option<ValueModel>) {
        (opt_value_model(self.key), opt_value_model(self.value))
    }

    /// Reads the fields of a map entry at `data[pos..end]`.
    pub fn parse_fields(&mut self, reg: &Registry, key_type: ProtoType, value_type: ProtoType, data: &[u8], pos: usize, end: usize) -> (r:
        Result<(), DecodeError>)
        requires
            reg.wf(),
            crate::descriptors::class_wf(key_type, reg.messages@.len() as nat),
            crate::descriptors::class_wf(value_type, reg.messages@.len() as nat),
            pos <= data@.len(),
        ensures
            match entry_fields(*reg, key_type, value_type, data@, pos as nat, end as nat, old(self).model()) {
                Some(kv) => r is Ok && final(self).model() == kv,
                None => r matches Err(e) && e.is_malformed(),
            },
        decreases data@.len() - pos, 3nat,
    {
        let ghost goal = entry_fields(*reg, key_type, value_type, data@, pos as nat, end as nat, self.model());
        let mut cur = pos;
        loop
            invariant
                reg.wf(),
                crate::descriptors::class_wf(key_type, reg.messages@.len() as nat),
                crate::descriptors::class_wf(value_type, reg.messages@.len() as nat),
                pos <= cur <= data@.len(),
                goal == entry_fields(*reg, key_type, value_type, data@, pos as nat, end as nat, old(self).model()),
                goal == entry_fields(*reg, key_type, value_type, data@, cur as nat, end as nat, self.model()),
            decreases data@.len() - cur,
        {
            if cur >= end || cur >= data.len() {
                if cur == end {
                    return Ok(());
                } else {
                    return Err(DecodeError::InvalidData);
                }
            }
            proof {
                lemma_parse_key_bounds(data@.subrange(cur as int, data@.len() as int));
            }
            let (tag, code, rest) = match take_key(data, cur) {
                Some(x) => x,
                None => {
                    return Err(DecodeError::ProstDecode);
                },
            };
            let p = data.len() - rest;
            let w = wire_of_code_exec(code);
            if tag == 1 {
                match parse_one_value(reg, key_type, w, data, p) {
                    Ok((k, e)) => {
                        self.key = Some(k);
                        cur = e;
                    },
                    Err(e) => {
                        return Err(e);
                    },
                }
            } else if tag == 2 {
                match parse_one_value(reg, value_type, w, data, p) {
                    Ok((v, e)) => {
                        self.value = Some(v);
                        cur = e;
                    },
                    Err(e) => {
                        return Err(e);
                    },
                }
            } else {
                return Err(DecodeError::InvalidMapEntryTag);
            }
        }
    }

    /// The key and value read, each its kind's default when left out.
    pub fn into_tuple(self, reg: &Registry, key_type: ProtoType, value_type: ProtoType) -> (r: (Value, Value))
        requires
            crate::descriptors::class_wf(key_type, reg.messages@.len() as nat),
            crate::descriptors::class_wf(value_type, reg.messages@.len() as nat),
        ensures
            value_model(r.0) == match self.model().0 {
                Some(x) => x,
                None => default_model(*reg, key_type),
            },
            value_model(r.1) == match self.model().1 {
                Some(x) => x,
                None => default_model(*reg, value_type),
            },
    {
        let k = match self.key {
            Some(k) => k,
            None => key_type.default_value(reg),
        };
        let v = match self.value {
            Some(v) => v,
            None => value_type.default_value(reg),
        };
        (k, v)
    }
}

/// Reads one map entry at `data[p..]`, which came with wire type `w`.
pub fn parse_map_entry(reg: &Registry, key_type: ProtoType, value_type: ProtoType, w: WireType, data: &[u8], p: usize) -> (r:
    Result<((Value, Value), usize), DecodeError>)
    requires
        reg.wf(),
        crate::descriptors::class_wf(key_type, reg.messages@.len() as nat),
        crate::descriptors::class_wf(value_type, reg.messages@.len() as nat),
        p <= data@.len(),
    ensures
        match map_entry(*reg, key_type, value_type, w, data@, p as nat) {
            Some((e, q)) => r matches Ok((x, end)) && (value_model(x.0), value_model(x.1)) == e && end == q,
            None => r matches Err(e) && e.is_malformed(),
        },
        r matches Ok((_, q)) ==> p < q <= data@.len(),
    decreases data@.len() - p, 1nat,
{
    if w != WireType::LengthDelimited {
        return Err(DecodeError::ProstDecode);
    }
    match read_delimited(data, p) {
        Some((a, b)) => {
            let mut builder = MapEntryBuilder { key: None, value: None };
            match builder.parse_fields(reg, key_type, value_type, data, a, b) {
                Ok(()) => Ok((builder.into_tuple(reg, key_type, value_type), b)),
                Err(e) => Err(e),
            }
        },
        None => Err(DecodeError::ProstDecode),
    }
}


impl CustomMessageBuilder {
    /// Merges what was read into `msg`: each field read replaces the one it
    /// had, the unknown bytes read follow its own, and it is marked as read
    /// from the wire.
    pub fn merge_into(self, msg: &mut BetterprotoMessage)
        requires
            self.fields@.len() == old(msg).fields@.len(),
        ensures
            message_model(*final(msg)) == merged(message_model(*old(msg)), self.model()),
    {
        let ghost st = self.model();
        let ghost m0 = message_model(*msg);
        let mut fields = self.fields;
        let mut i: usize = 0;
        while i < fields.len()
            invariant
                fields@.len() == msg.fields@.len(),
                m0.fields.len() == fields@.len(),
                st.slots.len() == fields@.len(),
                i <= fields@.len(),
                msg.class == m0.class,
                msg.unknown_fields@ == m0.unknown_fields,
                forall|j: int| i <= j < fields@.len() ==> #[trigger] opt_field_model(fields@[j]) == st.slots[j],
                forall|j: int|
                    0 <= j < fields@.len() ==> #[trigger] slots_model(msg.fields@)[j] == if j < i {
                        merged(m0, st).fields[j]
                    } else {
                        m0.fields[j]
                    },
            decreases fields@.len() - i,
        {
            let mut slot: Option<FieldValue> = None;
            std::mem::swap(&mut fields[i], &mut slot);
            assert(opt_field_model(slot) == st.slots[i as int]);
            if slot.is_some() {
                proof {
                    lemma_slots_update(msg.fields@, i as int, slot);
                }
                msg.fields.set(i, slot);
            }
            i = i + 1;
        }
        assert(slots_model(msg.fields@) =~= merged(m0, st).fields);
        append_bytes(&mut msg.unknown_fields, self.unknown_fields.as_slice());
        msg.serialized_on_wire = true;
    }
}

/// Reads `data` as a message of the class of `msg` and merges it into `msg`
/// (see [`merged`]). On failure `msg` is left as it was.
pub fn merge_into_message(reg: &Registry, msg: &mut BetterprotoMessage, data: &[u8]) -> (r: Result<(), DecodeError>)
    requires
        reg.wf(),
        old(msg).class.0 < reg.messages@.len(),
        old(msg).fields@.len() == reg.messages@[old(msg).class.0 as int].fields@.len(),
    ensures
        match decode_message(*reg, old(msg).class.0 as nat, data@) {
            Some(st) => r is Ok && message_model(*final(msg)) == merged(message_model(*old(msg)), st),
            None => r matches Err(e) && e.is_malformed() && *final(msg) == *old(msg),
        },
{
    let idx = msg.class.0;
    let mut builder = CustomMessageBuilder::new(reg.messages[idx].fields.len());
    match builder.parse_fields(reg, idx, data, 0, data.len()) {
        Ok(()) => {
            builder.merge_into(msg);
            Ok(())
        },
        Err(e) => Err(e),
    }
}

} // verus!
