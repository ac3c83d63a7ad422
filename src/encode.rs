//! The encode engine: a message object and its descriptor to wire bytes,
//! through chunks whose lengths are known before anything is written.
use vstd::prelude::*;
use crate::descriptors::{FieldAttribute, FieldDescriptor, ProtoType, Registry, is_packable};
use crate::error::EncodeError;
use crate::scalar::{
    append_bytes, delimited, encode_scalar, encode_value, fits, is_plain_scalar, is_wrapper, is_zero,
    is_zero_value, scalar_payload, value_payload, wire_type_exec, wire_type_of,
};
use crate::value::{
    entries_model, field_model, message_model, value_model, values_model, BetterprotoMessage, FieldModel, FieldValue, MessageModel,
    Value, ValueModel,
};
use crate::wire::{key_bytes, put_key, put_varint, varint_bytes, varint_len, WireType, MAX_TAG};

verus! {

broadcast use vstd::seq_lib::group_seq_properties;

// ---------------------------------------------------------------------------
// What a message encodes to.

/// One value of field `tag`. With `skip_default`, a zero scalar or Timestamp
/// or Duration is left out, and so is a nested message that was not read from
/// the wire; a wrapper is always written when present.
pub open spec fn single_bytes(reg: Registry, tag: u32, t: ProtoType, v: ValueModel, skip_default: bool) -> Seq<u8>
    decreases v, 0nat,
{
    match t {
        ProtoType::CustomMessage(c) => match v {
            ValueModel::Message(m) => if skip_default && !m.serialized_on_wire {
                Seq::empty()
            } else {
                key_bytes(tag, WireType::LengthDelimited) + delimited(message_bytes(reg, c.0 as nat, m))
            },
            _ => Seq::empty(),
        },
        _ => if skip_default && !is_wrapper(t) && is_zero(v) {
            Seq::empty()
        } else {
            key_bytes(tag, wire_type_of(t)) + value_payload(t, v)
        },
    }
}

/// The payloads of the entries of a packed list.
pub open spec fn packed_parts(t: ProtoType, items: Seq<ValueModel>) -> Seq<Seq<u8>> {
    Seq::new(items.len(), |i: int| scalar_payload(t, items[i]))
}

/// A packed list: one length-delimited entry holding the payloads one after
/// another; nothing for an empty list.
pub open spec fn packed_bytes(tag: u32, t: ProtoType, items: Seq<ValueModel>) -> Seq<u8> {
    if items.len() == 0 {
        Seq::empty()
    } else {
        key_bytes(tag, WireType::LengthDelimited) + delimited(packed_parts(t, items).flatten())
    }
}

/// A list written entry by entry, each with its own key.
pub open spec fn list_parts(reg: Registry, tag: u32, t: ProtoType, items: Seq<ValueModel>) -> Seq<Seq<u8>>
    decreases items, 0nat,
{
    Seq::new(
        items.len(),
        |i: int| if 0 <= i < items.len() { single_bytes(reg, tag, t, items[i], false) } else { Seq::empty() },
    )
}

/// A map entry: a nested message with the key as field 1 and the value as
/// field 2, neither left out for being zero.
pub open spec fn entry_bytes(reg: Registry, tag: u32, kt: ProtoType, vt: ProtoType, e: (ValueModel, ValueModel)) -> Seq<u8>
    decreases e, 0nat,
{
    key_bytes(tag, WireType::LengthDelimited) + delimited(
        single_bytes(reg, 1, kt, e.0, false) + single_bytes(reg, 2, vt, e.1, false),
    )
}

/// The entries of a map, in the order they are held.
pub open spec fn entry_parts(reg: Registry, tag: u32, kt: ProtoType, vt: ProtoType, es: Seq<(ValueModel, ValueModel)>) -> Seq<Seq<u8>>
    decreases es, 0nat,
{
    Seq::new(
        es.len(),
        |i: int| if 0 <= i < es.len() { entry_bytes(reg, tag, kt, vt, es[i]) } else { Seq::empty() },
    )
}

/// A field as its attribute writes it: a list packed when its kind allows it,
/// else entry by entry; a map entry by entry; a plain singular field with
/// zero suppression; any other singular field without.
pub open spec fn field_bytes(reg: Registry, tag: u32, fd: FieldDescriptor, f: FieldModel) -> Seq<u8>
    decreases f, 0nat,
{
    let t = fd.value_type;
    match f {
        FieldModel::Repeated(items) => if is_packable(t) {
            packed_bytes(tag, t, items)
        } else {
            list_parts(reg, tag, t, items).flatten()
        },
        FieldModel::Entries(es) => match fd.attribute {
            FieldAttribute::MapWithKey(kt) => entry_parts(reg, tag, kt, t, es).flatten(),
            _ => Seq::empty(),
        },
        FieldModel::Single(v) => single_bytes(reg, tag, t, v, fd.attribute is Plain),
    }
}

/// The bytes of each field of a message, in descriptor order; nothing for an
/// unset field.
pub open spec fn message_parts(reg: Registry, idx: nat, m: MessageModel) -> Seq<Seq<u8>>
    decreases m, 0nat,
{
    let desc = reg.messages@[idx as int];
    Seq::new(
        desc.fields@.len(),
        |i: int|
            if 0 <= i < m.fields.len() {
                match m.fields[i] {
                    Some(f) => field_bytes(reg, desc.fields@[i].0, desc.fields@[i].1, f),
                    None => Seq::empty(),
                }
            } else {
                Seq::empty()
            },
    )
}

/// A message: its set fields in descriptor order, then its unknown bytes.
pub open spec fn message_bytes(reg: Registry, idx: nat, m: MessageModel) -> Seq<u8>
    decreases m, 1nat,
{
    message_parts(reg, idx, m).flatten() + m.unknown_fields
}

/// Whether a value has the shape its kind asks for, all the way down.
pub open spec fn value_encodable(reg: Registry, t: ProtoType, v: ValueModel) -> bool
    decreases v, 0nat,
{
    &&& fits(t, v)
    &&& match t {
        ProtoType::CustomMessage(c) => match v {
            ValueModel::Message(m) => c.0 < reg.messages@.len() && message_encodable(reg, c.0 as nat, m),
            _ => false,
        },
        _ => true,
    }
}

/// Whether the values of a list from the `i`-th on are encodable.
pub open spec fn values_encodable(reg: Registry, t: ProtoType, items: Seq<ValueModel>, i: nat) -> bool
    decreases items, items.len() - i,
{
    if i < items.len() {
        value_encodable(reg, t, items[i as int]) && values_encodable(reg, t, items, i + 1)
    } else {
        true
    }
}

/// For kinds other than nested messages, a list is encodable exactly when
/// each of its values has the kind's variant.
pub proof fn lemma_values_encodable_fits(reg: Registry, t: ProtoType, items: Seq<ValueModel>, i: nat)
    requires
        !(t is CustomMessage),
    ensures
        values_encodable(reg, t, items, i) <==> forall|j: int| i <= j < items.len() ==> fits(t, #[trigger] items[j]),
    decreases items.len() - i,
{
    if i < items.len() {
        lemma_values_encodable_fits(reg, t, items, i + 1);
        assert(value_encodable(reg, t, items[i as int]) == fits(t, items[i as int]));
        if forall|j: int| i + 1 <= j < items.len() ==> fits(t, #[trigger] items[j]) {
            if fits(t, items[i as int]) {
                assert forall|j: int| i <= j < items.len() implies fits(t, #[trigger] items[j]) by {
                    if j > i {
                    }
                }
            }
        }
    }
}

/// Whether the keys and values of map entries from the `i`-th on are encodable.
pub open spec fn entries_encodable(reg: Registry, kt: ProtoType, vt: ProtoType, es: Seq<(ValueModel, ValueModel)>, i: nat) -> bool
    decreases es, es.len() - i,
{
    if i < es.len() {
        value_encodable(reg, kt, es[i as int].0) && value_encodable(reg, vt, es[i as int].1)
            && entries_encodable(reg, kt, vt, es, i + 1)
    } else {
        true
    }
}

/// Whether a field value has the shape its descriptor asks for.
pub open spec fn field_encodable(reg: Registry, fd: FieldDescriptor, f: FieldModel) -> bool
    decreases f, 0nat,
{
    let t = fd.value_type;
    match f {
        FieldModel::Repeated(items) => fd.attribute is Repeated && values_encodable(reg, t, items, 0),
        FieldModel::Entries(es) => match fd.attribute {
            FieldAttribute::MapWithKey(kt) => entries_encodable(reg, kt, t, es, 0),
            _ => false,
        },
        FieldModel::Single(v) => !(fd.attribute is Repeated) && !(fd.attribute is MapWithKey)
            && value_encodable(reg, t, v),
    }
}

/// Whether the set slots of a message from the `i`-th on have the shape their
/// fields ask for.
pub open spec fn slots_encodable(reg: Registry, idx: nat, m: MessageModel, i: nat) -> bool
    decreases m, m.fields.len() - i,
{
    if i < m.fields.len() {
        (match m.fields[i as int] {
            Some(f) => field_encodable(reg, reg.messages@[idx as int].fields@[i as int].1, f),
            None => true,
        }) && slots_encodable(reg, idx, m, i + 1)
    } else {
        true
    }
}

/// Whether a message has one slot per field of its descriptor and every set
/// slot has the shape its field asks for.
pub open spec fn message_encodable(reg: Registry, idx: nat, m: MessageModel) -> bool
    decreases m, m.fields.len() + 1,
{
    &&& m.fields.len() == reg.messages@[idx as int].fields@.len()
    &&& slots_encodable(reg, idx, m, 0)
}

// ---------------------------------------------------------------------------
// Chunks.

/// What a chunk holds: bytes already written, or the key of a nested message
/// field and the encoder of that message, whose length is found only when
/// the chunk is written.
pub enum ChunkVariant {
    PreEncoded(Vec<u8>),
    MessageField(Vec<u8>, MessageEncoder),
}

/// One piece of an encoded message.
pub struct Chunk(pub ChunkVariant);

/// The encoded fields of a message, in the order they are written.
pub struct MessageEncoder(pub Vec<Chunk>);

/// The bytes a chunk writes.
pub open spec fn chunk_bytes(c: Chunk) -> Seq<u8>
    decreases c, 2nat,
{
    match c.0 {
        ChunkVariant::PreEncoded(b) => b@,
        ChunkVariant::MessageField(k, e) => k@ + delimited(encoder_bytes(e)),
    }
}

/// The bytes an encoder writes: those of its chunks one after another.
pub open spec fn encoder_bytes(e: MessageEncoder) -> Seq<u8>
    decreases e, 1nat,
{
    encoder_parts(e).flatten()
}

/// The bytes of each chunk of an encoder.
pub open spec fn encoder_parts(e: MessageEncoder) -> Seq<Seq<u8>>
    decreases e, 0nat,
{
    Seq::new(
        e.0@.len(),
        |i: int| if 0 <= i < e.0@.len() { chunk_bytes(e.0@[i]) } else { Seq::empty() },
    )
}

/// The length of `s`, when it fits in a `usize`.
pub open spec fn fitting_len(s: Seq<u8>) -> Option<usize> {
    if s.len() <= usize::MAX {
        Some(s.len() as usize)
    } else {
        None
    }
}

/// Appending one more part to a sequence of parts appends its bytes.
pub proof fn lemma_parts_push(parts: Seq<Seq<u8>>, p: Seq<u8>)
    ensures
        parts.push(p).flatten() == parts.flatten() + p,
{
    parts.lemma_flatten_push(p);
}

/// The bytes of the first parts are no more than those of all parts.
pub proof fn lemma_parts_prefix_len(parts: Seq<Seq<u8>>, i: int)
    requires
        0 <= i <= parts.len(),
    ensures
        parts.subrange(0, i).flatten().len() <= parts.flatten().len(),
        parts.subrange(0, i).flatten() + parts.subrange(i, parts.len() as int).flatten() == parts.flatten(),
{
    assert(parts =~= parts.subrange(0, i) + parts.subrange(i, parts.len() as int));
    vstd::seq_lib::lemma_flatten_concat(parts.subrange(0, i), parts.subrange(i, parts.len() as int));
}

impl Chunk {
    /// A chunk of bytes already written.
    pub fn from_encoded(encoded: Vec<u8>) -> (r: Chunk)
        ensures
            chunk_bytes(r) == encoded@,
    {
        Chunk(ChunkVariant::PreEncoded(encoded))
    }

    /// A chunk for nested message field `tag`, written by `encoder`.
    pub fn from_message(tag: u32, encoder: MessageEncoder) -> (r: Chunk)
        requires
            1 <= tag <= MAX_TAG,
        ensures
            chunk_bytes(r) == key_bytes(tag, WireType::LengthDelimited) + delimited(encoder_bytes(encoder)),
    {
        let mut key: Vec<u8> = Vec::new();
        put_key(tag, WireType::LengthDelimited, &mut key);
        assert(key@ =~= key_bytes(tag, WireType::LengthDelimited));
        Chunk(ChunkVariant::MessageField(key, encoder))
    }

    /// The number of bytes the chunk writes, or `None` when that does not fit
    /// in a `usize`.
    pub fn encoded_len(&self) -> (r: Option<usize>)
        ensures
            r == fitting_len(chunk_bytes(*self)),
        decreases self,
    {
        match &self.0 {
            ChunkVariant::PreEncoded(bytes) => Some(bytes.len()),
            ChunkVariant::MessageField(key, msg) => {
                match msg.encoded_len() {
                    Some(msg_len) => {
                        let prefix_len = varint_len(msg_len as u64);
                        proof {
                            crate::wire::lemma_varint_len(msg_len as nat);
                        }
                        match key.len().checked_add(prefix_len) {
                            Some(meta) => meta.checked_add(msg_len),
                            None => None,
                        }
                    },
                    None => None,
                }
            },
        }
    }

    /// Writes the chunk.
    pub fn encode(&self, buf: &mut Vec<u8>)
        requires
            chunk_bytes(*self).len() <= usize::MAX,
        ensures
            final(buf)@ == old(buf)@ + chunk_bytes(*self),
        decreases self,
    {
        match &self.0 {
            ChunkVariant::PreEncoded(bytes) => append_bytes(buf, bytes.as_slice()),
            ChunkVariant::MessageField(key, msg) => {
                append_bytes(buf, key.as_slice());
                match msg.encoded_len() {
                    Some(msg_len) => {
                        put_varint(msg_len as u64, buf);
                        msg.encode(buf);
                    },
                    None => {},
                }
                assert(buf@ =~= old(buf)@ + chunk_bytes(*self));
            },
        }
    }
}

impl MessageEncoder {
    pub fn new() -> (r: MessageEncoder)
        ensures
            encoder_bytes(r) == Seq::<u8>::empty(),
    {
        let r = MessageEncoder(Vec::new());
        assert(encoder_bytes(r) =~= Seq::<u8>::empty());
        r
    }

    pub open spec fn parts(&self) -> Seq<Seq<u8>> {
        encoder_parts(*self)
    }

    /// The number of bytes the encoder writes, or `None` when that does not
    /// fit in a `usize`.
    pub fn encoded_len(&self) -> (r: Option<usize>)
        ensures
            r == fitting_len(encoder_bytes(*self)),
        decreases self,
    {
        let ghost parts = self.parts();
        assert(encoder_bytes(*self) == parts.flatten());
        let mut total: usize = 0;
        let mut i: usize = 0;
        while i < self.0.len()
            invariant
                i <= self.0@.len(),
                parts == self.parts(),
                encoder_bytes(*self) == parts.flatten(),
                total == parts.subrange(0, i as int).flatten().len(),
            decreases self.0@.len() - i,
        {
            proof {
                assert(parts.subrange(0, i + 1) =~= parts.subrange(0, i as int).push(parts[i as int]));
                lemma_parts_push(parts.subrange(0, i as int), parts[i as int]);
                lemma_parts_prefix_len(parts, i + 1);
                parts.lemma_flatten_length_ge_single_element_length(i as int);
                parts.lemma_flatten_and_flatten_alt_are_equivalent();
            }
            match self.0[i].encoded_len() {
                Some(len) => match total.checked_add(len) {
                    Some(t) => {
                        total = t;
                    },
                    None => {
                        return None;
                    },
                },
                None => {
                    return None;
                },
            }
            i = i + 1;
        }
        assert(parts.subrange(0, i as int) =~= parts);
        Some(total)
    }

    /// Writes the chunks one after another.
    pub fn encode(&self, buf: &mut Vec<u8>)
        requires
            encoder_bytes(*self).len() <= usize::MAX,
        ensures
            final(buf)@ == old(buf)@ + encoder_bytes(*self),
        decreases self,
    {
        let ghost parts = self.parts();
        assert(encoder_bytes(*self) == parts.flatten());
        let mut i: usize = 0;
        while i < self.0.len()
            invariant
                i <= self.0@.len(),
                parts == self.parts(),
                encoder_bytes(*self) == parts.flatten(),
                encoder_bytes(*self).len() <= usize::MAX,
                buf@ == old(buf)@ + parts.subrange(0, i as int).flatten(),
            decreases self.0@.len() - i,
        {
            proof {
                assert(parts.subrange(0, i + 1) =~= parts.subrange(0, i as int).push(parts[i as int]));
                lemma_parts_push(parts.subrange(0, i as int), parts[i as int]);
                parts.lemma_flatten_length_ge_single_element_length(i as int);
                parts.lemma_flatten_and_flatten_alt_are_equivalent();
                assert(parts[i as int] == chunk_bytes(self.0@[i as int]));
            }
            self.0[i].encode(buf);
            i = i + 1;
            assert(buf@ =~= old(buf)@ + parts.subrange(0, i as int).flatten());
        }
        assert(parts.subrange(0, i as int) =~= parts);
    }

    /// The whole encoding in one buffer.
    pub fn into_vec(self) -> (r: Vec<u8>)
        requires
            encoder_bytes(self).len() <= usize::MAX,
        ensures
            r@ == encoder_bytes(self),
    {
        let mut buf: Vec<u8> = Vec::new();
        self.encode(&mut buf);
        assert(buf@ =~= encoder_bytes(self));
        buf
    }

    /// Appends a chunk.
    pub fn push_chunk(&mut self, c: Chunk)
        ensures
            encoder_bytes(*final(self)) == encoder_bytes(*old(self)) + chunk_bytes(c),
    {
        let ghost before = self.parts();
        self.0.push(c);
        proof {
            assert(self.parts() =~= before.push(chunk_bytes(c)));
            lemma_parts_push(before, chunk_bytes(c));
        }
    }

    /// Appends the bytes of unknown fields, as they are.
    pub fn load_unknown_fields(&mut self, unknowns: Vec<u8>)
        ensures
            encoder_bytes(*final(self)) == encoder_bytes(*old(self)) + unknowns@,
    {
        self.push_chunk(Chunk::from_encoded(unknowns))
    }
}


// ---------------------------------------------------------------------------
// Loading fields into an encoder.

impl MessageEncoder {
    /// Encodes a message object against the descriptor `idx` of `reg`: every
    /// set field in descriptor order, then the unknown bytes.
    pub fn from_betterproto_msg(reg: &Registry, idx: usize, msg: &BetterprotoMessage) -> (r: Result<
        MessageEncoder,
        EncodeError,
    >)
        requires
            reg.wf(),
            idx < reg.messages@.len(),
        ensures
            match r {
                Ok(e) => message_encodable(*reg, idx as nat, message_model(*msg)) && encoder_bytes(e)
                    == message_bytes(*reg, idx as nat, message_model(*msg)),
                Err(e) => !message_encodable(*reg, idx as nat, message_model(*msg)) && e
                    == EncodeError::DowncastFailed,
            },
        decreases msg,
    {
        let ghost m = message_model(*msg);
        let desc = &reg.messages[idx];
        assert(desc.wf(reg.messages@.len() as nat));
        if msg.fields.len() != desc.fields.len() {
            return Err(EncodeError::DowncastFailed);
        }
        let ghost parts = message_parts(*reg, idx as nat, m);
        let mut encoder = MessageEncoder::new();
        let mut i: usize = 0;
        while i < desc.fields.len()
            invariant
                reg.wf(),
                idx < reg.messages@.len(),
                *desc == reg.messages@[idx as int],
                desc.wf(reg.messages@.len() as nat),
                m == message_model(*msg),
                msg.fields@.len() == desc.fields@.len(),
                parts == message_parts(*reg, idx as nat, m),
                i <= desc.fields@.len(),
                encoder_bytes(encoder) == parts.subrange(0, i as int).flatten(),
                message_encodable(*reg, idx as nat, m) == slots_encodable(*reg, idx as nat, m, i as nat),
            decreases desc.fields@.len() - i,
        {
            match &msg.fields[i] {
                Some(f) => {
                    let tag = desc.fields[i].0;
                    assert(m.fields[i as int] == Some(field_model(*f)));
                    assert(1 <= desc.fields@[i as int].0 <= MAX_TAG);
                    assert(crate::descriptors::type_wf(desc.fields@[i as int].1, reg.messages@.len() as nat));
                    match encoder.load_field(reg, tag, &desc.fields[i].1, f) {
                        Ok(()) => {},
                        Err(e) => {
                            return Err(e);
                        },
                    }
                },
                None => {
                    assert(m.fields[i as int] is None);
                },
            }
            proof {
                assert(parts.subrange(0, i + 1) =~= parts.subrange(0, i as int).push(parts[i as int]));
                lemma_parts_push(parts.subrange(0, i as int), parts[i as int]);
            }
            i = i + 1;
        }
        assert(parts.subrange(0, i as int) =~= parts);
        let unknowns = crate::scalar::copy_range(msg.unknown_fields.as_slice(), 0, msg.unknown_fields.len());
        assert(unknowns@ =~= m.unknown_fields);
        encoder.load_unknown_fields(unknowns);
        Ok(encoder)
    }

    /// Encodes one value of field `tag` (see [`single_bytes`]).
    fn load_single(&mut self, reg: &Registry, tag: u32, t: ProtoType, value: &Value, skip_default: bool) -> (r:
        Result<(), EncodeError>)
        requires
            reg.wf(),
            1 <= tag <= MAX_TAG,
            crate::descriptors::class_wf(t, reg.messages@.len() as nat),
        ensures
            match r {
                Ok(()) => value_encodable(*reg, t, value_model(*value)) && encoder_bytes(*final(self))
                    == encoder_bytes(*old(self)) + single_bytes(*reg, tag, t, value_model(*value), skip_default),
                Err(e) => !value_encodable(*reg, t, value_model(*value)) && e == EncodeError::DowncastFailed,
            },
        decreases value,
    {
        match t {
            ProtoType::CustomMessage(c) => match value {
                Value::Message(msg) => {
                    match MessageEncoder::from_betterproto_msg(reg, c.0, msg) {
                        Ok(encoder) => {
                            if skip_default && !msg.serialized_on_wire {
                                assert(encoder_bytes(*self) =~= encoder_bytes(*self) + Seq::<u8>::empty());
                            } else {
                                self.push_chunk(Chunk::from_message(tag, encoder));
                            }
                            Ok(())
                        },
                        Err(e) => Err(e),
                    }
                },
                _ => Err(EncodeError::DowncastFailed),
            },
            _ => {
                if !crate::scalar::fits_exec(t, value) {
                    return Err(EncodeError::DowncastFailed);
                }
                if skip_default && !crate::scalar::is_wrapper_exec(t) && is_zero_value(value) {
                    assert(encoder_bytes(*self) =~= encoder_bytes(*self) + Seq::<u8>::empty());
                    return Ok(());
                }
                let mut buf: Vec<u8> = Vec::new();
                put_key(tag, wire_type_exec(t), &mut buf);
                encode_value(t, value, &mut buf);
                assert(buf@ =~= key_bytes(tag, wire_type_of(t)) + value_payload(t, value_model(*value)));
                self.push_chunk(Chunk::from_encoded(buf));
                Ok(())
            },
        }
    }

    /// Encodes a list of a packable kind as one packed entry.
    fn try_load_packed(&mut self, tag: u32, t: ProtoType, items: &Vec<Value>) -> (r: Result<(), EncodeError>)
        requires
            1 <= tag <= MAX_TAG,
            is_packable(t),
        ensures
            match r {
                Ok(()) => (forall|i: int| 0 <= i < items@.len() ==> fits(t, value_model(#[trigger] items@[i])))
                    && encoder_bytes(*final(self)) == encoder_bytes(*old(self)) + packed_bytes(
                    tag,
                    t,
                    values_model(items@),
                ),
                Err(e) => (exists|i: int| 0 <= i < items@.len() && !fits(t, value_model(#[trigger] items@[i])))
                    && e == EncodeError::DowncastFailed,
            },
    {
        let ghost models = values_model(items@);
        let ghost parts = packed_parts(t, models);
        let mut body: Vec<u8> = Vec::new();
        let mut i: usize = 0;
        while i < items.len()
            invariant
                is_packable(t),
                i <= items@.len(),
                models == values_model(items@),
                parts == packed_parts(t, models),
                body@ == parts.subrange(0, i as int).flatten(),
                forall|j: int| 0 <= j < i ==> fits(t, value_model(#[trigger] items@[j])),
            decreases items@.len() - i,
        {
            if !crate::scalar::fits_exec(t, &items[i]) {
                return Err(EncodeError::DowncastFailed);
            }
            encode_scalar(t, &items[i], &mut body);
            proof {
                assert(parts.subrange(0, i + 1) =~= parts.subrange(0, i as int).push(parts[i as int]));
                lemma_parts_push(parts.subrange(0, i as int), parts[i as int]);
            }
            i = i + 1;
        }
        assert(parts.subrange(0, i as int) =~= parts);
        if items.len() == 0 {
            assert(encoder_bytes(*self) =~= encoder_bytes(*self) + Seq::<u8>::empty());
            return Ok(());
        }
        let mut buf: Vec<u8> = Vec::new();
        put_key(tag, WireType::LengthDelimited, &mut buf);
        crate::scalar::put_delimited(body.as_slice(), &mut buf);
        assert(buf@ =~= packed_bytes(tag, t, models));
        self.push_chunk(Chunk::from_encoded(buf));
        Ok(())
    }

    /// Encodes one map entry as a nested message of field `tag`.
    fn load_map_entry(&mut self, reg: &Registry, tag: u32, key_type: ProtoType, value_type: ProtoType, entry: &(Value, Value)) -> (r:
        Result<(), EncodeError>)
        requires
            reg.wf(),
            1 <= tag <= MAX_TAG,
            crate::descriptors::class_wf(key_type, reg.messages@.len() as nat),
            crate::descriptors::class_wf(value_type, reg.messages@.len() as nat),
        ensures
            match r {
                Ok(()) => value_encodable(*reg, key_type, value_model(entry.0)) && value_encodable(
                    *reg,
                    value_type,
                    value_model(entry.1),
                ) && encoder_bytes(*final(self)) == encoder_bytes(*old(self)) + entry_bytes(
                    *reg,
                    tag,
                    key_type,
                    value_type,
                    (value_model(entry.0), value_model(entry.1)),
                ),
                Err(e) => !(value_encodable(*reg, key_type, value_model(entry.0)) && value_encodable(
                    *reg,
                    value_type,
                    value_model(entry.1),
                )) && e == EncodeError::DowncastFailed,
            },
        decreases entry,
    {
        let mut encoder = MessageEncoder::new();
        match encoder.load_single(reg, 1, key_type, &entry.0, false) {
            Ok(()) => {},
            Err(e) => {
                return Err(e);
            },
        }
        match encoder.load_single(reg, 2, value_type, &entry.1, false) {
            Ok(()) => {},
            Err(e) => {
                return Err(e);
            },
        }
        self.push_chunk(Chunk::from_message(tag, encoder));
        Ok(())
    }

    /// Encodes one field as its attribute asks (see [`field_bytes`]).
    fn load_field(&mut self, reg: &Registry, tag: u32, descriptor: &FieldDescriptor, value: &FieldValue) -> (r:
        Result<(), EncodeError>)
        requires
            reg.wf(),
            1 <= tag <= MAX_TAG,
            crate::descriptors::type_wf(*descriptor, reg.messages@.len() as nat),
        ensures
            match r {
                Ok(()) => field_encodable(*reg, *descriptor, field_model(*value)) && encoder_bytes(*final(self))
                    == encoder_bytes(*old(self)) + field_bytes(*reg, tag, *descriptor, field_model(*value)),
                Err(e) => !field_encodable(*reg, *descriptor, field_model(*value)) && e
                    == EncodeError::DowncastFailed,
            },
        decreases value,
    {
        let t = descriptor.value_type;
        let ghost f = field_model(*value);
        match value {
            FieldValue::Repeated(items) => {
                let ghost models = values_model(items@);
                assert(f == FieldModel::Repeated(models));
                if !matches!(descriptor.attribute, FieldAttribute::Repeated) {
                    return Err(EncodeError::DowncastFailed);
                }
                if t.is_packable() {
                    proof {
                        lemma_values_encodable_fits(*reg, t, models, 0);
                    }
                    match self.try_load_packed(tag, t, items) {
                        Ok(()) => {
                            assert forall|i: int| 0 <= i < models.len() implies fits(t, #[trigger] models[i]) by {
                                assert(fits(t, value_model(items@[i])));
                            }
                            Ok(())
                        },
                        Err(e) => {
                            let ghost j = choose|j: int| 0 <= j < items@.len() && !fits(t, value_model(#[trigger] items@[j]));
                            assert(!fits(t, models[j]));
                            Err(e)
                        },
                    }
                } else {
                    let ghost parts = list_parts(*reg, tag, t, models);
                    let ghost start = encoder_bytes(*self);
                    let mut i: usize = 0;
                    while i < items.len()
                        invariant
                            reg.wf(),
                            1 <= tag <= MAX_TAG,
                            crate::descriptors::class_wf(t, reg.messages@.len() as nat),
                            i <= items@.len(),
                            models == values_model(items@),
                            field_model(*value) == FieldModel::Repeated(models),
                            *value == FieldValue::Repeated(*items),
                            descriptor.attribute is Repeated,
                            descriptor.value_type == t,
                            parts == list_parts(*reg, tag, t, models),
                            encoder_bytes(*self) == start + parts.subrange(0, i as int).flatten(),
                            values_encodable(*reg, t, models, 0) == values_encodable(*reg, t, models, i as nat),
                        decreases items@.len() - i,
                    {
                        proof {
                            assert(decreases_to!(*value => value->Repeated_0));
                            assert(decreases_to!(*items => items@));
                            assert(decreases_to!(items@ => items@[i as int]));
                            assert(decreases_to!(*value => items@[i as int]));
                        }
                        match self.load_single(reg, tag, t, &items[i], false) {
                            Ok(()) => {},
                            Err(e) => {
                                assert(models[i as int] == value_model(items@[i as int]));
                                assert(!value_encodable(*reg, t, models[i as int]));

                                return Err(e);
                            },
                        }
                        proof {
                            assert(parts.subrange(0, i + 1) =~= parts.subrange(0, i as int).push(parts[i as int]));
                            lemma_parts_push(parts.subrange(0, i as int), parts[i as int]);
                        }
                        i = i + 1;
                        assert(encoder_bytes(*self) =~= start + parts.subrange(0, i as int).flatten());
                    }
                    assert(parts.subrange(0, i as int) =~= parts);
                    Ok(())
                }
            },
            FieldValue::Entries(es) => {
                let ghost models = entries_model(es@);
                assert(f == FieldModel::Entries(models));
                match descriptor.attribute {
                    FieldAttribute::MapWithKey(key_type) => {
                        let ghost parts = entry_parts(*reg, tag, key_type, t, models);
                        let ghost start = encoder_bytes(*self);
                        let mut i: usize = 0;
                        while i < es.len()
                            invariant
                                reg.wf(),
                                1 <= tag <= MAX_TAG,
                                crate::descriptors::class_wf(t, reg.messages@.len() as nat),
                                crate::descriptors::is_map_key_type(key_type),
                                i <= es@.len(),
                                models == entries_model(es@),
                                field_model(*value) == FieldModel::Entries(models),
                                *value == FieldValue::Entries(*es),
                                descriptor.attribute == FieldAttribute::MapWithKey(key_type),
                                descriptor.value_type == t,
                                parts == entry_parts(*reg, tag, key_type, t, models),
                                encoder_bytes(*self) == start + parts.subrange(0, i as int).flatten(),
                                entries_encodable(*reg, key_type, t, models, 0) == entries_encodable(*reg, key_type, t, models, i as nat),
                            decreases es@.len() - i,
                        {
                            proof {
                                assert(decreases_to!(*value => value->Entries_0));
                                assert(decreases_to!(*es => es@));
                                assert(decreases_to!(es@ => es@[i as int]));
                                assert(decreases_to!(*value => es@[i as int]));
                            }
                            assert(models[i as int] == (value_model(es@[i as int].0), value_model(es@[i as int].1)));
                            match self.load_map_entry(reg, tag, key_type, t, &es[i]) {
                                Ok(()) => {},
                                Err(e) => {
                                    return Err(e);
                                },
                            }
                            proof {
                                assert(parts.subrange(0, i + 1) =~= parts.subrange(0, i as int).push(parts[i as int]));
                                lemma_parts_push(parts.subrange(0, i as int), parts[i as int]);
                            }
                            i = i + 1;
                            assert(encoder_bytes(*self) =~= start + parts.subrange(0, i as int).flatten());
                        }
                        assert(parts.subrange(0, i as int) =~= parts);
                        Ok(())
                    },
                    _ => Err(EncodeError::DowncastFailed),
                }
            },
            FieldValue::Single(v) => {
                match descriptor.attribute {
                    FieldAttribute::Repeated | FieldAttribute::MapWithKey(_) => Err(EncodeError::DowncastFailed),
                    FieldAttribute::Plain => self.load_single(reg, tag, t, v, true),
                    _ => self.load_single(reg, tag, t, v, false),
                }
            },
        }
    }
}


/// Encodes a message object against the descriptor of its class.
pub fn serialize(reg: &Registry, msg: &BetterprotoMessage) -> (r: Result<Vec<u8>, EncodeError>)
    requires
        reg.wf(),
        msg.class.0 < reg.messages@.len(),
    ensures
        match r {
            Ok(bytes) => message_encodable(*reg, msg.class.0 as nat, message_model(*msg)) && bytes@
                == message_bytes(*reg, msg.class.0 as nat, message_model(*msg)),
            Err(e) => if message_encodable(*reg, msg.class.0 as nat, message_model(*msg)) {
                e == EncodeError::ProstEncode && message_bytes(*reg, msg.class.0 as nat, message_model(*msg)).len()
                    > usize::MAX
            } else {
                e == EncodeError::DowncastFailed
            },
        },
{
    match MessageEncoder::from_betterproto_msg(reg, msg.class.0, msg) {
        Ok(encoder) => match encoder.encoded_len() {
            Some(_) => Ok(encoder.into_vec()),
            None => Err(EncodeError::ProstEncode),
        },
        Err(e) => Err(e),
    }
}

} // verus!
