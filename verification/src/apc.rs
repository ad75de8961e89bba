//! The control-message codec: an escape-framed message made of `key=value`
//! fields and an opaque payload.

use vstd::prelude::*;
use crate::b64::{base64_encode, base64_len, base64_text, encodable};
use crate::bytes::{append_bytes, decimal, push_decimal};

verus! {

/// First byte of the opening and of the closing marker.
pub const ESC: u8 = 0x1b;

/// Second byte of the opening marker.
pub const APC_START: u8 = 0x5f;

/// Third byte of the opening marker: the graphics command letter `G`.
pub const APC_GRAPHICS: u8 = 0x47;

/// Joins a key to its value.
pub const EQUALS: u8 = 0x3d;

/// Separates two fields.
pub const COMMA: u8 = 0x2c;

/// Ends the field list and starts the payload.
pub const SEMICOLON: u8 = 0x3b;

/// Second byte of the closing marker.
pub const BACKSLASH: u8 = 0x5c;

/// The value of one control field.
#[derive(Debug, PartialEq, Eq)]
pub enum ControlValue {
    Str(String),
    U16(u16),
}

/// What a `ControlValue` holds, as mathematical data.
pub ghost enum FieldValue {
    Text(Seq<char>),
    Number(u16),
}

impl FieldValue {
    /// The bytes that stand for the value on the wire: text as UTF-8, a
    /// number in decimal.
    pub open spec fn bytes(self) -> Seq<u8> {
        match self {
            FieldValue::Text(s) => vstd::utf8::encode_utf8(s),
            FieldValue::Number(n) => decimal(n as nat),
        }
    }
}

impl View for ControlValue {
    type V = FieldValue;

    open spec fn view(&self) -> FieldValue {
        match self {
            ControlValue::Str(s) => FieldValue::Text(s@),
            ControlValue::U16(n) => FieldValue::Number(*n),
        }
    }
}

/// One field: its key and its value.
pub type Field = (Seq<char>, FieldValue);

/// A control message as mathematical data: the fields in the order in which
/// their keys were first added, and the payload.
pub ghost struct ApcView {
    pub fields: Seq<Field>,
    pub payload: Seq<u8>,
}

/// No key occurs twice.
pub open spec fn keys_unique(fields: Seq<Field>) -> bool {
    forall|i: int, j: int| 0 <= i < j < fields.len() ==> fields[i].0 != fields[j].0
}

/// Some field has this key.
pub open spec fn has_key(fields: Seq<Field>, key: Seq<char>) -> bool {
    exists|i: int| 0 <= i < fields.len() && #[trigger] fields[i].0 == key
}

/// Where the key stands, if some field has it.
pub open spec fn key_index(fields: Seq<Field>, key: Seq<char>) -> int {
    choose|i: int| 0 <= i < fields.len() && #[trigger] fields[i].0 == key
}

/// The value stored under the key, if any.
pub open spec fn lookup(fields: Seq<Field>, key: Seq<char>) -> Option<FieldValue> {
    if has_key(fields, key) {
        Some(fields[key_index(fields, key)].1)
    } else {
        None
    }
}

/// The fields after storing `value` under `key`: an existing key keeps its
/// place and takes the new value, a new key goes to the end.
pub open spec fn upsert(fields: Seq<Field>, key: Seq<char>, value: FieldValue) -> Seq<Field> {
    if has_key(fields, key) {
        fields.update(key_index(fields, key), (key, value))
    } else {
        fields.push((key, value))
    }
}

/// With distinct keys, the value found under a field's key is that field's.
pub proof fn lemma_lookup_at(fields: Seq<Field>, at: int)
    requires
        keys_unique(fields),
        0 <= at < fields.len(),
    ensures
        lookup(fields, fields[at].0) == Some(fields[at].1),
{
    let key = fields[at].0;
    assert(has_key(fields, key));
    let found = key_index(fields, key);
    if found < at {
        assert(fields[found].0 != fields[at].0);
    } else if at < found {
        assert(fields[at].0 != fields[found].0);
    }
}

/// Nothing is found under a key that no field has.
pub proof fn lemma_lookup_absent(fields: Seq<Field>, key: Seq<char>)
    requires
        forall|i: int| 0 <= i < fields.len() ==> (#[trigger] fields[i]).0 != key,
    ensures
        lookup(fields, key) is None,
{
}

/// Storing under a key that no field has appends the field.
pub proof fn lemma_upsert_new(fields: Seq<Field>, key: Seq<char>, value: FieldValue)
    requires
        forall|i: int| 0 <= i < fields.len() ==> (#[trigger] fields[i]).0 != key,
    ensures
        upsert(fields, key, value) == fields.push((key, value)),
        lookup(upsert(fields, key, value), key) == Some(value),
{
    let after = fields.push((key, value));
    assert(after[fields.len() as int].0 == key);
    let at = key_index(after, key);
    assert(at == fields.len()) by {
        if at < fields.len() {
            assert(fields[at].0 != key);
        }
    }
}

/// Storing under the key of the field at `at` replaces that field's value
/// and moves nothing.
pub proof fn lemma_upsert_existing(fields: Seq<Field>, at: int, value: FieldValue)
    requires
        keys_unique(fields),
        0 <= at < fields.len(),
    ensures
        upsert(fields, fields[at].0, value) == fields.update(at, (fields[at].0, value)),
        lookup(upsert(fields, fields[at].0, value), fields[at].0) == Some(value),
{
    let key = fields[at].0;
    assert(has_key(fields, key));
    let found = key_index(fields, key);
    assert(found == at) by {
        if found < at {
            assert(fields[found].0 != fields[at].0);
        } else if at < found {
            assert(fields[at].0 != fields[found].0);
        }
    }
    let after = fields.update(at, (key, value));
    assert(after[at].0 == key);
    let again = key_index(after, key);
    assert(again == at) by {
        if again != at {
            assert(after[again] == fields[again]);
            if again < at {
                assert(fields[again].0 != fields[at].0);
            } else {
                assert(fields[at].0 != fields[again].0);
            }
        }
    }
}

/// What is stored under a key is what is found under it afterwards.
pub proof fn lemma_upsert_stores(fields: Seq<Field>, key: Seq<char>, value: FieldValue)
    requires
        keys_unique(fields),
    ensures
        lookup(upsert(fields, key, value), key) == Some(value),
{
    if has_key(fields, key) {
        lemma_upsert_existing(fields, key_index(fields, key), value);
    } else {
        lemma_upsert_new(fields, key, value);
    }
}

/// Storing under one key leaves every other key as it was: present or
/// absent, and with the same value.
pub proof fn lemma_upsert_other(fields: Seq<Field>, key: Seq<char>, value: FieldValue, other: Seq<char>)
    requires
        keys_unique(fields),
        other != key,
    ensures
        has_key(upsert(fields, key, value), other) == has_key(fields, other),
        lookup(upsert(fields, key, value), other) == lookup(fields, other),
{
    let after = upsert(fields, key, value);
    lemma_upsert_unique(fields, key, value);
    if has_key(fields, other) {
        let at = key_index(fields, other);
        assert(after[at] == fields[at]);
        assert(after[at].0 == other);
        let found = key_index(after, other);
        assert(found == at) by {
            if found < at {
                assert(after[found].0 != after[at].0);
            } else if at < found {
                assert(after[at].0 != after[found].0);
            }
        }
    } else {
        if has_key(after, other) {
            let found = key_index(after, other);
            if found < fields.len() {
                assert(fields[found].0 == other || after[found].0 == key);
            }
            assert(false);
        }
    }
}

/// Storing a value keeps the keys distinct.
pub proof fn lemma_upsert_unique(fields: Seq<Field>, key: Seq<char>, value: FieldValue)
    requires
        keys_unique(fields),
    ensures
        keys_unique(upsert(fields, key, value)),
{
    let after = upsert(fields, key, value);
    if has_key(fields, key) {
        let at = key_index(fields, key);
        assert forall|i: int, j: int| 0 <= i < j < after.len() implies after[i].0 != after[j].0 by {
            assert(fields[i].0 != fields[j].0);
        }
    } else {
        assert forall|i: int, j: int| 0 <= i < j < after.len() implies after[i].0 != after[j].0 by {
            if j < fields.len() {
                assert(fields[i].0 != fields[j].0);
            } else {
                assert(fields[i].0 != key);
            }
        }
    }
}

/// One field on the wire: `key=value`.
pub open spec fn field_bytes(field: Field) -> Seq<u8> {
    vstd::utf8::encode_utf8(field.0) + seq![EQUALS] + field.1.bytes()
}

/// The field list on the wire: the fields in order, a comma between two
/// neighbours, nothing before the first or after the last.
pub open spec fn fields_bytes(fields: Seq<Field>) -> Seq<u8>
    decreases fields.len(),
{
    if fields.len() == 0 {
        Seq::empty()
    } else if fields.len() == 1 {
        field_bytes(fields[0])
    } else {
        fields_bytes(fields.drop_last()) + seq![COMMA] + field_bytes(fields.last())
    }
}

/// The opening marker.
pub open spec fn frame_prefix() -> Seq<u8> {
    seq![ESC, APC_START, APC_GRAPHICS]
}

/// The closing marker.
pub open spec fn frame_suffix() -> Seq<u8> {
    seq![ESC, BACKSLASH]
}

/// The whole message on the wire: opening marker, field list, semicolon,
/// payload, closing marker.
pub open spec fn frame(fields: Seq<Field>, payload: Seq<u8>) -> Seq<u8> {
    frame_prefix() + fields_bytes(fields) + seq![SEMICOLON] + payload + frame_suffix()
}

/// Every frame opens with the opening marker, carries the semicolon right
/// after the field list and closes with the closing marker, whatever the
/// fields and the payload are.
pub proof fn lemma_frame_shape(fields: Seq<Field>, payload: Seq<u8>)
    ensures
        frame(fields, payload).len() == 6 + fields_bytes(fields).len() + payload.len(),
        frame(fields, payload).subrange(0, 3) == frame_prefix(),
        frame(fields, payload)[3 + fields_bytes(fields).len() as int] == SEMICOLON,
        frame(fields, payload).subrange(
            4 + fields_bytes(fields).len() as int,
            4 + fields_bytes(fields).len() as int + payload.len() as int,
        ) == payload,
        frame(fields, payload).subrange(
            frame(fields, payload).len() - 2,
            frame(fields, payload).len() as int,
        ) == frame_suffix(),
{
}

/// With no field and no payload the frame is the opening marker, the
/// semicolon and the closing marker, six bytes in all.
pub proof fn lemma_empty_frame()
    ensures
        frame(Seq::empty(), Seq::empty()) == seq![
            ESC,
            APC_START,
            APC_GRAPHICS,
            SEMICOLON,
            ESC,
            BACKSLASH,
        ],
{
}

/// A control message under construction.
pub struct APC {
    control_data: Vec<(String, ControlValue)>,
    payload: Vec<u8>,
}

impl View for APC {
    type V = ApcView;

    closed spec fn view(&self) -> ApcView {
        ApcView {
            fields: Seq::new(
                self.control_data@.len(),
                |i: int| (self.control_data@[i].0@, self.control_data@[i].1@),
            ),
            payload: self.payload@,
        }
    }
}

impl APC {
    #[verifier::type_invariant]
    spec fn unique(&self) -> bool {
        keys_unique(self@.fields)
    }

    /// A message with no field and an empty payload.
    pub fn new() -> (apc: APC)
        ensures
            apc@.fields == Seq::<Field>::empty(),
            apc@.payload == Seq::<u8>::empty(),
    {
        APC { control_data: Vec::new(), payload: Vec::new() }
    }

    /// Stores `value` under the key `field`.
    pub fn add_control_field(&mut self, field: &str, value: ControlValue) -> (ret: &mut Self)
        ensures
            ret@.fields == upsert(old(self)@.fields, field@, value@),
            ret@.payload == old(self)@.payload,
            keys_unique(ret@.fields),
            *final(self) == *final(ret),
    {
        proof {
            use_type_invariant(&*self);
        }
        let key: String = field.to_owned();
        let ghost before = self@.fields;
        let mut fields: Vec<(String, ControlValue)> = Vec::new();
        core::mem::swap(&mut fields, &mut self.control_data);
        let n: usize = fields.len();
        let mut i: usize = 0;
        let mut found: bool = false;
        while i < n && !found
            invariant
                n == fields@.len(),
                i <= n,
                before == Seq::new(fields@.len(), |k: int| (fields@[k].0@, fields@[k].1@)),
                forall|j: int| 0 <= j < i ==> (#[trigger] before[j]).0 != key@,
                found ==> i < n && before[i as int].0 == key@,
            decreases n - i + if found { 0int } else { 1int },
        {
            if fields[i].0 == key {
                found = true;
            } else {
                i += 1;
            }
        }
        if found {
            assert(before[i as int].0 == key@);
            assert(has_key(before, key@));
            assert(key_index(before, key@) == i as int);
            fields.set(i, (key, value));
        } else {
            assert(!has_key(before, key@));
            fields.push((key, value));
        }
        assert(Seq::new(fields@.len(), |k: int| (fields@[k].0@, fields@[k].1@)) =~= upsert(
            before,
            field@,
            value@,
        ));
        proof {
            lemma_upsert_unique(before, field@, value@);
        }
        self.control_data = fields;
        self
    }

    /// Appends `data` to the payload.
    pub fn set_payload(&mut self, data: &[u8]) -> (ret: &mut Self)
        ensures
            ret@.fields == old(self)@.fields,
            ret@.payload == old(self)@.payload + data@,
            *final(self) == *final(ret),
    {
        proof {
            use_type_invariant(&*self);
        }
        let mut payload: Vec<u8> = Vec::new();
        core::mem::swap(&mut payload, &mut self.payload);
        append_bytes(&mut payload, data);
        self.payload = payload;
        self
    }

    /// Appends the base64 text of `data` to the payload.
    pub fn set_payload_base64(&mut self, data: &[u8]) -> (ret: &mut Self)
        requires
            encodable(data@.len()),
        ensures
            ret@.fields == old(self)@.fields,
            ret@.payload == old(self)@.payload + base64_text(data@),
            base64_text(data@).len() == base64_len(data@.len()),
            *final(self) == *final(ret),
    {
        proof {
            use_type_invariant(&*self);
        }
        let encoded: Vec<u8> = base64_encode(data);
        let mut payload: Vec<u8> = Vec::new();
        core::mem::swap(&mut payload, &mut self.payload);
        append_bytes(&mut payload, encoded.as_slice());
        self.payload = payload;
        self
    }

    /// The payload gathered so far.
    pub fn payload(&self) -> (bytes: &Vec<u8>)
        ensures
            bytes@ == self@.payload,
    {
        &self.payload
    }

    /// The value stored under the key `field`, if any.
    pub fn field(&self, field: &str) -> (value: Option<&ControlValue>)
        ensures
            match value {
                Some(v) => lookup(self@.fields, field@) == Some(v@),
                None => lookup(self@.fields, field@) is None,
            },
    {
        proof {
            use_type_invariant(self);
        }
        let key: String = field.to_owned();
        let n: usize = self.control_data.len();
        let mut i: usize = 0;
        while i < n
            invariant
                n == self.control_data@.len(),
                i <= n,
                key@ == field@,
                keys_unique(self@.fields),
                forall|j: int| 0 <= j < i ==> (#[trigger] self@.fields[j]).0 != key@,
            decreases n - i,
        {
            if self.control_data[i].0 == key {
                proof {
                    assert(self@.fields[i as int].0 == key@);
                    lemma_lookup_at(self@.fields, i as int);
                }
                return Some(&self.control_data[i].1);
            }
            i += 1;
        }
        proof {
            lemma_lookup_absent(self@.fields, key@);
        }
        None
    }

    /// The message on the wire.
    pub fn get(&self) -> (data: Vec<u8>)
        ensures
            data@ == frame(self@.fields, self@.payload),
            keys_unique(self@.fields),
    {
        proof {
            use_type_invariant(self);
        }
        let mut data: Vec<u8> = Vec::new();
        data.push(ESC);
        data.push(APC_START);
        data.push(APC_GRAPHICS);
        let n: usize = self.control_data.len();
        let mut i: usize = 0;
        while i < n
            invariant
                n == self.control_data@.len(),
                i <= n,
                data@ == frame_prefix() + fields_bytes(self@.fields.subrange(0, i as int)),
            decreases n - i,
        {
            let ghost done = self@.fields.subrange(0, i as int);
            let ghost next = self@.fields.subrange(0, i + 1);
            let ghost before = data@;
            if i > 0 {
                data.push(COMMA);
            }
            let ghost joined = data@;
            append_bytes(&mut data, self.control_data[i].0.as_str().as_bytes());
            data.push(EQUALS);
            match &self.control_data[i].1 {
                ControlValue::Str(s) => {
                    append_bytes(&mut data, s.as_str().as_bytes());
                },
                ControlValue::U16(v) => {
                    push_decimal(&mut data, *v as u64);
                },
            }
            proof {
                assert(next.drop_last() == done);
                assert(next.last() == self@.fields[i as int]);
                assert(data@ == joined + field_bytes(next.last()));
                if i > 0 {
                    assert(joined == before + seq![COMMA]);
                    assert(data@ == frame_prefix() + (fields_bytes(done) + seq![COMMA]
                        + field_bytes(next.last())));
                } else {
                    assert(done.len() == 0);
                    assert(fields_bytes(done) == Seq::<u8>::empty());
                    assert(data@ == frame_prefix() + field_bytes(next.last()));
                }
            }
            i += 1;
        }
        assert(self@.fields.subrange(0, n as int) == self@.fields);
        data.push(SEMICOLON);
        append_bytes(&mut data, self.payload.as_slice());
        data.push(ESC);
        data.push(BACKSLASH);
        assert(data@ == frame(self@.fields, self@.payload));
        data
    }
}

} // verus!
