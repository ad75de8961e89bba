//! Reading a frame back: the inverse of the control-message codec. The
//! terminal is the only reader that matters; this one is for checking what
//! was written.

use vstd::prelude::*;
use crate::apc::{
    field_bytes, fields_bytes, frame, frame_prefix, frame_suffix, Field, APC_GRAPHICS, APC_START,
    BACKSLASH, COMMA, EQUALS, ESC, SEMICOLON,
};
use crate::bytes::{find_byte, lemma_span_is, span};

verus! {

/// A field as it stands on the wire: the bytes of its key and of its value.
pub type RawField = (Seq<u8>, Seq<u8>);

/// A message read back from the wire.
pub ghost struct RawMessage {
    pub fields: Seq<RawField>,
    pub payload: Seq<u8>,
}

/// A message read back from the wire: the fields in wire order, each as
/// the bytes of its key and of its value, and the payload.
#[derive(Debug, PartialEq, Eq)]
pub struct Decoded {
    pub fields: Vec<(Vec<u8>, Vec<u8>)>,
    pub payload: Vec<u8>,
}

/// The fields in a vector, as mathematical data.
pub open spec fn raw_views(fields: Seq<(Vec<u8>, Vec<u8>)>) -> Seq<RawField> {
    Seq::new(fields.len(), |i: int| (fields[i].0@, fields[i].1@))
}

impl View for Decoded {
    type V = RawMessage;

    open spec fn view(&self) -> RawMessage {
        RawMessage { fields: raw_views(self.fields@), payload: self.payload@ }
    }
}

/// The fields as they stand on the wire.
pub open spec fn raw_fields(fields: Seq<Field>) -> Seq<RawField> {
    Seq::new(fields.len(), |i: int| (vstd::utf8::encode_utf8(fields[i].0), fields[i].1.bytes()))
}

/// One item of a field list read back: the key is what stands before the
/// first equals sign, the value what stands after it. An item without an
/// equals sign is no field.
pub open spec fn parse_field(item: Seq<u8>) -> Option<RawField> {
    let k = span(item, EQUALS);
    if k < item.len() {
        Some((item.subrange(0, k as int), item.subrange(k as int + 1, item.len() as int)))
    } else {
        None
    }
}

/// A non-empty field list read back: its items are what the commas
/// separate, and each item must be a field.
pub open spec fn parse_fields(header: Seq<u8>) -> Option<Seq<RawField>>
    decreases header.len(),
{
    let n = span(header, COMMA);
    match parse_field(header.subrange(0, n as int)) {
        Some(field) => if n < header.len() {
            match parse_fields(header.subrange(n as int + 1, header.len() as int)) {
                Some(rest) => Some(seq![field] + rest),
                None => None,
            }
        } else {
            Some(seq![field])
        },
        None => None,
    }
}

/// A frame read back.
///
/// A frame has the opening marker, then a body, then the closing marker.
/// The body's first semicolon ends the field list; what follows it is the
/// payload. An empty field list holds no field. Anything else is no
/// frame.
pub open spec fn parse(data: Seq<u8>) -> Option<RawMessage> {
    if data.len() >= 6 && data.subrange(0, 3) == frame_prefix() && data.subrange(
        data.len() - 2,
        data.len() as int,
    ) == frame_suffix() {
        let body = data.subrange(3, data.len() - 2);
        let cut = span(body, SEMICOLON);
        if cut < body.len() {
            let payload = body.subrange(cut as int + 1, body.len() as int);
            if cut == 0 {
                Some(RawMessage { fields: Seq::empty(), payload })
            } else {
                match parse_fields(body.subrange(0, cut as int)) {
                    Some(fields) => Some(RawMessage { fields, payload }),
                    None => None,
                }
            }
        } else {
            None
        }
    } else {
        None
    }
}

/// The bytes hold none of the given byte.
pub open spec fn free_of(bytes: Seq<u8>, stop: u8) -> bool {
    forall|k: int| 0 <= k < bytes.len() ==> bytes[k] != stop
}

/// A field that can be read back: its key holds no equals sign, and
/// neither key nor value holds a comma or a semicolon.
pub open spec fn plain_field(field: Field) -> bool {
    &&& free_of(vstd::utf8::encode_utf8(field.0), EQUALS)
    &&& free_of(vstd::utf8::encode_utf8(field.0), COMMA)
    &&& free_of(vstd::utf8::encode_utf8(field.0), SEMICOLON)
    &&& free_of(field.1.bytes(), COMMA)
    &&& free_of(field.1.bytes(), SEMICOLON)
}

/// Every field can be read back.
pub open spec fn plain(fields: Seq<Field>) -> bool {
    forall|i: int| 0 <= i < fields.len() ==> plain_field(#[trigger] fields[i])
}

/// A field list of two or more fields is its first field, a comma, and
/// the list of the others.
proof fn lemma_fields_bytes_front(fields: Seq<Field>)
    requires
        fields.len() >= 2,
    ensures
        fields_bytes(fields) == field_bytes(fields[0]) + seq![COMMA] + fields_bytes(
            fields.drop_first(),
        ),
    decreases fields.len(),
{
    let front = fields.drop_last();
    let back = fields.drop_first();
    let first = field_bytes(fields[0]);
    let last = field_bytes(fields.last());
    assert(fields_bytes(fields) == fields_bytes(front) + seq![COMMA] + last);
    if fields.len() == 2 {
        assert(front.len() == 1 && back.len() == 1);
        assert(front[0] == fields[0]);
        assert(back[0] == fields[1]);
        assert(fields.last() == fields[1]);
        assert(fields_bytes(front) == first);
        assert(fields_bytes(back) == last);
    } else {
        lemma_fields_bytes_front(front);
        let middle = back.drop_last();
        assert(front.drop_first() =~= middle);
        assert(front[0] == fields[0]);
        assert(back.last() == fields.last());
        assert(fields_bytes(front) == first + seq![COMMA] + fields_bytes(middle));
        assert(fields_bytes(back) == fields_bytes(middle) + seq![COMMA] + last);
        assert(fields_bytes(fields) =~= first + seq![COMMA] + fields_bytes(back));
    }
}

/// A plain field, on the wire, holds the equals sign first right after
/// its key, and no comma or semicolon; read back it is its key's and its
/// value's bytes.
proof fn lemma_plain_field(field: Field)
    requires
        plain_field(field),
    ensures
        free_of(field_bytes(field), COMMA),
        free_of(field_bytes(field), SEMICOLON),
        field_bytes(field).len() >= 1,
        parse_field(field_bytes(field)) == Some(
            (vstd::utf8::encode_utf8(field.0), field.1.bytes()),
        ),
{
    let key = vstd::utf8::encode_utf8(field.0);
    let value = field.1.bytes();
    let wire = field_bytes(field);
    assert(wire.len() == key.len() + 1 + value.len());
    assert forall|k: int| 0 <= k < wire.len() implies wire[k] != COMMA && wire[k] != SEMICOLON by {
        if k < key.len() {
            assert(wire[k] == key[k]);
        } else if k > key.len() {
            assert(wire[k] == value[k - key.len() - 1]);
        }
    }
    assert forall|k: int| 0 <= k < key.len() implies wire[k] != EQUALS by {
        assert(wire[k] == key[k]);
    }
    assert(wire[key.len() as int] == EQUALS);
    lemma_span_is(wire, EQUALS, key.len());
    assert(wire.subrange(0, key.len() as int) =~= key);
    assert(wire.subrange(key.len() as int + 1, wire.len() as int) =~= value);
}

/// A list of plain fields holds no semicolon.
proof fn lemma_plain_fields_free(fields: Seq<Field>)
    requires
        plain(fields),
    ensures
        free_of(fields_bytes(fields), SEMICOLON),
    decreases fields.len(),
{
    if fields.len() == 1 {
        lemma_plain_field(fields[0]);
    } else if fields.len() >= 2 {
        let front = fields.drop_last();
        assert forall|i: int| 0 <= i < front.len() implies plain_field(#[trigger] front[i]) by {
            assert(front[i] == fields[i]);
        }
        lemma_plain_fields_free(front);
        lemma_plain_field(fields.last());
        let a = fields_bytes(front);
        let b = field_bytes(fields.last());
        let all = fields_bytes(fields);
        assert forall|k: int| 0 <= k < all.len() implies all[k] != SEMICOLON by {
            if k < a.len() {
                assert(all[k] == a[k]);
            } else if k > a.len() {
                assert(all[k] == b[k - a.len() - 1]);
            }
        }
    }
}

/// A non-empty list of plain fields, read back, gives the fields' keys and
/// values in order.
proof fn lemma_parse_fields(fields: Seq<Field>)
    requires
        fields.len() >= 1,
        plain(fields),
    ensures
        fields_bytes(fields).len() >= 1,
        parse_fields(fields_bytes(fields)) == Some(raw_fields(fields)),
    decreases fields.len(),
{
    let first = field_bytes(fields[0]);
    lemma_plain_field(fields[0]);
    if fields.len() == 1 {
        let header = fields_bytes(fields);
        assert(header == first);
        lemma_span_is(header, COMMA, header.len());
        assert(header.subrange(0, header.len() as int) =~= header);
        assert(raw_fields(fields) =~= seq![
            (vstd::utf8::encode_utf8(fields[0].0), fields[0].1.bytes()),
        ]);
    } else {
        let rest = fields.drop_first();
        assert forall|i: int| 0 <= i < rest.len() implies plain_field(#[trigger] rest[i]) by {
            assert(rest[i] == fields[i + 1]);
        }
        lemma_parse_fields(rest);
        lemma_fields_bytes_front(fields);
        let header = fields_bytes(fields);
        let tail = fields_bytes(rest);
        assert(header == first + seq![COMMA] + tail);
        assert forall|k: int| 0 <= k < first.len() implies header[k] != COMMA by {
            assert(header[k] == first[k]);
        }
        assert(header[first.len() as int] == COMMA);
        lemma_span_is(header, COMMA, first.len());
        assert(header.subrange(0, first.len() as int) =~= first);
        assert(header.subrange(first.len() as int + 1, header.len() as int) =~= tail);
        assert(raw_fields(fields) =~= seq![
            (vstd::utf8::encode_utf8(fields[0].0), fields[0].1.bytes()),
        ] + raw_fields(rest));
    }
}

/// Reading back what was written gives what was meant: the frame of plain
/// fields and any payload reads back as those fields' keys and values, in
/// order, and that payload. In particular the frame of no field and an
/// empty payload reads back as no field and an empty payload.
pub proof fn lemma_parse_frame(fields: Seq<Field>, payload: Seq<u8>)
    requires
        plain(fields),
    ensures
        parse(frame(fields, payload)) == Some(
            RawMessage { fields: raw_fields(fields), payload },
        ),
{
    let data = frame(fields, payload);
    let header = fields_bytes(fields);
    assert(data.len() == 6 + header.len() + payload.len());
    assert(data.subrange(0, 3) =~= frame_prefix());
    assert(data.subrange(data.len() - 2, data.len() as int) =~= frame_suffix());
    let body = data.subrange(3, data.len() - 2);
    assert(body =~= header + seq![SEMICOLON] + payload);
    lemma_plain_fields_free(fields);
    assert forall|k: int| 0 <= k < header.len() implies body[k] != SEMICOLON by {
        assert(body[k] == header[k]);
    }
    assert(body[header.len() as int] == SEMICOLON);
    lemma_span_is(body, SEMICOLON, header.len());
    assert(body.subrange(header.len() as int + 1, body.len() as int) =~= payload);
    assert(body.subrange(0, header.len() as int) =~= header);
    if fields.len() == 0 {
        assert(raw_fields(fields) =~= Seq::<RawField>::empty());
    } else {
        lemma_parse_fields(fields);
    }
}

/// What reading a field list gives when its first fields are `done` and
/// the rest of it reads as `rest`.
pub open spec fn continued(done: Seq<RawField>, rest: Option<Seq<RawField>>) -> Option<
    Seq<RawField>,
> {
    match rest {
        Some(r) => Some(done + r),
        None => None,
    }
}

/// Reads the fields of a non-empty field list.
fn decode_fields(header: &[u8]) -> (fields: Option<Vec<(Vec<u8>, Vec<u8>)>>)
    ensures
        match fields {
            Some(f) => parse_fields(header@) == Some(raw_views(f@)),
            None => parse_fields(header@) is None,
        },
{
    let len: usize = header.len();
    let mut fields: Vec<(Vec<u8>, Vec<u8>)> = Vec::new();
    let mut start: usize = 0;
    proof {
        assert(header@.subrange(0, len as int) =~= header@);
        match parse_fields(header@) {
            Some(all) => {
                assert(raw_views(fields@) + all =~= all);
            },
            None => {},
        }
    }
    loop
        invariant
            len == header@.len(),
            start <= len,
            parse_fields(header@) == continued(
                raw_views(fields@),
                parse_fields(header@.subrange(start as int, len as int)),
            ),
        decreases len - start,
    {
        let rest: &[u8] = vstd::slice::slice_subrange(header, start, len);
        let n: usize = find_byte(rest, COMMA);
        let item: &[u8] = vstd::slice::slice_subrange(rest, 0, n);
        let k: usize = find_byte(item, EQUALS);
        if k == item.len() {
            return None;
        }
        let key: Vec<u8> = vstd::slice::slice_to_vec(vstd::slice::slice_subrange(item, 0, k));
        let value: Vec<u8> = vstd::slice::slice_to_vec(vstd::slice::slice_subrange(item, k + 1, n));
        let ghost done = raw_views(fields@);
        let ghost field = (key@, value@);
        fields.push((key, value));
        assert(raw_views(fields@) =~= done + seq![field]);
        if n == len - start {
            return Some(fields);
        }
        proof {
            let next = rest@.subrange(n as int + 1, rest@.len() as int);
            assert(next =~= header@.subrange(start + n + 1, len as int));
            match parse_fields(next) {
                Some(r) => {
                    assert(done + (seq![field] + r) =~= raw_views(fields@) + r);
                },
                None => {},
            }
        }
        start = start + n + 1;
    }
}

/// Reads a frame back.
pub fn decode(data: &[u8]) -> (message: Option<Decoded>)
    ensures
        match message {
            Some(m) => parse(data@) == Some(m@),
            None => parse(data@) is None,
        },
{
    let len: usize = data.len();
    if len < 6 {
        return None;
    }
    if data[0] != ESC || data[1] != APC_START || data[2] != APC_GRAPHICS {
        assert(data@.subrange(0, 3)[0] == data@[0]);
        assert(data@.subrange(0, 3)[1] == data@[1]);
        assert(data@.subrange(0, 3)[2] == data@[2]);
        return None;
    }
    assert(data@.subrange(0, 3) =~= frame_prefix());
    if data[len - 2] != ESC || data[len - 1] != BACKSLASH {
        assert(data@.subrange(len - 2, len as int)[0] == data@[len - 2]);
        assert(data@.subrange(len - 2, len as int)[1] == data@[len - 1]);
        return None;
    }
    assert(data@.subrange(len - 2, len as int) =~= frame_suffix());
    let body: &[u8] = vstd::slice::slice_subrange(data, 3, len - 2);
    let cut: usize = find_byte(body, SEMICOLON);
    if cut == body.len() {
        return None;
    }
    let payload: Vec<u8> = vstd::slice::slice_to_vec(
        vstd::slice::slice_subrange(body, cut + 1, body.len()),
    );
    if cut == 0 {
        let fields: Vec<(Vec<u8>, Vec<u8>)> = Vec::new();
        assert(raw_views(fields@) =~= Seq::<RawField>::empty());
        return Some(Decoded { fields, payload });
    }
    match decode_fields(vstd::slice::slice_subrange(body, 0, cut)) {
        Some(fields) => Some(Decoded { fields, payload }),
        None => None,
    }
}

} // verus!
