//! The transmission strategy: the fields that describe a transfer, the
//! medium it travels by, and the splitting of large payloads into chunks.

use vstd::prelude::*;
use crate::apc::{keys_unique, lookup, upsert, ApcView, ControlValue, Field, FieldValue, APC};
use crate::b64::{base64_encode, base64_len, base64_text, encodable};
use crate::decode::{plain, plain_field};

verus! {

/// Most payload bytes that one message carries.
pub const CHUNK_SIZE: usize = 4096;

/// The keys of the protocol's control fields.
#[derive(Debug, Clone, Copy, PartialEq, Eq, Structural)]
pub enum Key {
    /// `a`: what the terminal is to do.
    Action,
    /// `t`: the medium the data travels by.
    Medium,
    /// `f`: the pixel format code.
    Format,
    /// `s`: width in pixels.
    Width,
    /// `v`: height in pixels.
    Height,
    /// `m`: whether more chunks follow.
    More,
    /// `i`: the image identifier.
    Id,
    /// `r`: rows to display over.
    Rows,
    /// `c`: columns to display over.
    Columns,
}

impl Key {
    /// The letter that stands for the key on the wire.
    pub open spec fn letter(self) -> char {
        match self {
            Key::Action => 'a',
            Key::Medium => 't',
            Key::Format => 'f',
            Key::Width => 's',
            Key::Height => 'v',
            Key::More => 'm',
            Key::Id => 'i',
            Key::Rows => 'r',
            Key::Columns => 'c',
        }
    }

    /// The key as text: its one letter.
    pub open spec fn text(self) -> Seq<char> {
        seq![self.letter()]
    }

    /// The key as text.
    pub fn name(self) -> (s: &'static str)
        ensures
            s@ == self.text(),
    {
        let s: &'static str = match self {
            Key::Action => {
                proof {
                    reveal_strlit("a");
                }
                "a"
            },
            Key::Medium => {
                proof {
                    reveal_strlit("t");
                }
                "t"
            },
            Key::Format => {
                proof {
                    reveal_strlit("f");
                }
                "f"
            },
            Key::Width => {
                proof {
                    reveal_strlit("s");
                }
                "s"
            },
            Key::Height => {
                proof {
                    reveal_strlit("v");
                }
                "v"
            },
            Key::More => {
                proof {
                    reveal_strlit("m");
                }
                "m"
            },
            Key::Id => {
                proof {
                    reveal_strlit("i");
                }
                "i"
            },
            Key::Rows => {
                proof {
                    reveal_strlit("r");
                }
                "r"
            },
            Key::Columns => {
                proof {
                    reveal_strlit("c");
                }
                "c"
            },
        };
        assert(s@ =~= self.text());
        s
    }
}

/// How the pixel data is encoded.
#[derive(Debug, Clone, Copy, PartialEq, Eq, Structural)]
pub enum DataFormat {
    Png,
    RGB,
    RGBA,
}

impl DataFormat {
    /// The protocol's code for the format.
    pub open spec fn code(self) -> u16 {
        match self {
            DataFormat::Png => 100,
            DataFormat::RGB => 24,
            DataFormat::RGBA => 32,
        }
    }
}

/// The field value that announces a pixel format.
pub fn get_data_format(fmt: DataFormat) -> (value: ControlValue)
    ensures
        value@ == FieldValue::Number(fmt.code()),
{
    ControlValue::U16(
        match fmt {
            DataFormat::Png => 100u16,
            DataFormat::RGB => 24u16,
            DataFormat::RGBA => 32u16,
        },
    )
}

/// What the terminal is asked to do with the data.
#[derive(Debug, Clone, Copy, PartialEq, Eq, Structural)]
pub enum Action {
    Query,
    ImmediatelyShow,
    Placement,
}

impl Action {
    /// The protocol's letter for the action.
    pub open spec fn letter(self) -> char {
        match self {
            Action::Query => 'q',
            Action::ImmediatelyShow => 'T',
            Action::Placement => 'p',
        }
    }

    /// The field value that announces the action.
    pub fn value(self) -> (value: ControlValue)
        ensures
            value@ == FieldValue::Text(seq![self.letter()]),
    {
        let s: &'static str = match self {
            Action::Query => {
                proof {
                    reveal_strlit("q");
                }
                "q"
            },
            Action::ImmediatelyShow => {
                proof {
                    reveal_strlit("T");
                }
                "T"
            },
            Action::Placement => {
                proof {
                    reveal_strlit("p");
                }
                "p"
            },
        };
        assert(s@ =~= seq![self.letter()]);
        ControlValue::Str(s.to_owned())
    }
}

/// The medium the data travels by, with what the medium needs.
pub enum TransmissionType<'a> {
    /// The raw samples, inline, with the image's width and height.
    Direct(&'a [u8], (u16, u16)),
    /// The path of a file that holds the image.
    RegularFile(String),
    /// The path of a temporary file that holds the image.
    Temp(String),
    /// The name of a shared-memory object that holds the raw samples, with
    /// the image's width and height.
    SharedMemory(String, (u16, u16)),
}

/// A `TransmissionType` as mathematical data.
pub ghost enum Medium {
    Direct { data: Seq<u8>, width: u16, height: u16 },
    RegularFile { path: Seq<char> },
    Temp { path: Seq<char> },
    SharedMemory { name: Seq<char>, width: u16, height: u16 },
}

impl Medium {
    /// The protocol's letter for the medium.
    pub open spec fn letter(self) -> char {
        match self {
            Medium::Direct { .. } => 'd',
            Medium::RegularFile { .. } => 'f',
            Medium::Temp { .. } => 't',
            Medium::SharedMemory { .. } => 's',
        }
    }

    /// The bytes that are armoured into the payload: the samples for a
    /// direct transfer, else the path or name as UTF-8.
    pub open spec fn armoured(self) -> Seq<u8> {
        match self {
            Medium::Direct { data, .. } => data,
            Medium::RegularFile { path } => vstd::utf8::encode_utf8(path),
            Medium::Temp { path } => vstd::utf8::encode_utf8(path),
            Medium::SharedMemory { name, .. } => vstd::utf8::encode_utf8(name),
        }
    }
}

impl<'a> View for TransmissionType<'a> {
    type V = Medium;

    open spec fn view(&self) -> Medium {
        match self {
            TransmissionType::Direct(data, dims) => Medium::Direct {
                data: data@,
                width: dims.0,
                height: dims.1,
            },
            TransmissionType::RegularFile(path) => Medium::RegularFile { path: path@ },
            TransmissionType::Temp(path) => Medium::Temp { path: path@ },
            TransmissionType::SharedMemory(name, dims) => Medium::SharedMemory {
                name: name@,
                width: dims.0,
                height: dims.1,
            },
        }
    }
}

/// The message with `value` stored under `key`.
pub open spec fn set_field(message: ApcView, key: Key, value: FieldValue) -> ApcView {
    ApcView { fields: upsert(message.fields, key.text(), value), payload: message.payload }
}

/// The message with `bytes` appended to its payload.
pub open spec fn add_payload(message: ApcView, bytes: Seq<u8>) -> ApcView {
    ApcView { fields: message.fields, payload: message.payload + bytes }
}

/// Number of chunks that a text of `len` bytes is split into: `len / 4096`,
/// rounded up.
pub open spec fn chunk_count(len: nat) -> nat {
    (len + 4095) / 4096
}

/// The chunk at position `i`: the bytes from `4096 * i` up to the next
/// multiple of 4096, or to the end of the text if that comes first.
pub open spec fn chunk_at(text: Seq<u8>, i: int) -> Seq<u8> {
    text.subrange(
        4096 * i,
        if 4096 * (i + 1) <= text.len() {
            4096 * (i + 1)
        } else {
            text.len() as int
        },
    )
}

/// The more-chunks flag of the chunk at position `i` out of `count`: 1 on
/// every chunk but the last, 0 on the last.
pub open spec fn more_flag(i: int, count: nat) -> u16 {
    if i + 1 < count {
        1
    } else {
        0
    }
}

/// A message after the first of a chunked transfer: the more-chunks flag
/// and the chunk, nothing else.
pub open spec fn follow_up(text: Seq<u8>, i: int) -> ApcView {
    ApcView {
        fields: seq![(Key::More.text(), FieldValue::Number(more_flag(i, chunk_count(text.len()))))],
        payload: chunk_at(text, i),
    }
}

/// The messages after the first of a chunked transfer of `text`.
pub open spec fn follow_ups(text: Seq<u8>) -> Seq<ApcView> {
    Seq::new((chunk_count(text.len()) - 1) as nat, |j: int| follow_up(text, j + 1))
}

/// The payloads of the messages, joined in order.
pub open spec fn joined_payloads(messages: Seq<ApcView>) -> Seq<u8>
    decreases messages.len(),
{
    if messages.len() == 0 {
        Seq::empty()
    } else {
        joined_payloads(messages.drop_last()) + messages.last().payload
    }
}

/// The fields that describe an inline image: format, action, the direct
/// medium, width and height, in this order.
pub open spec fn direct_fields(format: DataFormat, action: Action, width: u16, height: u16) -> Seq<
    Field,
> {
    seq![
        (Key::Format.text(), FieldValue::Number(format.code())),
        (Key::Action.text(), FieldValue::Text(seq![action.letter()])),
        (Key::Medium.text(), FieldValue::Text(seq!['d'])),
        (Key::Width.text(), FieldValue::Number(width)),
        (Key::Height.text(), FieldValue::Number(height)),
    ]
}

/// The messages that carry an inline image whose base64 text is `text`.
///
/// A text shorter than 4096 bytes travels in one message that has the
/// describing fields and the image identifier, and no more-chunks flag. A
/// longer text is cut into chunks of 4096 bytes: the first message has the
/// describing fields, the flag, the identifier and the first chunk; each
/// later message has the flag and its chunk only.
pub open spec fn direct_plan(
    format: DataFormat,
    action: Action,
    width: u16,
    height: u16,
    id: u16,
    text: Seq<u8>,
) -> Seq<ApcView> {
    let described = direct_fields(format, action, width, height);
    if text.len() < 4096 {
        seq![
            ApcView {
                fields: described.push((Key::Id.text(), FieldValue::Number(id))),
                payload: text,
            },
        ]
    } else {
        seq![
            ApcView {
                fields: described.push(
                    (
                        Key::More.text(),
                        FieldValue::Number(more_flag(0, chunk_count(text.len()))),
                    ),
                ).push((Key::Id.text(), FieldValue::Number(id))),
                payload: chunk_at(text, 0),
            },
        ] + follow_ups(text)
    }
}

/// The more-chunks flag that a message carries, if any.
pub open spec fn flag_of(message: ApcView) -> Option<FieldValue> {
    lookup(message.fields, Key::More.text())
}

/// Two keys with the same text are the same key.
pub proof fn lemma_key_text_injective(a: Key, b: Key)
    ensures
        a.text() == b.text() <==> a == b,
{
    assert(a.text()[0] == a.letter());
    assert(b.text()[0] == b.letter());
}

/// One ASCII letter, as text, is its one byte on the wire.
pub proof fn lemma_letter_bytes(c: char)
    requires
        'A' <= c <= 'Z' || 'a' <= c <= 'z',
    ensures
        vstd::utf8::encode_utf8(seq![c]) == seq![c as u8],
{
    let chars = seq![c];
    assert(vstd::utf8::is_ascii_chars(chars));
    vstd::utf8::is_ascii_chars_encode_utf8(chars);
    assert(chars[0] == c);
    assert(vstd::utf8::encode_utf8(chars) =~= seq![c as u8]);
}

/// A field of the protocol whose value is a number can be read back.
pub proof fn lemma_number_field_plain(key: Key, n: u16)
    ensures
        plain_field((key.text(), FieldValue::Number(n))),
{
    lemma_letter_bytes(key.letter());
    crate::bytes::lemma_decimal_digits(n as nat);
}

/// A field of the protocol whose value is one ASCII letter can be read
/// back.
pub proof fn lemma_letter_field_plain(key: Key, c: char)
    requires
        'A' <= c <= 'Z' || 'a' <= c <= 'z',
    ensures
        plain_field((key.text(), FieldValue::Text(seq![c]))),
{
    lemma_letter_bytes(key.letter());
    lemma_letter_bytes(c);
}

/// Every message of an inline transfer can be read back: all its fields
/// are plain.
pub proof fn lemma_direct_plan_plain(
    format: DataFormat,
    action: Action,
    width: u16,
    height: u16,
    id: u16,
    text: Seq<u8>,
)
    ensures
        forall|i: int|
            0 <= i < direct_plan(format, action, width, height, id, text).len() ==> plain(
                (#[trigger] direct_plan(format, action, width, height, id, text)[i]).fields,
            ),
{
    let plan = direct_plan(format, action, width, height, id, text);
    let count = chunk_count(text.len());
    lemma_number_field_plain(Key::Format, format.code());
    lemma_letter_field_plain(Key::Action, action.letter());
    lemma_letter_field_plain(Key::Medium, 'd');
    lemma_number_field_plain(Key::Width, width);
    lemma_number_field_plain(Key::Height, height);
    lemma_number_field_plain(Key::Id, id);
    lemma_number_field_plain(Key::More, 0);
    lemma_number_field_plain(Key::More, 1);
    assert forall|i: int| 0 <= i < plan.len() implies plain((#[trigger] plan[i]).fields) by {
        let fields = plan[i].fields;
        if i == 0 {
            assert forall|j: int| 0 <= j < fields.len() implies plain_field(
                #[trigger] fields[j],
            ) by {
                if text.len() < 4096 {
                    assert(j == 0 || j == 1 || j == 2 || j == 3 || j == 4 || j == 5);
                } else {
                    assert(j == 0 || j == 1 || j == 2 || j == 3 || j == 4 || j == 5 || j == 6);
                }
            }
        } else {
            assert(plan[i] == follow_ups(text)[i - 1]);
            assert(fields[0] == (
                Key::More.text(),
                FieldValue::Number(more_flag(i, count)),
            ));
        }
    }
}

/// The fields of the first message of an inline transfer have distinct keys.
pub proof fn lemma_direct_keys_unique(
    format: DataFormat,
    action: Action,
    width: u16,
    height: u16,
    id: u16,
    flag: u16,
)
    ensures
        keys_unique(direct_fields(format, action, width, height)),
        keys_unique(
            direct_fields(format, action, width, height).push(
                (Key::Id.text(), FieldValue::Number(id)),
            ),
        ),
        keys_unique(
            direct_fields(format, action, width, height).push(
                (Key::More.text(), FieldValue::Number(flag)),
            ).push((Key::Id.text(), FieldValue::Number(id))),
        ),
{
    lemma_key_text_injective(Key::Format, Key::Action);
    lemma_key_text_injective(Key::Format, Key::Medium);
    lemma_key_text_injective(Key::Format, Key::Width);
    lemma_key_text_injective(Key::Format, Key::Height);
    lemma_key_text_injective(Key::Format, Key::More);
    lemma_key_text_injective(Key::Format, Key::Id);
    lemma_key_text_injective(Key::Action, Key::Medium);
    lemma_key_text_injective(Key::Action, Key::Width);
    lemma_key_text_injective(Key::Action, Key::Height);
    lemma_key_text_injective(Key::Action, Key::More);
    lemma_key_text_injective(Key::Action, Key::Id);
    lemma_key_text_injective(Key::Medium, Key::Width);
    lemma_key_text_injective(Key::Medium, Key::Height);
    lemma_key_text_injective(Key::Medium, Key::More);
    lemma_key_text_injective(Key::Medium, Key::Id);
    lemma_key_text_injective(Key::Width, Key::Height);
    lemma_key_text_injective(Key::Width, Key::More);
    lemma_key_text_injective(Key::Width, Key::Id);
    lemma_key_text_injective(Key::Height, Key::More);
    lemma_key_text_injective(Key::Height, Key::Id);
    lemma_key_text_injective(Key::More, Key::Id);
}

/// A text shorter than 4096 bytes travels in exactly one message, which
/// carries the whole text and no more-chunks flag.
pub proof fn lemma_short_text_single_message(
    format: DataFormat,
    action: Action,
    width: u16,
    height: u16,
    id: u16,
    text: Seq<u8>,
)
    requires
        text.len() < 4096,
    ensures
        direct_plan(format, action, width, height, id, text).len() == 1,
        flag_of(direct_plan(format, action, width, height, id, text)[0]) is None,
        direct_plan(format, action, width, height, id, text)[0].payload == text,
{
    let fields = direct_plan(format, action, width, height, id, text)[0].fields;
    lemma_key_text_injective(Key::Format, Key::More);
    lemma_key_text_injective(Key::Action, Key::More);
    lemma_key_text_injective(Key::Medium, Key::More);
    lemma_key_text_injective(Key::Width, Key::More);
    lemma_key_text_injective(Key::Height, Key::More);
    lemma_key_text_injective(Key::Id, Key::More);
    crate::apc::lemma_lookup_absent(fields, Key::More.text());
}

/// The first `n` chunks of a text, joined in order.
pub open spec fn joined_chunks(text: Seq<u8>, n: nat) -> Seq<u8>
    decreases n,
{
    if n == 0 {
        Seq::empty()
    } else {
        joined_chunks(text, (n - 1) as nat) + chunk_at(text, n - 1)
    }
}

/// The first `n` chunks, joined, are the text up to the end of the last of
/// them.
pub proof fn lemma_joined_chunks_prefix(text: Seq<u8>, n: nat)
    requires
        n <= chunk_count(text.len()),
    ensures
        joined_chunks(text, n) == text.subrange(
            0,
            if 4096 * n <= text.len() {
                4096 * n as int
            } else {
                text.len() as int
            },
        ),
    decreases n,
{
    if n > 0 {
        lemma_joined_chunks_prefix(text, (n - 1) as nat);
        assert(joined_chunks(text, n) =~= text.subrange(
            0,
            if 4096 * n <= text.len() {
                4096 * n as int
            } else {
                text.len() as int
            },
        ));
    } else {
        assert(joined_chunks(text, n) =~= text.subrange(0, 0));
    }
}

/// Cutting a text into chunks loses nothing: all chunks joined in order
/// are the text.
pub proof fn lemma_chunks_reassemble(text: Seq<u8>)
    ensures
        joined_chunks(text, chunk_count(text.len())) == text,
{
    lemma_joined_chunks_prefix(text, chunk_count(text.len()));
    assert(text.subrange(0, text.len() as int) =~= text);
}

/// The payloads of the first `n` messages of a chunked transfer, joined,
/// are the first `n` chunks, joined.
proof fn lemma_plan_payloads(
    format: DataFormat,
    action: Action,
    width: u16,
    height: u16,
    id: u16,
    text: Seq<u8>,
    n: nat,
)
    requires
        text.len() >= 4096,
        n <= chunk_count(text.len()),
    ensures
        joined_payloads(direct_plan(format, action, width, height, id, text).subrange(0, n as int))
            == joined_chunks(text, n),
    decreases n,
{
    let plan = direct_plan(format, action, width, height, id, text);
    assert(plan.len() == chunk_count(text.len()));
    if n > 0 {
        lemma_plan_payloads(format, action, width, height, id, text, (n - 1) as nat);
        let part = plan.subrange(0, n as int);
        assert(part.drop_last() =~= plan.subrange(0, n - 1));
        assert(part.last() == plan[n - 1]);
        if n == 1 {
            assert(plan[0].payload == chunk_at(text, 0));
        } else {
            assert(plan[n - 1] == follow_ups(text)[n - 2]);
            assert(plan[n - 1].payload == chunk_at(text, n - 1));
        }
    }
}

/// A text of 4096 bytes or more travels in as many messages as it has
/// chunks, its length over 4096 rounded up. Every message but the last
/// carries the more-chunks flag 1, the last carries 0, and the payloads
/// joined in order are the text.
pub proof fn lemma_long_text_chunked(
    format: DataFormat,
    action: Action,
    width: u16,
    height: u16,
    id: u16,
    text: Seq<u8>,
)
    requires
        text.len() >= 4096,
    ensures
        direct_plan(format, action, width, height, id, text).len() == chunk_count(text.len()),
        chunk_count(text.len()) * 4096 >= text.len() > (chunk_count(text.len()) - 1) * 4096,
        forall|i: int|
            0 <= i < chunk_count(text.len()) - 1 ==> flag_of(
                #[trigger] direct_plan(format, action, width, height, id, text)[i],
            ) == Some(FieldValue::Number(1)),
        flag_of(direct_plan(format, action, width, height, id, text).last()) == Some(
            FieldValue::Number(0),
        ),
        forall|i: int|
            0 <= i < chunk_count(text.len()) ==> (#[trigger] direct_plan(
                format,
                action,
                width,
                height,
                id,
                text,
            )[i]).payload == chunk_at(text, i),
        joined_payloads(direct_plan(format, action, width, height, id, text)) == text,
{
    let plan = direct_plan(format, action, width, height, id, text);
    let count = chunk_count(text.len());
    assert(plan.len() == count);
    assert forall|i: int| 0 <= i < count implies flag_of(#[trigger] plan[i]) == Some(
        FieldValue::Number(more_flag(i, count)),
    ) && plan[i].payload == chunk_at(text, i) by {
        if i == 0 {
            lemma_direct_keys_unique(format, action, width, height, id, more_flag(0, count));
            let fields = plan[0].fields;
            assert(fields[5] == (Key::More.text(), FieldValue::Number(more_flag(0, count))));
            crate::apc::lemma_lookup_at(fields, 5);
        } else {
            assert(plan[i] == follow_ups(text)[i - 1]);
            let fields = plan[i].fields;
            assert(keys_unique(fields));
            crate::apc::lemma_lookup_at(fields, 0);
        }
    }
    lemma_plan_payloads(format, action, width, height, id, text, count);
    assert(plan.subrange(0, count as int) =~= plan);
    lemma_chunks_reassemble(text);
}

/// A transfer as mathematical data: the first message, the messages that
/// follow it, and the image identifier.
pub ghost struct TransmissionView {
    pub head: ApcView,
    pub chunks: Seq<ApcView>,
    pub id: u16,
}

/// The transfer after an armoured text is packaged for direct transfer.
///
/// The first message gets the letter of the direct medium under `t`, and
/// width and height under `s` and `v`. A text shorter than 4096 bytes is
/// appended to its payload whole. A longer text is cut into chunks of 4096
/// bytes: the first message gets the more-chunks flag and the first chunk,
/// and the messages that follow it are one for each later chunk.
pub open spec fn with_direct_text(t: TransmissionView, text: Seq<u8>, width: u16, height: u16) -> TransmissionView {
    let described = set_field(
        set_field(
            set_field(t.head, Key::Medium, FieldValue::Text(seq!['d'])),
            Key::Width,
            FieldValue::Number(width),
        ),
        Key::Height,
        FieldValue::Number(height),
    );
    if text.len() < 4096 {
        TransmissionView { head: add_payload(described, text), ..t }
    } else {
        TransmissionView {
            head: add_payload(
                set_field(
                    described,
                    Key::More,
                    FieldValue::Number(more_flag(0, chunk_count(text.len()))),
                ),
                chunk_at(text, 0),
            ),
            chunks: follow_ups(text),
            id: t.id,
        }
    }
}

/// The transfer after a medium is chosen.
///
/// Every medium stores its letter under `t`; the direct and the
/// shared-memory medium also store width and height under `s` and `v`.
/// A path or a name travels as base64 text in the first message's payload.
/// The samples of a direct transfer travel as base64 text too, packaged
/// as `with_direct_text` says.
pub open spec fn with_medium(t: TransmissionView, medium: Medium) -> TransmissionView {
    let text = base64_text(medium.armoured());
    let letter = FieldValue::Text(seq![medium.letter()]);
    match medium {
        Medium::Temp { .. } => TransmissionView {
            head: add_payload(set_field(t.head, Key::Medium, letter), text),
            ..t
        },
        Medium::RegularFile { .. } => TransmissionView {
            head: add_payload(set_field(t.head, Key::Medium, letter), text),
            ..t
        },
        Medium::SharedMemory { width, height, .. } => TransmissionView {
            head: add_payload(
                set_field(
                    set_field(
                        set_field(t.head, Key::Width, FieldValue::Number(width)),
                        Key::Height,
                        FieldValue::Number(height),
                    ),
                    Key::Medium,
                    letter,
                ),
                text,
            ),
            ..t
        },
        Medium::Direct { width, height, .. } => with_direct_text(t, text, width, height),
    }
}

/// The messages of a transfer, in the order in which they are sent: the
/// first message with the image identifier stored under `i`, then the
/// messages that follow it.
pub open spec fn message_list(t: TransmissionView) -> Seq<ApcView> {
    seq![set_field(t.head, Key::Id, FieldValue::Number(t.id))] + t.chunks
}

/// The messages in a vector, as mathematical data.
pub open spec fn views(messages: Seq<APC>) -> Seq<ApcView> {
    Seq::new(messages.len(), |i: int| messages[i]@)
}

/// Storing a field keeps the keys of a message distinct, is found again
/// under its key, and leaves what stands under every other key.
pub proof fn lemma_set_field(message: ApcView, key: Key, value: FieldValue, other: Key)
    requires
        keys_unique(message.fields),
    ensures
        keys_unique(set_field(message, key, value).fields),
        lookup(set_field(message, key, value).fields, key.text()) == Some(value),
        other != key ==> lookup(set_field(message, key, value).fields, other.text()) == lookup(
            message.fields,
            other.text(),
        ),
{
    crate::apc::lemma_upsert_unique(message.fields, key.text(), value);
    crate::apc::lemma_upsert_stores(message.fields, key.text(), value);
    if other != key {
        lemma_key_text_injective(other, key);
        crate::apc::lemma_upsert_other(message.fields, key.text(), value, other.text());
    }
}

/// The payloads of the first `n` messages of a chunked direct transfer,
/// joined, are what the first message held before, then the first `n`
/// chunks.
proof fn lemma_sent_payloads(sent: Seq<ApcView>, before: Seq<u8>, text: Seq<u8>, n: nat)
    requires
        text.len() >= 4096,
        sent.len() == chunk_count(text.len()),
        sent[0].payload == before + chunk_at(text, 0),
        forall|i: int| 1 <= i < sent.len() ==> (#[trigger] sent[i]).payload == chunk_at(text, i),
        1 <= n <= sent.len(),
    ensures
        joined_payloads(sent.subrange(0, n as int)) == before + joined_chunks(text, n),
    decreases n,
{
    let part = sent.subrange(0, n as int);
    assert(part.last() == sent[n - 1]);
    if n == 1 {
        assert(part.drop_last().len() == 0);
        assert(joined_payloads(part.drop_last()) == Seq::<u8>::empty());
        assert(joined_chunks(text, 0) == Seq::<u8>::empty());
        assert(joined_chunks(text, 1) =~= chunk_at(text, 0));
        assert(joined_payloads(part) =~= before + joined_chunks(text, 1));
    } else {
        lemma_sent_payloads(sent, before, text, (n - 1) as nat);
        assert(part.drop_last() =~= sent.subrange(0, n - 1));
        assert(joined_payloads(part) =~= before + joined_chunks(text, n));
    }
}

/// The chunking of any direct transfer, whatever fields the transfer had
/// before, so long as nothing was queued to follow its first message.
///
/// A text shorter than 4096 bytes travels in one message, which gets no
/// more-chunks flag. A longer text travels in as many messages as it has
/// chunks; every message but the last carries the flag 1, the last
/// carries 0, and the payloads joined in order are what the first message
/// held before, then the text.
pub proof fn lemma_direct_text(t: TransmissionView, text: Seq<u8>, width: u16, height: u16)
    requires
        keys_unique(t.head.fields),
        t.chunks.len() == 0,
    ensures
        ({
            let sent = message_list(with_direct_text(t, text, width, height));
            let count = chunk_count(text.len());
            &&& text.len() < 4096 ==> sent.len() == 1 && flag_of(sent[0]) == flag_of(t.head)
                && sent[0].payload == t.head.payload + text
            &&& text.len() >= 4096 ==> {
                &&& sent.len() == count
                &&& forall|i: int|
                    0 <= i < count - 1 ==> flag_of(#[trigger] sent[i]) == Some(
                        FieldValue::Number(1),
                    )
                &&& flag_of(sent.last()) == Some(FieldValue::Number(0))
                &&& joined_payloads(sent) == t.head.payload + text
            }
        }),
{
    let next = with_direct_text(t, text, width, height);
    let sent = message_list(next);
    let count = chunk_count(text.len());
    let m1 = set_field(t.head, Key::Medium, FieldValue::Text(seq!['d']));
    let m2 = set_field(m1, Key::Width, FieldValue::Number(width));
    let m3 = set_field(m2, Key::Height, FieldValue::Number(height));
    lemma_set_field(t.head, Key::Medium, FieldValue::Text(seq!['d']), Key::More);
    lemma_set_field(m1, Key::Width, FieldValue::Number(width), Key::More);
    lemma_set_field(m2, Key::Height, FieldValue::Number(height), Key::More);
    if text.len() < 4096 {
        let m4 = add_payload(m3, text);
        lemma_set_field(m4, Key::Id, FieldValue::Number(t.id), Key::More);
        assert(sent =~= seq![set_field(m4, Key::Id, FieldValue::Number(t.id))]);
    } else {
        let flag = FieldValue::Number(more_flag(0, count));
        let m4 = set_field(m3, Key::More, flag);
        lemma_set_field(m3, Key::More, flag, Key::Id);
        let m5 = add_payload(m4, chunk_at(text, 0));
        lemma_set_field(m5, Key::Id, FieldValue::Number(t.id), Key::More);
        assert(next.chunks == follow_ups(text));
        assert(sent.len() == count);
        assert(sent[0] == set_field(m5, Key::Id, FieldValue::Number(t.id)));
        assert(flag_of(sent[0]) == Some(flag));
        assert forall|i: int| 1 <= i < count implies flag_of(#[trigger] sent[i]) == Some(
            FieldValue::Number(more_flag(i, count)),
        ) && sent[i].payload == chunk_at(text, i) by {
            assert(sent[i] == follow_ups(text)[i - 1]);
            let fields = sent[i].fields;
            assert(keys_unique(fields));
            crate::apc::lemma_lookup_at(fields, 0);
        }
        lemma_sent_payloads(sent, t.head.payload, text, count);
        assert(sent.subrange(0, count as int) =~= sent);
        lemma_chunks_reassemble(text);
    }
}

/// A transfer under construction.
pub struct Transmission {
    apc: APC,
    chunks: Vec<APC>,
    id: u16,
}

impl View for Transmission {
    type V = TransmissionView;

    closed spec fn view(&self) -> TransmissionView {
        TransmissionView { head: self.apc@, chunks: views(self.chunks@), id: self.id }
    }
}

impl Transmission {
    /// A transfer with an empty first message, nothing to follow, and the
    /// image identifier 1.
    pub fn new() -> (t: Transmission)
        ensures
            t@.head.fields == Seq::<Field>::empty(),
            t@.head.payload == Seq::<u8>::empty(),
            t@.chunks == Seq::<ApcView>::empty(),
            t@.id == 1,
            keys_unique(t@.head.fields),
    {
        let t = Transmission { apc: APC::new(), chunks: Vec::new(), id: 1 };
        assert(t@.chunks =~= Seq::<ApcView>::empty());
        t
    }

    /// Packages an armoured text for direct transfer, with the image's
    /// width and height.
    pub fn direct_text(self, text: &[u8], dims: (u16, u16)) -> (next: Transmission)
        ensures
            next@ == with_direct_text(self@, text@, dims.0, dims.1),
            keys_unique(next@.head.fields),
    {
        let mut this = self;
        let w: u16 = dims.0;
        let h: u16 = dims.1;
        proof {
            reveal_strlit("d");
            assert("d"@ =~= seq!['d']);
        }
        let len: usize = text.len();
        this.apc.add_control_field(Key::Medium.name(), ControlValue::Str("d".to_owned()));
        this.apc.add_control_field(Key::Width.name(), ControlValue::U16(w));
        this.apc.add_control_field(Key::Height.name(), ControlValue::U16(h));
        if len < CHUNK_SIZE {
            this.apc.set_payload(text);
        } else {
            let count: usize = (len - 1) / CHUNK_SIZE + 1;
            assert(count == chunk_count(len as nat));
            let first_flag: u16 = if count > 1 {
                1
            } else {
                0
            };
            this.apc.add_control_field(Key::More.name(), ControlValue::U16(first_flag));
            this.apc.set_payload(vstd::slice::slice_subrange(text, 0, CHUNK_SIZE));
            let mut chunks: Vec<APC> = Vec::new();
            let mut i: usize = 1;
            while i < count
                invariant
                    1 <= i <= count,
                    len == text@.len(),
                    len >= 4096,
                    count == chunk_count(len as nat),
                    views(chunks@) =~= Seq::new(
                        (i - 1) as nat,
                        |j: int| follow_up(text@, j + 1),
                    ),
                decreases count - i,
            {
                let start: usize = i * CHUNK_SIZE;
                let end: usize = if len - start > CHUNK_SIZE {
                    start + CHUNK_SIZE
                } else {
                    len
                };
                let flag: u16 = if i + 1 < count {
                    1
                } else {
                    0
                };
                let mut apc = APC::new();
                apc.add_control_field(Key::More.name(), ControlValue::U16(flag));
                apc.set_payload(vstd::slice::slice_subrange(text, start, end));
                proof {
                    crate::apc::lemma_upsert_new(
                        Seq::<Field>::empty(),
                        Key::More.text(),
                        FieldValue::Number(flag),
                    );
                    assert(apc@.fields =~= follow_up(text@, i as int).fields);
                    assert(apc@.payload =~= follow_up(text@, i as int).payload);
                }
                let ghost before = views(chunks@);
                chunks.push(apc);
                assert(views(chunks@) =~= before.push(follow_up(text@, i as int)));
                i += 1;
            }
            this.chunks = chunks;
            assert(this@.chunks =~= follow_ups(text@));
        }
        this
    }

    /// Chooses the medium and packages what travels by it.
    pub fn transmission_type(self, t: TransmissionType) -> (next: Transmission)
        requires
            encodable(t@.armoured().len()),
        ensures
            next@ == with_medium(self@, t@),
            base64_text(t@.armoured()).len() == base64_len(t@.armoured().len()),
            keys_unique(next@.head.fields),
    {
        let mut this = self;
        let ghost medium = t@;
        let ghost letter = FieldValue::Text(seq![medium.letter()]);
        match t {
            TransmissionType::Temp(data) => {
                proof {
                    reveal_strlit("t");
                    assert("t"@ =~= seq!['t']);
                }
                this.apc.add_control_field(Key::Medium.name(), ControlValue::Str("t".to_owned()));
                this.apc.set_payload_base64(data.as_str().as_bytes());
            },
            TransmissionType::SharedMemory(name, (w, h)) => {
                proof {
                    reveal_strlit("s");
                    assert("s"@ =~= seq!['s']);
                }
                this.apc.add_control_field(Key::Width.name(), ControlValue::U16(w));
                this.apc.add_control_field(Key::Height.name(), ControlValue::U16(h));
                this.apc.add_control_field(Key::Medium.name(), ControlValue::Str("s".to_owned()));
                this.apc.set_payload_base64(name.as_str().as_bytes());
            },
            TransmissionType::Direct(data, dims) => {
                let encoded: Vec<u8> = base64_encode(data);
                this = this.direct_text(encoded.as_slice(), dims);
            },
            TransmissionType::RegularFile(file) => {
                proof {
                    reveal_strlit("f");
                    assert("f"@ =~= seq!['f']);
                }
                this.apc.add_control_field(Key::Medium.name(), ControlValue::Str("f".to_owned()));
                this.apc.set_payload_base64(file.as_str().as_bytes());
            },
        };
        this
    }

    /// Announces the pixel format under `f`.
    pub fn data_format(self, fmt: DataFormat) -> (next: Transmission)
        ensures
            next@ == (TransmissionView {
                head: set_field(self@.head, Key::Format, FieldValue::Number(fmt.code())),
                ..self@
            }),
            keys_unique(next@.head.fields),
    {
        let mut this = self;
        this.apc.add_control_field(Key::Format.name(), get_data_format(fmt));
        this
    }

    /// Announces the action under `a`.
    pub fn action(self, action: Action) -> (next: Transmission)
        ensures
            next@ == (TransmissionView {
                head: set_field(self@.head, Key::Action, FieldValue::Text(seq![action.letter()])),
                ..self@
            }),
            keys_unique(next@.head.fields),
    {
        let mut this = self;
        this.apc.add_control_field(Key::Action.name(), action.value());
        this
    }

    /// Announces the number of rows to display over under `r`.
    pub fn row(self, row: u16) -> (next: Transmission)
        ensures
            next@ == (TransmissionView {
                head: set_field(self@.head, Key::Rows, FieldValue::Number(row)),
                ..self@
            }),
            keys_unique(next@.head.fields),
    {
        let mut this = self;
        this.apc.add_control_field(Key::Rows.name(), ControlValue::U16(row));
        this
    }

    /// Announces the number of columns to display over under `c`.
    pub fn col(self, col: u16) -> (next: Transmission)
        ensures
            next@ == (TransmissionView {
                head: set_field(self@.head, Key::Columns, FieldValue::Number(col)),
                ..self@
            }),
            keys_unique(next@.head.fields),
    {
        let mut this = self;
        this.apc.add_control_field(Key::Columns.name(), ControlValue::U16(col));
        this
    }

    /// Finishes the transfer: stores the image identifier in the first
    /// message and hands out all messages in sending order.
    pub fn transfer(self) -> (messages: Vec<APC>)
        ensures
            views(messages@) == message_list(self@),
            keys_unique(messages@[0]@.fields),
    {
        let mut this = self;
        this.apc.add_control_field(Key::Id.name(), ControlValue::U16(this.id));
        let mut messages: Vec<APC> = Vec::new();
        messages.push(this.apc);
        let mut rest: Vec<APC> = this.chunks;
        messages.append(&mut rest);
        assert(views(messages@) =~= message_list(self@));
        messages
    }
}

} // verus!
