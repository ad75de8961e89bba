//! The escape-sequence graphics backend: how an image is packaged for the
//! terminal, where it is placed, how the terminal is asked what it
//! supports, and in which order the media are tried.

use vstd::prelude::*;
use crate::apc::{ApcView, Field, FieldValue, APC};
use crate::b64::{base64_encode, base64_text, encodable, is_encodable};
use crate::graphic::{
    reply_views, Capability, ProbeStep, ProbeStepView, RenderError, TerminalSize,
};
use crate::term::{acknowledgement, classify_reply, encode_all, wire};
use crate::transmission::{
    chunk_count, direct_fields, direct_plan, lemma_key_text_injective, more_flag, views, Action,
    DataFormat, Key, Transmission, TransmissionType,
};
use crate::utils::{has_alpha, ColorModel, PixelBuffer};

verus! {

/// The backend that speaks the escape-sequence graphics protocol.
pub struct Kitty;

/// Half of the pixels left over beside an image, rounded down; nothing
/// when the image is as wide as the terminal or wider.
pub open spec fn left_margin(term_width: u16, img_width: u32) -> int {
    if img_width >= term_width {
        0
    } else {
        (term_width - img_width) / 2
    }
}

/// Columns to move right so that the image is centred: the exact left
/// margin, half of what the image leaves free, over the exact width of a
/// cell, the terminal's pixel width over its columns, rounded down.
/// Nothing when the terminal has no width or the image leaves nothing free.
pub open spec fn column_offset(size: TerminalSize, img_width: u32) -> int {
    if size.width == 0 || img_width >= size.width {
        0
    } else {
        ((size.width - img_width) * size.cols) / (2 * size.width)
    }
}

/// The column offset never passes half of the terminal's columns.
pub proof fn lemma_column_offset_bound(size: TerminalSize, img_width: u32)
    ensures
        0 <= column_offset(size, img_width) <= size.cols / 2,
{
    if size.width != 0 && img_width < size.width {
        let w = size.width as int;
        let free = size.width - img_width;
        let c = size.cols as int;
        assert(0 <= (free * c) / (2 * w) <= c / 2) by (nonlinear_arith)
            requires
                0 < free <= w,
                0 <= c,
        ;
    }
}

/// Where the cursor goes before the image is drawn.
#[derive(Debug, Clone, Copy, PartialEq, Eq, Structural)]
pub enum CursorMove {
    /// To the given column of the given row.
    Goto { column: u16, row: u16 },
    /// To the start of the next line, then right by the given columns.
    NewlineThenRight { columns: u16 },
}

/// What is written to show an image: the column offset to centre it by,
/// when the terminal's size is known, and the messages in sending order.
pub struct Showing {
    pub offset: Option<u16>,
    pub messages: Vec<APC>,
}

/// The pixel format announced for a layout: RGBA when it carries alpha,
/// else RGB.
pub open spec fn pixel_format(color: ColorModel) -> DataFormat {
    if color.carries_alpha() {
        DataFormat::RGBA
    } else {
        DataFormat::RGB
    }
}

/// A dimension as the protocol's 16-bit field holds it.
pub open spec fn field_dimension(pixels: u32) -> u16 {
    (pixels % 0x1_0000) as u16
}

/// The offset that goes with a showing.
pub open spec fn showing_offset(size: Option<TerminalSize>, img_width: u32) -> Option<u16> {
    match size {
        Some(s) => Some(column_offset(s, img_width) as u16),
        None => None,
    }
}

/// Name of the shared-memory object that carries the samples.
pub open spec fn shared_object() -> Seq<char> {
    "__termimg_image_object__"@
}

/// The one message that announces an image held in shared memory: format,
/// action, width, height and the shared-memory medium, then the image
/// identifier, with the object's name as base64 text in the payload.
pub open spec fn shared_plan(
    format: DataFormat,
    action: Action,
    width: u16,
    height: u16,
    id: u16,
    name: Seq<char>,
) -> Seq<ApcView> {
    seq![
        ApcView {
            fields: seq![
                (Key::Format.text(), FieldValue::Number(format.code())),
                (Key::Action.text(), FieldValue::Text(seq![action.letter()])),
                (Key::Width.text(), FieldValue::Number(width)),
                (Key::Height.text(), FieldValue::Number(height)),
                (Key::Medium.text(), FieldValue::Text(seq!['s'])),
                (Key::Id.text(), FieldValue::Number(id)),
            ],
            payload: base64_text(vstd::utf8::encode_utf8(name)),
        },
    ]
}

/// The query for direct transfer: one white pixel, sent inline.
pub open spec fn direct_query_plan() -> Seq<ApcView> {
    seq![
        ApcView {
            fields: seq![
                (Key::Medium.text(), FieldValue::Text(seq!['d'])),
                (Key::Width.text(), FieldValue::Number(1)),
                (Key::Height.text(), FieldValue::Number(1)),
                (Key::Action.text(), FieldValue::Text(seq!['q'])),
                (Key::Format.text(), FieldValue::Number(24)),
                (Key::Id.text(), FieldValue::Number(1)),
            ],
            payload: base64_text(seq![255u8, 255u8, 255u8]),
        },
    ]
}

/// The query for shared-memory transfer: a one-pixel image in an object
/// named `__`.
pub open spec fn shared_mem_query_plan() -> Seq<ApcView> {
    seq![
        ApcView {
            fields: seq![
                (Key::Width.text(), FieldValue::Number(1)),
                (Key::Height.text(), FieldValue::Number(1)),
                (Key::Medium.text(), FieldValue::Text(seq!['s'])),
                (Key::Action.text(), FieldValue::Text(seq!['q'])),
                (Key::Format.text(), FieldValue::Number(24)),
                (Key::Id.text(), FieldValue::Number(1)),
            ],
            payload: base64_text(vstd::utf8::encode_utf8("__"@)),
        },
    ]
}

/// The query for transfer by file: a PNG at the path `<path>`.
pub open spec fn regular_file_query_plan() -> Seq<ApcView> {
    seq![
        ApcView {
            fields: seq![
                (Key::Medium.text(), FieldValue::Text(seq!['f'])),
                (Key::Action.text(), FieldValue::Text(seq!['q'])),
                (Key::Format.text(), FieldValue::Number(100)),
                (Key::Id.text(), FieldValue::Number(1)),
            ],
            payload: base64_text(vstd::utf8::encode_utf8("<path>"@)),
        },
    ]
}

/// Every two of the keys have different texts.
proof fn lemma_keys_distinct()
    ensures
        forall|a: Key, b: Key| #![trigger a.text(), b.text()] a.text() == b.text() <==> a == b,
{
    assert forall|a: Key, b: Key| #![trigger a.text(), b.text()] a.text() == b.text() <==> a
        == b by {
        lemma_key_text_injective(a, b);
    }
}

/// The length of a text's UTF-8 form is at most four times its length.
proof fn lemma_utf8_len(chars: Seq<char>)
    ensures
        vstd::utf8::encode_utf8(chars).len() <= 4 * chars.len(),
    decreases chars.len(),
{
    if chars.len() > 0 {
        lemma_utf8_len(chars.drop_first());
    }
}

/// Columns to move right so that an image of the given width is centred.
pub fn set_showing_position(size: TerminalSize, img_width: u32) -> (cell_index: u16)
    ensures
        cell_index == column_offset(size, img_width),
{
    if size.width == 0 || img_width >= size.width as u32 {
        return 0;
    }
    proof {
        lemma_column_offset_bound(size, img_width);
    }
    let free: u32 = size.width as u32 - img_width;
    assert(free * size.cols <= 0xffff * 0xffff) by (nonlinear_arith)
        requires
            free <= 0xffff,
            size.cols <= 0xffff,
    ;
    let index: u32 = (free * size.cols as u32) / (2 * size.width as u32);
    index as u16
}

/// Half of the pixels that the image leaves free, rounded down.
pub fn showing_margin(size: TerminalSize, img_width: u32) -> (margin: u16)
    ensures
        margin == left_margin(size.width, img_width),
{
    if img_width >= size.width as u32 {
        0
    } else {
        ((size.width as u32 - img_width) / 2) as u16
    }
}

/// Decides how the cursor is moved to the column `u`: straight there when
/// the cursor's position, as (column, row), could be read, keeping its
/// row; else by a new line and a move to the right.
pub fn horizontal_move(u: u16, position: Option<(u16, u16)>) -> (step: CursorMove)
    ensures
        step == match position {
            Some(p) => CursorMove::Goto { column: u, row: p.1 },
            None => CursorMove::NewlineThenRight { columns: u },
        },
{
    match position {
        Some((_, y)) => CursorMove::Goto { column: u, row: y },
        None => CursorMove::NewlineThenRight { columns: u },
    }
}

/// The pixel format announced for an image.
pub fn select_format(img: &PixelBuffer) -> (format: DataFormat)
    ensures
        format == pixel_format(img.color),
{
    if has_alpha(img) {
        DataFormat::RGBA
    } else {
        DataFormat::RGB
    }
}

/// Builds the messages that carry an image inline, given the base64 text
/// of its samples.
pub fn direct_messages(
    format: DataFormat,
    action: Action,
    width: u16,
    height: u16,
    text: &[u8],
) -> (messages: Vec<APC>)
    ensures
        views(messages@) == direct_plan(format, action, width, height, 1, text@),
{
    let start = Transmission::new();
    let described = start.data_format(format).action(action);
    let trans = described.direct_text(text, (width, height));
    let messages: Vec<APC> = trans.transfer();
    proof {
        let w = width;
        let h = height;
        let count = chunk_count(text@.len());
        lemma_keys_distinct();
        let f0 = Seq::<Field>::empty();
        let v_f = FieldValue::Number(format.code());
        let v_a = FieldValue::Text(seq![action.letter()]);
        let v_t = FieldValue::Text(seq!['d']);
        let v_s = FieldValue::Number(w);
        let v_v = FieldValue::Number(h);
        let v_m = FieldValue::Number(more_flag(0, count));
        let v_i = FieldValue::Number(1);
        crate::apc::lemma_upsert_new(f0, Key::Format.text(), v_f);
        let f1 = f0.push((Key::Format.text(), v_f));
        crate::apc::lemma_upsert_new(f1, Key::Action.text(), v_a);
        let f2 = f1.push((Key::Action.text(), v_a));
        crate::apc::lemma_upsert_new(f2, Key::Medium.text(), v_t);
        let f3 = f2.push((Key::Medium.text(), v_t));
        crate::apc::lemma_upsert_new(f3, Key::Width.text(), v_s);
        let f4 = f3.push((Key::Width.text(), v_s));
        crate::apc::lemma_upsert_new(f4, Key::Height.text(), v_v);
        let f5 = f4.push((Key::Height.text(), v_v));
        assert(f5 =~= direct_fields(format, action, w, h));
        if text@.len() < 4096 {
            crate::apc::lemma_upsert_new(f5, Key::Id.text(), v_i);
            assert(views(messages@) =~= direct_plan(format, action, w, h, 1, text@));
        } else {
            crate::apc::lemma_upsert_new(f5, Key::More.text(), v_m);
            let f6 = f5.push((Key::More.text(), v_m));
            crate::apc::lemma_upsert_new(f6, Key::Id.text(), v_i);
            assert(views(messages@) =~= direct_plan(format, action, w, h, 1, text@));
        }
    }
    messages
}

/// Packages an image for direct transfer.
///
/// Fails with `EncodeFailure` exactly when the samples are too many to be
/// armoured; else gives the centring offset and the messages of
/// `direct_plan` for the image's format, the show-at-once action, its
/// dimensions as 16-bit fields, the identifier 1 and the base64 text of
/// its samples.
pub fn show_by_direct_data(img: &PixelBuffer, size: Option<TerminalSize>) -> (shown: Result<
    Showing,
    RenderError,
>)
    ensures
        !encodable(img.samples@.len()) ==> shown == Err::<Showing, RenderError>(
            RenderError::EncodeFailure,
        ),
        encodable(img.samples@.len()) ==> (shown matches Ok(s) && s.offset == showing_offset(
            size,
            img.width,
        ) && views(s.messages@) == direct_plan(
            pixel_format(img.color),
            Action::ImmediatelyShow,
            field_dimension(img.width),
            field_dimension(img.height),
            1,
            base64_text(img.samples@),
        )),
{
    if !is_encodable(img.samples.len()) {
        return Err(RenderError::EncodeFailure);
    }
    let offset: Option<u16> = match size {
        Some(s) => Some(set_showing_position(s, img.width)),
        None => None,
    };
    let format: DataFormat = select_format(img);
    let w: u16 = (img.width % 0x1_0000) as u16;
    let h: u16 = (img.height % 0x1_0000) as u16;
    let text: Vec<u8> = base64_encode(img.samples.as_slice());
    let messages: Vec<APC> = direct_messages(format, Action::ImmediatelyShow, w, h, text.as_slice());
    Ok(Showing { offset, messages })
}

/// Name of the shared-memory object that carries the samples.
pub fn shared_object_name() -> (name: &'static str)
    ensures
        name@ == shared_object(),
{
    "__termimg_image_object__"
}

/// Packages an image for transfer through shared memory: the centring
/// offset and the one message of `shared_plan` for the image's format, the
/// show-at-once action, its dimensions as 16-bit fields, the identifier 1
/// and the object's name. The samples themselves are to be written to the
/// object of that name, created afresh, before the message is sent.
pub fn show_by_shared_memory(img: &PixelBuffer, size: Option<TerminalSize>) -> (shown: Showing)
    ensures
        shown.offset == showing_offset(size, img.width),
        views(shown.messages@) == shared_plan(
            pixel_format(img.color),
            Action::ImmediatelyShow,
            field_dimension(img.width),
            field_dimension(img.height),
            1,
            shared_object(),
        ),
{
    let offset: Option<u16> = match size {
        Some(s) => Some(set_showing_position(s, img.width)),
        None => None,
    };
    let format: DataFormat = select_format(img);
    let w: u16 = (img.width % 0x1_0000) as u16;
    let h: u16 = (img.height % 0x1_0000) as u16;
    let name: String = shared_object_name().to_owned();
    proof {
        reveal_strlit("__termimg_image_object__");
        lemma_utf8_len(name@);
    }
    let start = Transmission::new();
    let described = start.data_format(format).action(Action::ImmediatelyShow);
    let trans = described.transmission_type(TransmissionType::SharedMemory(name, (w, h)));
    let messages: Vec<APC> = trans.transfer();
    proof {
        lemma_keys_distinct();
        let f0 = Seq::<Field>::empty();
        let v_f = FieldValue::Number(format.code());
        let v_a = FieldValue::Text(seq![Action::ImmediatelyShow.letter()]);
        let v_t = FieldValue::Text(seq!['s']);
        let v_s = FieldValue::Number(w);
        let v_v = FieldValue::Number(h);
        let v_i = FieldValue::Number(1);
        crate::apc::lemma_upsert_new(f0, Key::Format.text(), v_f);
        let f1 = f0.push((Key::Format.text(), v_f));
        crate::apc::lemma_upsert_new(f1, Key::Action.text(), v_a);
        let f2 = f1.push((Key::Action.text(), v_a));
        crate::apc::lemma_upsert_new(f2, Key::Width.text(), v_s);
        let f3 = f2.push((Key::Width.text(), v_s));
        crate::apc::lemma_upsert_new(f3, Key::Height.text(), v_v);
        let f4 = f3.push((Key::Height.text(), v_v));
        crate::apc::lemma_upsert_new(f4, Key::Medium.text(), v_t);
        let f5 = f4.push((Key::Medium.text(), v_t));
        crate::apc::lemma_upsert_new(f5, Key::Id.text(), v_i);
        assert(views(messages@).len() == 1);
        assert(views(messages@)[0].fields =~= shared_plan(format, Action::ImmediatelyShow, w, h, 1, shared_object())[0].fields);
        assert(views(messages@)[0].payload =~= shared_plan(format, Action::ImmediatelyShow, w, h, 1, shared_object())[0].payload);
        assert(views(messages@) =~= shared_plan(
            format,
            Action::ImmediatelyShow,
            w,
            h,
            1,
            shared_object(),
        ));
    }
    Showing { offset, messages }
}

/// The query that asks whether the terminal takes transfers by file.
pub fn regular_file_query() -> (messages: Vec<APC>)
    ensures
        views(messages@) == regular_file_query_plan(),
{
    let path: String = "<path>".to_owned();
    proof {
        reveal_strlit("<path>");
        lemma_utf8_len(path@);
    }
    let trans = Transmission::new().transmission_type(TransmissionType::RegularFile(path)).action(
        Action::Query,
    ).data_format(DataFormat::Png);
    let messages: Vec<APC> = trans.transfer();
    proof {
        lemma_keys_distinct();
        let f0 = Seq::<Field>::empty();
        let v_t = FieldValue::Text(seq!['f']);
        let v_a = FieldValue::Text(seq!['q']);
        let v_f = FieldValue::Number(100);
        let v_i = FieldValue::Number(1);
        crate::apc::lemma_upsert_new(f0, Key::Medium.text(), v_t);
        let f1 = f0.push((Key::Medium.text(), v_t));
        crate::apc::lemma_upsert_new(f1, Key::Action.text(), v_a);
        let f2 = f1.push((Key::Action.text(), v_a));
        crate::apc::lemma_upsert_new(f2, Key::Format.text(), v_f);
        let f3 = f2.push((Key::Format.text(), v_f));
        crate::apc::lemma_upsert_new(f3, Key::Id.text(), v_i);
        assert(views(messages@).len() == 1);
        assert(views(messages@)[0].fields =~= regular_file_query_plan()[0].fields);
        assert(views(messages@)[0].payload =~= regular_file_query_plan()[0].payload);
        assert(views(messages@) =~= regular_file_query_plan());
    }
    messages
}

/// The query that asks whether the terminal takes direct transfers.
pub fn direct_query() -> (messages: Vec<APC>)
    ensures
        views(messages@) == direct_query_plan(),
{
    let pixel: [u8; 3] = [255, 255, 255];
    assert(pixel@ =~= seq![255u8, 255u8, 255u8]);
    let trans = Transmission::new().transmission_type(
        TransmissionType::Direct(pixel.as_slice(), (1, 1)),
    ).action(Action::Query).data_format(DataFormat::RGB);
    let messages: Vec<APC> = trans.transfer();
    proof {
        lemma_keys_distinct();
        let f0 = Seq::<Field>::empty();
        let v_t = FieldValue::Text(seq!['d']);
        let v_s = FieldValue::Number(1);
        let v_v = FieldValue::Number(1);
        let v_a = FieldValue::Text(seq!['q']);
        let v_f = FieldValue::Number(24);
        let v_i = FieldValue::Number(1);
        crate::apc::lemma_upsert_new(f0, Key::Medium.text(), v_t);
        let f1 = f0.push((Key::Medium.text(), v_t));
        crate::apc::lemma_upsert_new(f1, Key::Width.text(), v_s);
        let f2 = f1.push((Key::Width.text(), v_s));
        crate::apc::lemma_upsert_new(f2, Key::Height.text(), v_v);
        let f3 = f2.push((Key::Height.text(), v_v));
        crate::apc::lemma_upsert_new(f3, Key::Action.text(), v_a);
        let f4 = f3.push((Key::Action.text(), v_a));
        crate::apc::lemma_upsert_new(f4, Key::Format.text(), v_f);
        let f5 = f4.push((Key::Format.text(), v_f));
        crate::apc::lemma_upsert_new(f5, Key::Id.text(), v_i);
        assert(base64_text(pixel@).len() == 4);
        assert(views(messages@).len() == 1);
        assert(views(messages@)[0].fields =~= direct_query_plan()[0].fields);
        assert(views(messages@)[0].payload =~= direct_query_plan()[0].payload);
        assert(views(messages@) =~= direct_query_plan());
    }
    messages
}

/// The query that asks whether the terminal takes transfers through
/// shared memory.
pub fn shared_mem_query() -> (messages: Vec<APC>)
    ensures
        views(messages@) == shared_mem_query_plan(),
{
    let name: String = "__".to_owned();
    proof {
        reveal_strlit("__");
        lemma_utf8_len(name@);
    }
    let trans = Transmission::new().transmission_type(
        TransmissionType::SharedMemory(name, (1, 1)),
    ).action(Action::Query).data_format(DataFormat::RGB);
    let messages: Vec<APC> = trans.transfer();
    proof {
        lemma_keys_distinct();
        let f0 = Seq::<Field>::empty();
        let v_s = FieldValue::Number(1);
        let v_v = FieldValue::Number(1);
        let v_t = FieldValue::Text(seq!['s']);
        let v_a = FieldValue::Text(seq!['q']);
        let v_f = FieldValue::Number(24);
        let v_i = FieldValue::Number(1);
        crate::apc::lemma_upsert_new(f0, Key::Width.text(), v_s);
        let f1 = f0.push((Key::Width.text(), v_s));
        crate::apc::lemma_upsert_new(f1, Key::Height.text(), v_v);
        let f2 = f1.push((Key::Height.text(), v_v));
        crate::apc::lemma_upsert_new(f2, Key::Medium.text(), v_t);
        let f3 = f2.push((Key::Medium.text(), v_t));
        crate::apc::lemma_upsert_new(f3, Key::Action.text(), v_a);
        let f4 = f3.push((Key::Action.text(), v_a));
        crate::apc::lemma_upsert_new(f4, Key::Format.text(), v_f);
        let f5 = f4.push((Key::Format.text(), v_f));
        crate::apc::lemma_upsert_new(f5, Key::Id.text(), v_i);
        assert(views(messages@).len() == 1);
        assert(views(messages@)[0].fields =~= shared_mem_query_plan()[0].fields);
        assert(views(messages@)[0].payload =~= shared_mem_query_plan()[0].payload);
        assert(views(messages@) =~= shared_mem_query_plan());
    }
    messages
}

/// What two probes say together: supported when either is, inconclusive
/// when neither gave a readable answer, unsupported otherwise.
pub open spec fn either(first: Capability, second: Capability) -> Capability {
    if first == Capability::Supported || second == Capability::Supported {
        Capability::Supported
    } else if first == Capability::Inconclusive && second == Capability::Inconclusive {
        Capability::Inconclusive
    } else {
        Capability::Unsupported
    }
}

/// The next step of the backend's probe, given the replies to the queries
/// sent so far. Direct transfer is asked about first; shared memory is
/// asked about only when direct transfer was not acknowledged.
pub open spec fn kitty_probe(replies: Seq<Seq<u8>>) -> ProbeStepView {
    if replies.len() == 0 {
        ProbeStepView::Ask(wire(direct_query_plan()))
    } else if acknowledgement(replies[0]) == Capability::Supported {
        ProbeStepView::Done(Capability::Supported)
    } else if replies.len() == 1 {
        ProbeStepView::Ask(wire(shared_mem_query_plan()))
    } else {
        ProbeStepView::Done(either(acknowledgement(replies[0]), acknowledgement(replies[1])))
    }
}

/// Which media the terminal acknowledged.
#[derive(Debug, Clone, Copy, PartialEq, Eq, Structural)]
pub struct MediaSupport {
    pub shared_memory: bool,
    pub direct: bool,
}

/// One way of getting the samples to the terminal.
#[derive(Debug, Clone, Copy, PartialEq, Eq, Structural)]
pub enum Attempt {
    SharedMemory,
    Direct,
}

/// What a display needs next.
#[derive(Debug, Clone, Copy, PartialEq, Eq, Structural)]
pub enum RenderStep {
    /// Send the image by this medium and report how it went.
    Try(Attempt),
    /// The image is on the screen.
    Succeeded,
    /// The image could not be shown.
    Failed(RenderError),
}

/// The media to try, in order: shared memory before direct transfer, each
/// only if the terminal acknowledged it.
pub open spec fn candidates(support: MediaSupport) -> Seq<Attempt> {
    (if support.shared_memory {
        seq![Attempt::SharedMemory]
    } else {
        Seq::<Attempt>::empty()
    }) + (if support.direct {
        seq![Attempt::Direct]
    } else {
        Seq::<Attempt>::empty()
    })
}

/// The next step of a display, given how the attempts so far went.
///
/// A success ends the display. After a failure the next candidate is
/// tried. When no candidate is left, the display fails: as unsupported if
/// there never was a candidate, else with the error of the last attempt.
pub open spec fn display_next(
    support: MediaSupport,
    outcomes: Seq<Result<(), RenderError>>,
) -> RenderStep {
    if outcomes.len() > 0 && outcomes.last() is Ok {
        RenderStep::Succeeded
    } else if outcomes.len() < candidates(support).len() {
        RenderStep::Try(candidates(support)[outcomes.len() as int])
    } else if outcomes.len() == 0 {
        RenderStep::Failed(RenderError::Unsupported)
    } else {
        RenderStep::Failed(outcomes.last()->Err_0)
    }
}

/// A failed shared-memory transfer does not fail the display while
/// direct transfer is acknowledged: direct transfer is tried next.
pub proof fn lemma_shared_failure_falls_through(support: MediaSupport, error: RenderError)
    requires
        support.shared_memory,
        support.direct,
    ensures
        display_next(support, Seq::empty()) == RenderStep::Try(Attempt::SharedMemory),
        display_next(support, seq![Err(error)]) == RenderStep::Try(Attempt::Direct),
        display_next(support, seq![Err(error), Ok(())]) == RenderStep::Succeeded,
        display_next(support, seq![Err(error), Err(error)]) == RenderStep::Failed(error),
{
}

/// A display fails as unsupported only when the terminal acknowledged no
/// medium, and then at once.
pub proof fn lemma_unsupported_iff_no_medium(support: MediaSupport)
    ensures
        display_next(support, Seq::empty()) == RenderStep::Failed(RenderError::Unsupported) <==> (
        !support.shared_memory && !support.direct),
{
}

impl Kitty {
    /// The backend's name.
    pub fn name(&self) -> (name: &'static str)
        ensures
            name@ == "kitty"@,
    {
        "kitty"
    }

    /// The next step of the probe, given the replies so far.
    pub fn supported(&self, replies: &Vec<Vec<u8>>) -> (step: ProbeStep)
        ensures
            step@ == kitty_probe(reply_views(replies@)),
    {
        if replies.len() == 0 {
            let query: Vec<APC> = direct_query();
            return ProbeStep::Ask(encode_all(&query));
        }
        let first: Capability = classify_reply(replies[0].as_slice());
        if first.is_supported() {
            return ProbeStep::Done(Capability::Supported);
        }
        if replies.len() == 1 {
            let query: Vec<APC> = shared_mem_query();
            return ProbeStep::Ask(encode_all(&query));
        }
        let second: Capability = classify_reply(replies[1].as_slice());
        if second.is_supported() {
            ProbeStep::Done(Capability::Supported)
        } else if first == Capability::Inconclusive && second == Capability::Inconclusive {
            ProbeStep::Done(Capability::Inconclusive)
        } else {
            ProbeStep::Done(Capability::Unsupported)
        }
    }

    /// Reads the two media probes made before a display.
    pub fn media_support(&self, shared_memory_reply: &[u8], direct_reply: &[u8]) -> (support:
        MediaSupport)
        ensures
            support.shared_memory == acknowledgement(shared_memory_reply@).usable(),
            support.direct == acknowledgement(direct_reply@).usable(),
    {
        MediaSupport {
            shared_memory: classify_reply(shared_memory_reply).is_supported(),
            direct: classify_reply(direct_reply).is_supported(),
        }
    }

    /// The next step of a display, given how the attempts so far went.
    pub fn display(&self, support: MediaSupport, outcomes: &Vec<Result<(), RenderError>>) -> (step:
        RenderStep)
        ensures
            step == display_next(support, outcomes@),
    {
        let tried: usize = outcomes.len();
        if tried > 0 {
            if let Ok(_) = outcomes[tried - 1] {
                return RenderStep::Succeeded;
            }
        }
        let mut order: Vec<Attempt> = Vec::new();
        if support.shared_memory {
            order.push(Attempt::SharedMemory);
        }
        if support.direct {
            order.push(Attempt::Direct);
        }
        assert(order@ =~= candidates(support));
        if tried < order.len() {
            return RenderStep::Try(order[tried]);
        }
        if tried == 0 {
            return RenderStep::Failed(RenderError::Unsupported);
        }
        match outcomes[tried - 1] {
            Ok(_) => RenderStep::Succeeded,
            Err(error) => RenderStep::Failed(error),
        }
    }
}

} // verus!
