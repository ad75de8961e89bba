//! The bitmap-protocol backend: gated by the terminal's device attributes,
//! drawn by an encoder that works through an intermediate file.

use vstd::prelude::*;
use crate::apc::{ESC, SEMICOLON};
use crate::bytes::{lemma_span_is, span};
use crate::graphic::{reply_views, Capability, ProbeStep, ProbeStepView};
use crate::term::{read_reply, reply_text};
use crate::utils::{has_alpha, PixelBuffer};

verus! {

/// The backend that speaks the bitmap protocol.
pub struct Sixel;

/// The sample layouts that the encoder takes.
#[derive(Debug, Clone, Copy, PartialEq, Eq, Structural)]
pub enum PixelFormat {
    RGB888,
    RGBA8888,
}

/// The device-attributes request: `ESC [ c`.
pub open spec fn attributes_request() -> Seq<u8> {
    seq![ESC, 0x5bu8, 0x63u8]
}

/// ASCII white space: the space, and the bytes from tab to carriage
/// return.
pub open spec fn is_space(b: u8) -> bool {
    b == 0x20 || (0x09 <= b <= 0x0d)
}

/// The text without the white space at its start.
pub open spec fn trim_start(text: Seq<u8>) -> Seq<u8>
    decreases text.len(),
{
    if text.len() > 0 && is_space(text[0]) {
        trim_start(text.drop_first())
    } else {
        text
    }
}

/// The text without the white space at its end.
pub open spec fn trim_end(text: Seq<u8>) -> Seq<u8>
    decreases text.len(),
{
    if text.len() > 0 && is_space(text.last()) {
        trim_end(text.drop_last())
    } else {
        text
    }
}

/// The text without the white space around it.
pub open spec fn trim(text: Seq<u8>) -> Seq<u8> {
    trim_end(trim_start(text))
}

/// An attribute that announces the bitmap capability: `4`, or `4c` where
/// the attribute closes the report.
pub open spec fn is_bitmap_code(item: Seq<u8>) -> bool {
    item == seq![0x34u8] || item == seq![0x34u8, 0x63u8]
}

/// Some item of the semicolon-separated text, with the white space around
/// it taken off, announces the bitmap capability. The first item runs up
/// to the first semicolon, the others follow it.
pub open spec fn lists_bitmap_code(text: Seq<u8>) -> bool
    decreases text.len(),
{
    let n = span(text, SEMICOLON);
    is_bitmap_code(trim(text.subrange(0, n as int))) || (n < text.len() && lists_bitmap_code(
        text.subrange(n as int + 1, text.len() as int),
    ))
}

/// What a device-attributes report says: nothing readable is
/// inconclusive; a report that lists the bitmap capability means support,
/// any other report means none.
pub open spec fn attributes_capability(raw: Seq<u8>) -> Capability {
    if reply_text(raw).len() == 0 {
        Capability::Inconclusive
    } else if lists_bitmap_code(reply_text(raw)) {
        Capability::Supported
    } else {
        Capability::Unsupported
    }
}

/// The next step of the backend's probe: the request first, then the
/// verdict on its reply.
pub open spec fn sixel_probe(replies: Seq<Seq<u8>>) -> ProbeStepView {
    if replies.len() == 0 {
        ProbeStepView::Ask(attributes_request())
    } else {
        ProbeStepView::Done(attributes_capability(replies[0]))
    }
}

/// Taking white space off the start leaves a tail of the text that does
/// not start with white space.
proof fn lemma_trim_start_is(text: Seq<u8>, from: nat)
    requires
        from <= text.len(),
        forall|k: int| 0 <= k < from ==> is_space(text[k]),
        from < text.len() ==> !is_space(text[from as int]),
    ensures
        trim_start(text) == text.subrange(from as int, text.len() as int),
    decreases from,
{
    if from > 0 {
        let rest = text.drop_first();
        assert forall|k: int| 0 <= k < from - 1 implies is_space(rest[k]) by {
            assert(rest[k] == text[k + 1]);
        }
        lemma_trim_start_is(rest, (from - 1) as nat);
        assert(rest.subrange(from - 1, rest.len() as int) == text.subrange(
            from as int,
            text.len() as int,
        ));
    } else {
        assert(text.subrange(0, text.len() as int) == text);
    }
}

/// Taking white space off the end leaves a head of the text that does not
/// end with white space.
proof fn lemma_trim_end_is(text: Seq<u8>, to: nat)
    requires
        to <= text.len(),
        forall|k: int| to <= k < text.len() ==> is_space(text[k]),
        to > 0 ==> !is_space(text[to - 1]),
    ensures
        trim_end(text) == text.subrange(0, to as int),
    decreases text.len() - to,
{
    if to < text.len() {
        let rest = text.drop_last();
        lemma_trim_end_is(rest, to);
        assert(rest.subrange(0, to as int) == text.subrange(0, to as int));
    } else {
        assert(text.subrange(0, text.len() as int) == text);
    }
}

/// Tests whether the item `text[from..to]`, with the white space around it
/// taken off, announces the bitmap capability.
fn item_is_bitmap_code(text: &[u8], from: usize, to: usize) -> (found: bool)
    requires
        from <= to <= text@.len(),
    ensures
        found == is_bitmap_code(trim(text@.subrange(from as int, to as int))),
{
    let ghost item = text@.subrange(from as int, to as int);
    let mut a: usize = from;
    while a < to && is_space_byte(text[a])
        invariant
            from <= a <= to,
            to <= text@.len(),
            forall|k: int| from <= k < a ==> is_space(text@[k]),
        decreases to - a,
    {
        a += 1;
    }
    proof {
        assert forall|k: int| 0 <= k < a - from implies is_space(item[k]) by {
            assert(item[k] == text@[from + k]);
        }
        lemma_trim_start_is(item, (a - from) as nat);
        assert(item.subrange(a - from, item.len() as int) == text@.subrange(a as int, to as int));
    }
    let ghost inner = text@.subrange(a as int, to as int);
    let mut b: usize = to;
    while b > a && is_space_byte(text[b - 1])
        invariant
            a <= b <= to,
            to <= text@.len(),
            forall|k: int| b <= k < to ==> is_space(text@[k]),
        decreases b,
    {
        b -= 1;
    }
    proof {
        assert forall|k: int| b - a <= k < inner.len() implies is_space(inner[k]) by {
            assert(inner[k] == text@[a + k]);
        }
        lemma_trim_end_is(inner, (b - a) as nat);
        assert(inner.subrange(0, b - a) == text@.subrange(a as int, b as int));
    }
    let ghost core = text@.subrange(a as int, b as int);
    assert(trim(item) == core);
    if b - a == 1 {
        let yes: bool = text[a] == 0x34;
        assert(yes ==> core =~= seq![0x34u8]);
        assert(!yes ==> core[0] != 0x34u8);
        yes
    } else if b - a == 2 {
        let yes: bool = text[a] == 0x34 && text[a + 1] == 0x63;
        assert(yes ==> core =~= seq![0x34u8, 0x63u8]);
        assert(!yes ==> (core[0] != 0x34u8 || core[1] != 0x63u8));
        yes
    } else {
        assert(core.len() != 1 && core.len() != 2);
        false
    }
}

/// Tests whether a byte is ASCII white space.
fn is_space_byte(b: u8) -> (space: bool)
    ensures
        space == is_space(b),
{
    b == 0x20 || (0x09 <= b && b <= 0x0d)
}

/// Tests whether some item of a device-attributes report announces the
/// bitmap capability.
pub fn has_bitmap_code(text: &[u8]) -> (found: bool)
    ensures
        found == lists_bitmap_code(text@),
{
    let len: usize = text.len();
    let mut start: usize = 0;
    assert(text@.subrange(0, len as int) == text@);
    loop
        invariant
            len == text@.len(),
            start <= len,
            lists_bitmap_code(text@) == lists_bitmap_code(text@.subrange(start as int, len as int)),
        decreases len - start,
    {
        let ghost rest = text@.subrange(start as int, len as int);
        let mut end: usize = start;
        while end < len && text[end] != SEMICOLON
            invariant
                len == text@.len(),
                start <= end <= len,
                forall|k: int| start <= k < end ==> text@[k] != SEMICOLON,
            decreases len - end,
        {
            end += 1;
        }
        proof {
            assert forall|k: int| 0 <= k < end - start implies rest[k] != SEMICOLON by {
                assert(rest[k] == text@[start + k]);
            }
            lemma_span_is(rest, SEMICOLON, (end - start) as nat);
            assert(rest.subrange(0, end - start) == text@.subrange(start as int, end as int));
        }
        if item_is_bitmap_code(text, start, end) {
            return true;
        }
        if end == len {
            return false;
        }
        proof {
            assert(rest.subrange(end - start + 1, rest.len() as int) == text@.subrange(
                end + 1,
                len as int,
            ));
        }
        start = end + 1;
    }
}

impl Sixel {
    /// The backend's name.
    pub fn name(&self) -> (name: &'static str)
        ensures
            name@ == "sixel"@,
    {
        "sixel"
    }

    /// The next step of the probe, given the replies so far.
    pub fn supported(&self, replies: &Vec<Vec<u8>>) -> (step: ProbeStep)
        ensures
            step@ == sixel_probe(reply_views(replies@)),
    {
        if replies.len() == 0 {
            let mut request: Vec<u8> = Vec::new();
            request.push(ESC);
            request.push(0x5b);
            request.push(0x63);
            assert(request@ =~= attributes_request());
            return ProbeStep::Ask(request);
        }
        let text: Vec<u8> = read_reply(replies[0].as_slice());
        if text.len() == 0 {
            ProbeStep::Done(Capability::Inconclusive)
        } else if has_bitmap_code(text.as_slice()) {
            ProbeStep::Done(Capability::Supported)
        } else {
            ProbeStep::Done(Capability::Unsupported)
        }
    }

    /// The sample layout handed to the encoder: with alpha when the image
    /// carries it, else without.
    pub fn display(&self, img: &PixelBuffer) -> (format: PixelFormat)
        ensures
            format == if img.color.carries_alpha() {
                PixelFormat::RGBA8888
            } else {
                PixelFormat::RGB888
            },
    {
        if has_alpha(img) {
            PixelFormat::RGBA8888
        } else {
            PixelFormat::RGB888
        }
    }
}

} // verus!
