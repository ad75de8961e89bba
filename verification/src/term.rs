//! What a terminal sends back after a query, and how it is read.
//!
//! The channel itself writes the query, waits a fixed settle delay and
//! drains whatever bytes have arrived. That is a heuristic: a terminal that
//! answers later than the delay looks like one that does not answer. What
//! arrives is classified here.

use vstd::prelude::*;
use crate::apc::{frame, ApcView, APC};
use crate::bytes::{append_bytes, contains, contains_bytes};
use crate::graphic::Capability;
use crate::transmission::views;

verus! {

/// Milliseconds the channel waits between writing a query and draining the
/// answer.
pub const SETTLE_MILLIS: u64 = 100;

/// Calls `core::str::from_utf8` and keeps only whether it succeeded.
///
/// Trusted: the call succeeds exactly on well-formed UTF-8, as `vstd`
/// defines it.
#[verifier::external_body]
fn is_utf8(raw: &[u8]) -> (ok: bool)
    ensures
        ok == vstd::utf8::valid_utf8(raw@),
{
    core::str::from_utf8(raw).is_ok()
}

/// The text of a reply: the bytes themselves when they are well-formed
/// UTF-8, nothing otherwise.
pub open spec fn reply_text(raw: Seq<u8>) -> Seq<u8> {
    if vstd::utf8::valid_utf8(raw) {
        raw
    } else {
        Seq::empty()
    }
}

/// Reads the drained bytes as text; a garbled reply reads as empty.
pub fn read_reply(raw: &[u8]) -> (text: Vec<u8>)
    ensures
        text@ == reply_text(raw@),
{
    let mut text: Vec<u8> = Vec::new();
    if is_utf8(raw) {
        append_bytes(&mut text, raw);
    }
    text
}

/// The marker by which a terminal refuses a query: `ENOTSUPPORTED`.
pub open spec fn refusal() -> Seq<u8> {
    seq![0x45u8, 0x4e, 0x4f, 0x54, 0x53, 0x55, 0x50, 0x50, 0x4f, 0x52, 0x54, 0x45, 0x44]
}

/// What a reply to a graphics query says: nothing readable is
/// inconclusive, a reply that holds the refusal marker is a refusal, any
/// other reply is an acknowledgement.
pub open spec fn acknowledgement(raw: Seq<u8>) -> Capability {
    if reply_text(raw).len() == 0 {
        Capability::Inconclusive
    } else if contains(reply_text(raw), refusal()) {
        Capability::Unsupported
    } else {
        Capability::Supported
    }
}

/// Classifies the reply to a graphics query.
pub fn classify_reply(raw: &[u8]) -> (capability: Capability)
    ensures
        capability == acknowledgement(raw@),
{
    let text: Vec<u8> = read_reply(raw);
    if text.len() == 0 {
        return Capability::Inconclusive;
    }
    let marker: [u8; 13] = [0x45, 0x4e, 0x4f, 0x54, 0x53, 0x55, 0x50, 0x50, 0x4f, 0x52, 0x54, 0x45, 0x44];
    assert(marker@ =~= refusal());
    if contains_bytes(text.as_slice(), marker.as_slice()) {
        Capability::Unsupported
    } else {
        Capability::Supported
    }
}

/// The frames of the messages, one after the other.
pub open spec fn wire(messages: Seq<ApcView>) -> Seq<u8>
    decreases messages.len(),
{
    if messages.len() == 0 {
        Seq::empty()
    } else {
        wire(messages.drop_last()) + frame(messages.last().fields, messages.last().payload)
    }
}

/// The bytes to write for a run of messages: their frames in order.
pub fn encode_all(apcs: &Vec<APC>) -> (data: Vec<u8>)
    ensures
        data@ == wire(views(apcs@)),
{
    let mut data: Vec<u8> = Vec::new();
    let n: usize = apcs.len();
    let mut i: usize = 0;
    while i < n
        invariant
            n == apcs@.len(),
            i <= n,
            data@ == wire(views(apcs@).subrange(0, i as int)),
        decreases n - i,
    {
        let one: Vec<u8> = apcs[i].get();
        append_bytes(&mut data, one.as_slice());
        proof {
            let next = views(apcs@).subrange(0, i + 1);
            assert(next.drop_last() == views(apcs@).subrange(0, i as int));
            assert(next.last() == apcs@[i as int]@);
        }
        i += 1;
    }
    assert(views(apcs@).subrange(0, n as int) == views(apcs@));
    data
}

} // verus!
