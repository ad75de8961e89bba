//! Base64 text armour for payloads, delegated to the `base64` crate.

use vstd::prelude::*;

verus! {

/// The standard-alphabet, padded base64 text of `data`, as ASCII bytes.
pub uninterp spec fn base64_text(data: Seq<u8>) -> Seq<u8>;

/// Length of the padded base64 text of `len` bytes: four characters for
/// every started group of three bytes.
pub open spec fn base64_len(len: nat) -> nat {
    4 * ((len + 2) / 3)
}

/// Inputs whose base64 text fits in one allocation.
pub open spec fn encodable(len: nat) -> bool {
    base64_len(len) <= isize::MAX
}

/// Calls `base64::engine::general_purpose::STANDARD.encode` (through the
/// `Engine` trait) and hands the text back as bytes.
///
/// Trusted: the result is the standard padded base64 text of `data`, named
/// `base64_text`, and its length is `base64_len` of the input length. The
/// crate sizes its output buffer by `encoded_len(n, true)`, which is that
/// length, and panics only when the buffer cannot be sized, which the
/// precondition rules out.
#[verifier::external_body]
pub(crate) fn base64_encode(data: &[u8]) -> (text: Vec<u8>)
    requires
        encodable(data@.len()),
    ensures
        text@ == base64_text(data@),
        text@.len() == base64_len(data@.len()),
{
    base64::Engine::encode(&base64::engine::general_purpose::STANDARD, data).into_bytes()
}

/// Tests whether `len` bytes can be armoured.
pub fn is_encodable(len: usize) -> (ok: bool)
    ensures
        ok == encodable(len as nat),
{
    let groups: u128 = (len as u128 + 2) / 3;
    4 * groups <= isize::MAX as u128
}

} // verus!
