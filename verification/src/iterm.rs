//! The inline-file backend: one control sequence that carries a whole
//! compressed image, with its metadata in the sequence's header.

use vstd::prelude::*;
use crate::apc::ESC;
use crate::b64::{base64_encode, base64_text, encodable, is_encodable};
use crate::bytes::{append_bytes, decimal, push_decimal, same_text};
use crate::graphic::{Capability, RenderError};

verus! {

/// The byte that ends the sequence.
pub const BEL: u8 = 0x07;

/// The backend that speaks the inline-file protocol.
pub struct Iterm;

/// What the terminal program calls itself when it speaks the protocol.
pub open spec fn program_name() -> Seq<char> {
    "iTerm.app"@
}

/// The inline-file sequence for an image whose base64 text is `text`:
/// `ESC ] 1337 ; File=size=<N>;width=<W>px;height=<H>px;inline=1:<text> BEL`,
/// where `N` is the length of the text.
pub open spec fn inline_file_sequence(text: Seq<u8>, width: u32, height: u32) -> Seq<u8> {
    seq![ESC] + vstd::utf8::encode_utf8("]1337;File=size="@) + decimal(text.len())
        + vstd::utf8::encode_utf8(";width="@) + decimal(width as nat) + vstd::utf8::encode_utf8(
        "px;height="@,
    ) + decimal(height as nat) + vstd::utf8::encode_utf8("px;inline=1:"@) + text + seq![BEL]
}

/// The sequence opens with the escape byte, closes with the bell, and
/// carries the text right before the bell.
pub proof fn lemma_inline_file_shape(text: Seq<u8>, width: u32, height: u32)
    ensures
        inline_file_sequence(text, width, height).len() >= 2 + text.len(),
        inline_file_sequence(text, width, height)[0] == ESC,
        inline_file_sequence(text, width, height).last() == BEL,
        inline_file_sequence(text, width, height).subrange(
            inline_file_sequence(text, width, height).len() - 1 - text.len(),
            inline_file_sequence(text, width, height).len() - 1,
        ) == text,
{
}

impl Iterm {
    /// The backend's name.
    pub fn name(&self) -> (name: &'static str)
        ensures
            name@ == "iterm"@,
    {
        "iterm"
    }

    /// Name of the environment variable that identifies the terminal
    /// program.
    pub fn probe_variable(&self) -> (name: &'static str)
        ensures
            name@ == "TERM_PROGRAM"@,
    {
        "TERM_PROGRAM"
    }

    /// Reads the terminal program's name, as the environment gives it:
    /// supported exactly when it is `iTerm.app`. No query is sent.
    pub fn supported(&self, term_program: Option<&str>) -> (capability: Capability)
        ensures
            capability == inline_file_capability(
                match term_program {
                    Some(p) => Some(p@),
                    None => None,
                },
            ),
    {
        match term_program {
            Some(program) => {
                if same_text(program, "iTerm.app") {
                    Capability::Supported
                } else {
                    Capability::Unsupported
                }
            },
            None => Capability::Unsupported,
        }
    }

    /// Builds the inline-file sequence around the base64 text of an image
    /// file, with the image's dimensions.
    pub fn sequence(&self, text: &[u8], width: u32, height: u32) -> (bytes: Vec<u8>)
        ensures
            bytes@ == inline_file_sequence(text@, width, height),
    {
        let mut bytes: Vec<u8> = Vec::new();
        bytes.push(ESC);
        append_bytes(&mut bytes, "]1337;File=size=".as_bytes());
        push_decimal(&mut bytes, text.len() as u64);
        append_bytes(&mut bytes, ";width=".as_bytes());
        push_decimal(&mut bytes, width as u64);
        append_bytes(&mut bytes, "px;height=".as_bytes());
        push_decimal(&mut bytes, height as u64);
        append_bytes(&mut bytes, "px;inline=1:".as_bytes());
        append_bytes(&mut bytes, text);
        bytes.push(BEL);
        bytes
    }

    /// Builds the sequence that shows an image, given the image as a PNG
    /// file's bytes and its dimensions.
    ///
    /// Fails with `EncodeFailure` exactly when the file is too long to be
    /// armoured.
    pub fn display(&self, png: &[u8], width: u32, height: u32) -> (sequence: Result<
        Vec<u8>,
        RenderError,
    >)
        ensures
            !encodable(png@.len()) ==> sequence == Err::<Vec<u8>, RenderError>(
                RenderError::EncodeFailure,
            ),
            encodable(png@.len()) ==> (sequence matches Ok(bytes) && bytes@
                == inline_file_sequence(base64_text(png@), width, height)),
    {
        if !is_encodable(png.len()) {
            return Err(RenderError::EncodeFailure);
        }
        let encoded: Vec<u8> = base64_encode(png);
        Ok(self.sequence(encoded.as_slice(), width, height))
    }
}

/// What the terminal program's name says about the inline-file protocol.
pub open spec fn inline_file_capability(term_program: Option<Seq<char>>) -> Capability {
    if term_program == Some(program_name()) {
        Capability::Supported
    } else {
        Capability::Unsupported
    }
}

} // verus!
