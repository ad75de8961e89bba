//! What every backend shares: the terminal's size, the outcome of a
//! capability probe and the ways a render can fail.

use vstd::prelude::*;

verus! {

/// Pixel and cell dimensions of the controlling terminal, taken once per
/// display call.
#[derive(Debug, Clone, Copy, PartialEq, Eq, Structural)]
pub struct TerminalSize {
    pub width: u16,
    pub height: u16,
    pub cols: u16,
    pub rows: u16,
}

impl TerminalSize {
    /// A size that a real terminal reports: no dimension is zero.
    pub open spec fn usable(self) -> bool {
        self.width != 0 && self.height != 0 && self.cols != 0 && self.rows != 0
    }

    /// Combines the two size probes, `pixels` as (width, height) and `cells`
    /// as (columns, rows). A probe that failed counts as zero; the size is
    /// known only when all four numbers are non-zero.
    pub fn from_probes(pixels: Option<(u16, u16)>, cells: Option<(u16, u16)>) -> (size: Option<
        TerminalSize,
    >)
        ensures
            size is Some <==> (pixels matches Some(p) && cells matches Some(c) && p.0 != 0 && p.1
                != 0 && c.0 != 0 && c.1 != 0),
            size matches Some(s) ==> s.usable() && pixels == Some((s.width, s.height)) && cells
                == Some((s.cols, s.rows)),
    {
        let (width, height): (u16, u16) = match pixels {
            Some(p) => p,
            None => (0, 0),
        };
        let (cols, rows): (u16, u16) = match cells {
            Some(c) => c,
            None => (0, 0),
        };
        if width == 0 || height == 0 || cols == 0 || rows == 0 {
            None
        } else {
            Some(TerminalSize { width, height, cols, rows })
        }
    }
}

/// Outcome of a capability probe.
#[derive(Debug, Clone, Copy, PartialEq, Eq, Structural)]
pub enum Capability {
    /// The terminal answered and did not refuse.
    Supported,
    /// The terminal answered and refused, or lacks the feature.
    Unsupported,
    /// No answer, or one that cannot be read.
    Inconclusive,
}

impl Capability {
    /// Callers treat an inconclusive probe as a refusal.
    pub open spec fn usable(self) -> bool {
        self == Capability::Supported
    }

    /// Whether the backend may be used.
    pub fn is_supported(self) -> (yes: bool)
        ensures
            yes == self.usable(),
    {
        match self {
            Capability::Supported => true,
            Capability::Unsupported => false,
            Capability::Inconclusive => false,
        }
    }
}

/// Why a render did not complete.
#[derive(Debug, Clone, Copy, PartialEq, Eq, Structural)]
pub enum RenderError {
    /// The terminal lacks every medium the backend could use.
    Unsupported,
    /// No valid payload could be produced.
    EncodeFailure,
    /// A write or an allocation failed for another reason than lack of
    /// support.
    IOFailure,
    /// Selection ran out of candidates.
    NoViewerAvailable,
}

impl RenderError {
    /// The text shown for the error.
    pub fn message(self) -> (text: &'static str)
        ensures
            text@ == match self {
                RenderError::Unsupported => "Unsupported"@,
                RenderError::EncodeFailure => "Failed to encode"@,
                RenderError::IOFailure => "Failed to write"@,
                RenderError::NoViewerAvailable => "No viewer specified"@,
            },
    {
        match self {
            RenderError::Unsupported => "Unsupported",
            RenderError::EncodeFailure => "Failed to encode",
            RenderError::IOFailure => "Failed to write",
            RenderError::NoViewerAvailable => "No viewer specified",
        }
    }
}

/// What a backend's probe needs next.
pub enum ProbeStep {
    /// Write these bytes to the terminal and hand back what it answers.
    Ask(Vec<u8>),
    /// The probe is over.
    Done(Capability),
}

/// A `ProbeStep` as mathematical data.
pub ghost enum ProbeStepView {
    Ask(Seq<u8>),
    Done(Capability),
}

impl View for ProbeStep {
    type V = ProbeStepView;

    open spec fn view(&self) -> ProbeStepView {
        match self {
            ProbeStep::Ask(bytes) => ProbeStepView::Ask(bytes@),
            ProbeStep::Done(capability) => ProbeStepView::Done(*capability),
        }
    }
}

/// The replies gathered so far, as mathematical data.
pub open spec fn reply_views(replies: Seq<Vec<u8>>) -> Seq<Seq<u8>> {
    Seq::new(replies.len(), |i: int| replies[i]@)
}

} // verus!
