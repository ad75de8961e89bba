//! The registry of backends and the choice among them.

use vstd::prelude::*;
use crate::bytes::same_text;
use crate::graphic::{reply_views, Capability, ProbeStep, ProbeStepView, RenderError};
use crate::iterm::{inline_file_capability, Iterm};
use crate::kitty::{kitty_probe, Kitty};
use crate::mosaic::Mosaic;
use crate::sixel::{sixel_probe, Sixel};

verus! {

/// A backend of the registry.
#[derive(Debug, Clone, Copy, PartialEq, Eq, Structural)]
pub enum Viewer {
    /// The escape-sequence graphics protocol.
    Kitty,
    /// The inline-file protocol.
    Iterm,
    /// The bitmap protocol.
    Sixel,
    /// The cell-mosaic fallback.
    Mosaic,
}

/// What is known of the terminal without asking it: the name of the
/// terminal program, if the environment gives one.
pub struct TerminalContext {
    pub term_program: Option<String>,
}

impl TerminalContext {
    /// The terminal program's name as mathematical data.
    pub open spec fn program(&self) -> Option<Seq<char>> {
        match self.term_program {
            Some(p) => Some(p@),
            None => None,
        }
    }
}

impl Viewer {
    /// The name by which the backend is chosen.
    pub open spec fn label(self) -> Seq<char> {
        match self {
            Viewer::Kitty => "kitty"@,
            Viewer::Iterm => "iterm"@,
            Viewer::Sixel => "sixel"@,
            Viewer::Mosaic => "mosaic"@,
        }
    }

    /// The next step of the backend's probe, given the terminal program's
    /// name and the replies to the queries sent so far.
    pub open spec fn probe(self, program: Option<Seq<char>>, replies: Seq<Seq<u8>>) -> ProbeStepView {
        match self {
            Viewer::Kitty => kitty_probe(replies),
            Viewer::Iterm => ProbeStepView::Done(inline_file_capability(program)),
            Viewer::Sixel => sixel_probe(replies),
            Viewer::Mosaic => ProbeStepView::Done(Capability::Supported),
        }
    }

    /// The name by which the backend is chosen.
    pub fn name(&self) -> (name: &'static str)
        ensures
            name@ == self.label(),
    {
        match self {
            Viewer::Kitty => Kitty.name(),
            Viewer::Iterm => Iterm.name(),
            Viewer::Sixel => Sixel.name(),
            Viewer::Mosaic => Mosaic.name(),
        }
    }

    /// The next step of the backend's probe.
    pub fn supported(&self, context: &TerminalContext, replies: &Vec<Vec<u8>>) -> (step: ProbeStep)
        ensures
            step@ == self.probe(context.program(), reply_views(replies@)),
    {
        match self {
            Viewer::Kitty => Kitty.supported(replies),
            Viewer::Iterm => {
                let capability: Capability = match &context.term_program {
                    Some(p) => Iterm.supported(Some(p.as_str())),
                    None => Iterm.supported(None),
                };
                ProbeStep::Done(capability)
            },
            Viewer::Sixel => Sixel.supported(replies),
            Viewer::Mosaic => ProbeStep::Done(Mosaic.supported()),
        }
    }
}

/// The registry in priority order: the richest protocol first, the
/// fallback last.
pub open spec fn registry() -> Seq<Viewer> {
    seq![Viewer::Kitty, Viewer::Iterm, Viewer::Sixel, Viewer::Mosaic]
}

/// The registry is not empty, and the fallback is its last backend and
/// stands nowhere else.
pub proof fn lemma_registry_fallback_last()
    ensures
        registry().len() == 4,
        registry().last() == Viewer::Mosaic,
        forall|i: int| 0 <= i < registry().len() - 1 ==> registry()[i] != Viewer::Mosaic,
        registry().contains(Viewer::Mosaic),
{
    assert(registry()[3] == Viewer::Mosaic);
}

/// The registry in priority order.
pub fn viewers() -> (list: Vec<Viewer>)
    ensures
        list@ == registry(),
{
    let mut list: Vec<Viewer> = Vec::new();
    list.push(Viewer::Kitty);
    list.push(Viewer::Iterm);
    list.push(Viewer::Sixel);
    list.push(Viewer::Mosaic);
    assert(list@ =~= registry());
    list
}

/// What a selection needs next, or how it ended.
#[derive(Debug, Clone, Copy, PartialEq, Eq, Structural)]
pub enum Selection {
    /// Probe the backend at this place of the registry and report what it
    /// says.
    Probe(usize),
    /// The backend at this place of the registry is chosen.
    Chosen(usize),
    /// No backend can be used.
    NoViewerAvailable,
}

/// The name that asks for the first supported backend.
pub open spec fn auto_name() -> Seq<char> {
    "auto"@
}

/// `at` is the first place whose probe reported support.
pub open spec fn first_supported(probed: Seq<Capability>, at: int) -> bool {
    &&& 0 <= at < probed.len()
    &&& probed[at].usable()
    &&& forall|j: int| 0 <= j < at ==> !(#[trigger] probed[j]).usable()
}

/// `at` is the first place whose backend has the name.
pub open spec fn first_named(viewers: Seq<Viewer>, name: Seq<char>, at: int) -> bool {
    &&& 0 <= at < viewers.len()
    &&& viewers[at].label() == name
    &&& forall|j: int| 0 <= j < at ==> (#[trigger] viewers[j]).label() != name
}

/// The selection, given the registry, the name asked for and what the
/// backends probed so far reported, in registry order.
///
/// For `auto`: the first backend that reported support is chosen; while
/// none did, the next backend is probed; when all were probed and none
/// reported support, no backend can be used. For any other name: the
/// first backend of that name is chosen without a probe, and no backend
/// can be used if none has the name.
pub open spec fn selection(viewers: Seq<Viewer>, name: Seq<char>, probed: Seq<Capability>) -> Selection {
    if name == auto_name() {
        if exists|at: int| first_supported(probed, at) && at < viewers.len() {
            Selection::Chosen(
                (choose|at: int| first_supported(probed, at) && at < viewers.len()) as usize,
            )
        } else if probed.len() < viewers.len() {
            Selection::Probe(probed.len() as usize)
        } else {
            Selection::NoViewerAvailable
        }
    } else {
        if exists|at: int| first_named(viewers, name, at) {
            Selection::Chosen((choose|at: int| first_named(viewers, name, at)) as usize)
        } else {
            Selection::NoViewerAvailable
        }
    }
}

/// The first place of a kind is one place only.
proof fn lemma_first_supported_unique(probed: Seq<Capability>, a: int, b: int)
    requires
        first_supported(probed, a),
        first_supported(probed, b),
    ensures
        a == b,
{
    if a < b {
        assert(!probed[a].usable());
    } else if b < a {
        assert(!probed[b].usable());
    }
}

/// The first place of a name is one place only.
proof fn lemma_first_named_unique(viewers: Seq<Viewer>, name: Seq<char>, a: int, b: int)
    requires
        first_named(viewers, name, a),
        first_named(viewers, name, b),
    ensures
        a == b,
{
    if a < b {
        assert(viewers[a].label() != name);
    } else if b < a {
        assert(viewers[b].label() != name);
    }
}

/// Takes the next step of a selection.
pub fn get_viewer(viewers: &Vec<Viewer>, name: &str, probed: &Vec<Capability>) -> (step: Selection)
    ensures
        step == selection(viewers@, name@, probed@),
{
    let n: usize = viewers.len();
    if same_text(name, "auto") {
        let m: usize = if probed.len() < n {
            probed.len()
        } else {
            n
        };
        let mut i: usize = 0;
        while i < m
            invariant
                n == viewers@.len(),
                m <= n,
                m <= probed@.len(),
                i <= m,
                name@ == auto_name(),
                forall|j: int| 0 <= j < i ==> !(#[trigger] probed@[j]).usable(),
            decreases m - i,
        {
            if probed[i].is_supported() {
                proof {
                    assert(first_supported(probed@, i as int));
                    let c = choose|at: int| first_supported(probed@, at) && at < viewers@.len();
                    lemma_first_supported_unique(probed@, c, i as int);
                }
                return Selection::Chosen(i);
            }
            i += 1;
        }
        proof {
            if exists|at: int| first_supported(probed@, at) && at < viewers@.len() {
                let c = choose|at: int| first_supported(probed@, at) && at < viewers@.len();
                assert(!probed@[c].usable());
            }
        }
        if probed.len() < n {
            Selection::Probe(probed.len())
        } else {
            Selection::NoViewerAvailable
        }
    } else {
        let mut i: usize = 0;
        while i < n
            invariant
                n == viewers@.len(),
                i <= n,
                name@ != auto_name(),
                forall|j: int| 0 <= j < i ==> (#[trigger] viewers@[j]).label() != name@,
            decreases n - i,
        {
            if same_text(viewers[i].name(), name) {
                proof {
                    assert(first_named(viewers@, name@, i as int));
                    let c = choose|at: int| first_named(viewers@, name@, at);
                    lemma_first_named_unique(viewers@, name@, c, i as int);
                }
                return Selection::Chosen(i);
            }
            i += 1;
        }
        proof {
            if exists|at: int| first_named(viewers@, name@, at) {
                let c = choose|at: int| first_named(viewers@, name@, at);
                assert(viewers@[c].label() != name@);
            }
        }
        Selection::NoViewerAvailable
    }
}

/// The reports agree with what the fallback always says: wherever the
/// fallback stands among the probed backends, its report is support.
pub open spec fn fallback_reports_support(viewers: Seq<Viewer>, probed: Seq<Capability>) -> bool {
    forall|i: int|
        0 <= i < probed.len() && i < viewers.len() && #[trigger] viewers[i] == Viewer::Mosaic
            ==> probed[i] == Capability::Supported
}

/// The fallback's probe is over at once and reports support, whatever the
/// terminal is and whatever it said.
pub proof fn lemma_fallback_always_supported(program: Option<Seq<char>>, replies: Seq<Seq<u8>>)
    ensures
        Viewer::Mosaic.probe(program, replies) == ProbeStepView::Done(Capability::Supported),
{
}

/// With the fallback in the registry, selecting `auto` never ends without
/// a backend: at every stage it probes on or has chosen one.
pub proof fn lemma_auto_never_fails(viewers: Seq<Viewer>, probed: Seq<Capability>)
    requires
        viewers.contains(Viewer::Mosaic),
        probed.len() <= viewers.len(),
        fallback_reports_support(viewers, probed),
    ensures
        selection(viewers, auto_name(), probed) != Selection::NoViewerAvailable,
{
    if probed.len() == viewers.len() {
        let k = choose|k: int| 0 <= k < viewers.len() && viewers[k] == Viewer::Mosaic;
        assert(probed[k] == Capability::Supported);
        lemma_some_first_supported(probed, k);
    }
}

/// If some place reported support, there is a first such place, and it is
/// not after that one.
proof fn lemma_some_first_supported(probed: Seq<Capability>, k: int)
    requires
        0 <= k < probed.len(),
        probed[k].usable(),
    ensures
        exists|at: int| first_supported(probed, at) && at <= k,
    decreases k,
{
    if exists|j: int| 0 <= j < k && (#[trigger] probed[j]).usable() {
        let j = choose|j: int| 0 <= j < k && (#[trigger] probed[j]).usable();
        lemma_some_first_supported(probed, j);
    } else {
        assert(first_supported(probed, k));
    }
}

/// With the fallback last in the registry and no other backend reporting
/// support, selecting `auto` after all probes chooses the fallback.
pub proof fn lemma_auto_chooses_fallback(viewers: Seq<Viewer>, probed: Seq<Capability>)
    requires
        viewers.len() > 0,
        viewers.last() == Viewer::Mosaic,
        probed.len() == viewers.len(),
        fallback_reports_support(viewers, probed),
        forall|i: int| 0 <= i < viewers.len() - 1 ==> !(#[trigger] probed[i]).usable(),
    ensures
        selection(viewers, auto_name(), probed) == Selection::Chosen((viewers.len() - 1) as usize),
{
    let last = viewers.len() - 1;
    assert(viewers[last] == Viewer::Mosaic);
    assert(probed[last] == Capability::Supported);
    assert(first_supported(probed, last));
    let c = choose|at: int| first_supported(probed, at) && at < viewers.len();
    lemma_first_supported_unique(probed, c, last);
}

/// What follows a failed render.
#[derive(Debug, Clone, Copy, PartialEq, Eq, Structural)]
pub enum Recovery {
    /// The failure counts against the backend only: rule it out and select
    /// again.
    NextBackend,
    /// The failure is the caller's to see.
    GiveUp(RenderError),
}

/// What follows a failed render, given the name that was asked for.
///
/// Under `auto`, a backend that turns out unsupported or cannot encode the
/// image gives way to the next one. Every other failure, and every
/// failure of a backend that was asked for by name, goes to the caller.
pub open spec fn recovery(name: Seq<char>, error: RenderError) -> Recovery {
    if name == auto_name() && (error == RenderError::Unsupported || error
        == RenderError::EncodeFailure) {
        Recovery::NextBackend
    } else {
        Recovery::GiveUp(error)
    }
}

/// Decides what follows a failed render.
pub fn recover(name: &str, error: RenderError) -> (next: Recovery)
    ensures
        next == recovery(name@, error),
{
    if same_text(name, "auto") {
        match error {
            RenderError::Unsupported => Recovery::NextBackend,
            RenderError::EncodeFailure => Recovery::NextBackend,
            RenderError::IOFailure => Recovery::GiveUp(error),
            RenderError::NoViewerAvailable => Recovery::GiveUp(error),
        }
    } else {
        Recovery::GiveUp(error)
    }
}

/// The reports with the backend at `at` ruled out.
pub open spec fn ruled_out(probed: Seq<Capability>, at: int) -> Seq<Capability> {
    if 0 <= at < probed.len() {
        probed.update(at, Capability::Unsupported)
    } else {
        probed
    }
}

/// Rules the backend at `at` out of the selection: its report becomes a
/// refusal.
pub fn rule_out(probed: &mut Vec<Capability>, at: usize)
    ensures
        final(probed)@ == ruled_out(old(probed)@, at as int),
{
    if at < probed.len() {
        probed.set(at, Capability::Unsupported);
    }
}

/// After the chosen backend is ruled out, selecting `auto` again moves on:
/// it chooses a later backend, asks for the next probe, or ends without a
/// backend when none is left.
pub proof fn lemma_rule_out_moves_on(viewers: Seq<Viewer>, probed: Seq<Capability>, at: int)
    requires
        selection(viewers, auto_name(), probed) == Selection::Chosen(at as usize),
        0 <= at < viewers.len() <= usize::MAX,
        probed.len() <= viewers.len(),
    ensures
        match selection(viewers, auto_name(), ruled_out(probed, at)) {
            Selection::Chosen(next) => at < next < probed.len() && probed[next as int].usable(),
            Selection::Probe(next) => next == probed.len() < viewers.len(),
            Selection::NoViewerAvailable => probed.len() == viewers.len(),
        },
{
    let c = choose|k: int| first_supported(probed, k) && k < viewers.len();
    assert(first_supported(probed, c) && c < viewers.len());
    assert(c == at);
    let after = ruled_out(probed, at);
    if exists|k: int| first_supported(after, k) && k < viewers.len() {
        let next = choose|k: int| first_supported(after, k) && k < viewers.len();
        assert(first_supported(after, next));
        if next < at {
            assert(after[next] == probed[next]);
            assert(!probed[next].usable());
        }
        assert(next != at);
        assert(after[next] == probed[next]);
    }
}

/// One line of the protocol listing: the backend's name and whether its
/// probe reported support.
pub struct Protocol {
    pub name: &'static str,
    pub supported: bool,
}

impl View for Protocol {
    type V = (Seq<char>, bool);

    open spec fn view(&self) -> (Seq<char>, bool) {
        (self.name@, self.supported)
    }
}

/// The protocol listing as mathematical data: one entry for each backend
/// of the registry, in registry order, with its name and whether its probe
/// reported support. A backend that was not probed counts as unsupported.
pub open spec fn listing(viewers: Seq<Viewer>, probed: Seq<Capability>) -> Seq<(Seq<char>, bool)> {
    Seq::new(
        viewers.len(),
        |i: int| (viewers[i].label(), i < probed.len() && probed[i].usable()),
    )
}

/// The entries of a listing, as mathematical data.
pub open spec fn protocol_views(list: Seq<Protocol>) -> Seq<(Seq<char>, bool)> {
    Seq::new(list.len(), |i: int| list[i]@)
}

/// The listing follows the registry: it is as long, and its entry at each
/// place names the backend at that place.
pub proof fn lemma_listing_order(viewers: Seq<Viewer>, probed: Seq<Capability>)
    ensures
        listing(viewers, probed).len() == viewers.len(),
        forall|i: int|
            0 <= i < viewers.len() ==> (#[trigger] listing(viewers, probed)[i]).0
                == viewers[i].label(),
{
}

/// Builds the protocol listing.
pub fn list_protocols(viewers: &Vec<Viewer>, probed: &Vec<Capability>) -> (list: Vec<Protocol>)
    ensures
        protocol_views(list@) == listing(viewers@, probed@),
{
    let n: usize = viewers.len();
    let mut list: Vec<Protocol> = Vec::new();
    let mut i: usize = 0;
    while i < n
        invariant
            n == viewers@.len(),
            i <= n,
            list@.len() == i,
            forall|j: int|
                0 <= j < i ==> (#[trigger] list@[j])@ == (
                    viewers@[j].label(),
                    j < probed@.len() && probed@[j].usable(),
                ),
        decreases n - i,
    {
        let supported: bool = i < probed.len() && probed[i].is_supported();
        list.push(Protocol { name: viewers[i].name(), supported });
        i += 1;
    }
    assert(protocol_views(list@) =~= listing(viewers@, probed@));
    list
}

/// The text of one line of the listing: `<name> is  supported`, or
/// `<name> is NOT supported`.
pub open spec fn protocol_line(name: Seq<char>, supported: bool) -> Seq<char> {
    name + " is "@ + (if supported {
        ""@
    } else {
        "NOT"@
    }) + " supported"@
}

impl Protocol {
    /// The line as text.
    pub fn line(&self) -> (text: String)
        ensures
            text@ == protocol_line(self.name@, self.supported),
    {
        let mut text: String = self.name.to_owned();
        text = vstd::string::StringExecFns::concat(text, " is ");
        if !self.supported {
            text = vstd::string::StringExecFns::concat(text, "NOT");
        } else {
            text = vstd::string::StringExecFns::concat(text, "");
        }
        vstd::string::StringExecFns::concat(text, " supported")
    }
}

} // verus!
