//! A plain-value model of the processing graph: elements nested in
//! containers, their pads, and how the pads are attached.

use crate::state::RunState;
use crate::text::{decimal, lemma_decimal_injective, lemma_prefix_cancel, push_decimal, same_text};
use vstd::prelude::*;
use vstd::string::StringExecFns;

verus! {

/// The direction in which data leaves or enters a pad.
#[derive(Clone, Copy, Debug, PartialEq, Eq, Structural)]
pub enum Direction {
    Src,
    Sink,
}

/// What an element is.
#[derive(Clone, Copy, Debug, PartialEq, Eq, Structural)]
pub enum ElementKind {
    /// The top-level graph.
    Graph,
    /// A container nested in the graph.
    Container,
    /// The negotiating sub-element on which tracks appear.
    WebRtc,
    /// The shared audio mixer.
    Mixer,
    /// A decode stage.
    Decode,
    /// A format-convert stage.
    Convert,
    /// A resample stage.
    Resample,
    /// A stage that constrains the stream to the fixed audio format.
    Constrain,
    /// A terminal sink that discards what it receives.
    Discard,
    /// Any other element.
    Other,
}

/// How a pad is attached.
#[derive(Clone, Copy, Debug, PartialEq, Eq, Structural)]
pub enum Attachment {
    /// Not attached to anything.
    Free,
    /// Linked to the pad with this index.
    Linked(usize),
    /// Exposed at the containing level by the ghost pad with this index.
    Exposed(usize),
    /// Linked to a pad that the model does not hold.
    External,
}

/// An element of the graph.
#[derive(Clone, Copy, Debug, PartialEq, Eq)]
pub struct Element {
    pub kind: ElementKind,
    /// The container that holds the element; `None` for the graph itself.
    pub parent: Option<usize>,
    pub state: RunState,
    /// How many input slots the element has handed out.
    pub slots: usize,
}

/// A pad of an element.
#[derive(Clone, Debug, PartialEq, Eq)]
pub struct Pad {
    /// The element the pad is on.
    pub owner: usize,
    pub name: String,
    pub direction: Direction,
    pub attachment: Attachment,
    /// For a ghost pad, the pad one level further in that it forwards to.
    pub target: Option<usize>,
}

/// What a pad holds.
pub struct PadView {
    pub owner: usize,
    pub name: Seq<char>,
    pub direction: Direction,
    pub attachment: Attachment,
    pub target: Option<usize>,
}

impl View for Pad {
    type V = PadView;

    open spec fn view(&self) -> PadView {
        PadView {
            owner: self.owner,
            name: self.name@,
            direction: self.direction,
            attachment: self.attachment,
            target: self.target,
        }
    }
}

/// What a topology holds: its elements and its pads, each in the order
/// in which they came to be. Element 0 is the graph.
pub struct TopologyView {
    pub elements: Seq<Element>,
    pub pads: Seq<PadView>,
}

/// Why the model refuses a change.
#[derive(Clone, Copy, Debug, PartialEq, Eq, Structural)]
pub enum Fault {
    /// No element has this index.
    UnknownElement,
    /// No pad has this index.
    UnknownPad,
    /// The element has no container to go by.
    NoParent,
    /// The element cannot hold pads of nested elements.
    NotAContainer,
    /// The element hands out no input slots.
    NotAMixer,
    /// Elements of this kind are not created at run time.
    NotCreatable,
    /// Elements or pads of this kind are not reported from outside.
    NotObservable,
    /// The pad is attached already.
    Occupied,
    /// A link must lead from a source pad to a sink pad.
    WrongDirection,
    /// The two pads are not at the same nesting level.
    WrongHierarchy,
    /// The target is not directly inside the container.
    TargetOutside,
    /// The element has a pad of this name already.
    NameTaken,
    /// The element lies directly in the graph, or is the graph: there is no
    /// level to promote a pad through.
    NotNested,
    /// No further element, pad or input slot can be numbered.
    Exhausted,
    /// The command names other indices for what it creates than the next
    /// free ones.
    OutOfOrder,
    /// The pad is not on the input container, where tracks appear.
    NotATrack,
}

/// The name of the input slot with number `n`.
pub open spec fn slot_name(n: nat) -> Seq<char> {
    "sink_"@ + decimal(n)
}

/// The name of every static sink pad.
pub open spec fn sink_name() -> Seq<char> {
    "sink"@
}

/// The name of every static source pad.
pub open spec fn src_name() -> Seq<char> {
    "src"@
}

/// Different slots have different names.
pub proof fn lemma_slot_name_injective(a: nat, b: nat)
    requires
        slot_name(a) == slot_name(b),
    ensures
        a == b,
{
    lemma_prefix_cancel("sink_"@, decimal(a), decimal(b));
    lemma_decimal_injective(a, b);
}

/// Whether elements of this kind hold other elements.
pub open spec fn is_container(kind: ElementKind) -> bool {
    kind == ElementKind::Graph || kind == ElementKind::Container
}

/// Whether elements of this kind are created at run time.
pub open spec fn creatable(kind: ElementKind) -> bool {
    kind == ElementKind::Decode || kind == ElementKind::Convert || kind == ElementKind::Resample
        || kind == ElementKind::Constrain || kind == ElementKind::Discard
}

/// Whether elements of this kind are reported from outside.
pub open spec fn observable(kind: ElementKind) -> bool {
    kind == ElementKind::Container || kind == ElementKind::WebRtc || kind == ElementKind::Other
}

/// Whether a created element of this kind has a static source pad
/// beside its static sink pad.
pub open spec fn has_static_src(kind: ElementKind) -> bool {
    kind == ElementKind::Convert || kind == ElementKind::Resample || kind
        == ElementKind::Constrain
}

impl TopologyView {
    /// There is an element with index `e`.
    pub open spec fn has_element(self, e: usize) -> bool {
        e < self.elements.len()
    }

    /// There is a pad with index `p`.
    pub open spec fn has_pad(self, p: usize) -> bool {
        p < self.pads.len()
    }

    /// There is room for `elements` more elements and `pads` more pads.
    pub open spec fn has_room(self, elements: nat, pads: nat) -> bool {
        self.elements.len() + elements <= usize::MAX && self.pads.len() + pads <= usize::MAX
    }

    /// The container of the element that pad `p` is on.
    pub open spec fn level_of(self, p: usize) -> Option<usize> {
        self.elements[self.pads[p as int].owner as int].parent
    }

    /// Element `owner` has a pad called `name`.
    pub open spec fn name_taken(self, owner: usize, name: Seq<char>) -> bool {
        exists|k: int|
            0 <= k < self.pads.len() && (#[trigger] self.pads[k]).owner == owner
                && self.pads[k].name == name
    }

    /// Element `i` is the graph itself, or lies in a container that came
    /// before it.
    pub open spec fn element_ok(self, i: int) -> bool {
        let e = self.elements[i];
        if i == 0 {
            e.kind == ElementKind::Graph && e.parent is None
        } else {
            &&& e.kind != ElementKind::Graph
            &&& e.parent matches Some(p)
            &&& p < i
            &&& is_container(self.elements[p as int].kind)
        }
    }

    /// Pad `k` is on an element of the topology. If it is linked, the link
    /// is mutual, joins a source to a sink, and stays within one nesting
    /// level. If it is exposed, it is the target of the ghost pad that
    /// exposes it, and that pad is on the container of the pad's element.
    /// If it is a ghost pad, it came after its target, forwards in the
    /// target's direction, and is what exposes the target.
    pub open spec fn pad_ok(self, k: int) -> bool {
        let pad = self.pads[k];
        &&& pad.owner < self.elements.len()
        &&& match pad.attachment {
            Attachment::Free => true,
            Attachment::External => true,
            Attachment::Linked(j) => {
                &&& j < self.pads.len()
                &&& self.pads[j as int].attachment == Attachment::Linked(k as usize)
                &&& self.pads[j as int].direction != pad.direction
                &&& self.level_of(j) == self.level_of(k as usize)
            },
            Attachment::Exposed(g) => {
                &&& g < self.pads.len()
                &&& self.pads[g as int].target == Some(k as usize)
                &&& self.level_of(k as usize) == Some(self.pads[g as int].owner)
            },
        }
        &&& match pad.target {
            None => true,
            Some(t) => {
                &&& t < k
                &&& self.pads[t as int].attachment == Attachment::Exposed(k as usize)
                &&& self.pads[t as int].direction == pad.direction
            },
        }
    }

    /// Pads `j` and `k` do not share both their element and their name.
    pub open spec fn names_differ(self, j: int, k: int) -> bool {
        self.pads[j].owner == self.pads[k].owner ==> self.pads[j].name != self.pads[k].name
    }

    /// If pad `k` is on a mixer and bears the name of slot `n`, the mixer
    /// has handed out more than `n` slots.
    pub open spec fn slot_ok(self, k: int, n: nat) -> bool {
        self.elements[self.pads[k].owner as int].kind == ElementKind::Mixer && self.pads[k].name
            == slot_name(n) ==> n < self.elements[self.pads[k].owner as int].slots
    }

    /// The invariant of a topology.
    pub open spec fn wf(self) -> bool {
        &&& 1 <= self.elements.len() <= usize::MAX
        &&& self.pads.len() <= usize::MAX
        &&& forall|i: int| 0 <= i < self.elements.len() ==> #[trigger] self.element_ok(i)
        &&& forall|k: int| 0 <= k < self.pads.len() ==> #[trigger] self.pad_ok(k)
        &&& forall|j: int, k: int| 0 <= j < k < self.pads.len() ==> #[trigger] self.names_differ(j, k)
        &&& forall|k: int, n: nat| 0 <= k < self.pads.len() ==> #[trigger] self.slot_ok(k, n)
    }

    /// Every element that lies directly in the graph runs in the graph's
    /// state.
    pub open spec fn settled(self) -> bool {
        forall|i: int|
            1 <= i < self.elements.len() && (#[trigger] self.elements[i]).parent == Some(0usize)
                ==> self.elements[i].state == self.elements[0].state
    }

    /// The topology with pad `p` attached as `attachment` says.
    pub open spec fn attached(self, p: usize, attachment: Attachment) -> TopologyView {
        TopologyView {
            pads: self.pads.update(p as int, PadView { attachment, ..self.pads[p as int] }),
            ..self
        }
    }

    /// The topology with element `e` in `state`.
    pub open spec fn in_state(self, e: usize, state: RunState) -> TopologyView {
        TopologyView {
            elements: self.elements.update(e as int, Element { state, ..self.elements[e as int] }),
            ..self
        }
    }
}

impl ElementKind {
    /// Computes [`is_container`].
    pub fn holds_elements(self) -> (yes: bool)
        ensures
            yes == is_container(self),
    {
        match self {
            ElementKind::Graph => true,
            ElementKind::Container => true,
            _ => false,
        }
    }

    /// Computes [`creatable`].
    pub fn is_creatable(self) -> (yes: bool)
        ensures
            yes == creatable(self),
    {
        match self {
            ElementKind::Decode => true,
            ElementKind::Convert => true,
            ElementKind::Resample => true,
            ElementKind::Constrain => true,
            ElementKind::Discard => true,
            _ => false,
        }
    }

    /// Computes [`observable`].
    pub fn is_observable(self) -> (yes: bool)
        ensures
            yes == observable(self),
    {
        match self {
            ElementKind::Container => true,
            ElementKind::WebRtc => true,
            ElementKind::Other => true,
            _ => false,
        }
    }

    /// Computes [`has_static_src`].
    pub fn has_src(self) -> (yes: bool)
        ensures
            yes == has_static_src(self),
    {
        match self {
            ElementKind::Convert => true,
            ElementKind::Resample => true,
            ElementKind::Constrain => true,
            _ => false,
        }
    }

    /// Whether this is the mixer kind.
    pub fn is_mixer(self) -> (yes: bool)
        ensures
            yes == (self == ElementKind::Mixer),
    {
        match self {
            ElementKind::Mixer => true,
            _ => false,
        }
    }
}

/// Writes the name of the input slot with number `n`.
pub fn slot_label(n: usize) -> (name: String)
    ensures
        name@ == slot_name(n as nat),
{
    let mut name = String::from_str("sink_");
    push_decimal(&mut name, n as u64);
    name
}

/// The index of the graph itself.
pub const GRAPH: usize = 0;

/// The index of the container that holds the negotiating session.
pub const INPUT: usize = 1;

/// The index of the shared mixer.
pub const MIXER: usize = 2;

/// The topology that the static description declares, as far as the
/// orchestrator refers to it: the graph, the input container and the mixer.
/// The mixer's output and its first slot, which the silence source feeds,
/// are linked to pads that the model does not hold.
pub open spec fn initial() -> TopologyView {
    TopologyView {
        elements: seq![
            Element { kind: ElementKind::Graph, parent: None, state: RunState::Null, slots: 0 },
            Element {
                kind: ElementKind::Container,
                parent: Some(0usize),
                state: RunState::Null,
                slots: 0,
            },
            Element {
                kind: ElementKind::Mixer,
                parent: Some(0usize),
                state: RunState::Null,
                slots: 1,
            },
        ],
        pads: seq![
            PadView {
                owner: 2,
                name: src_name(),
                direction: Direction::Src,
                attachment: Attachment::External,
                target: None,
            },
            PadView {
                owner: 2,
                name: slot_name(0),
                direction: Direction::Sink,
                attachment: Attachment::External,
                target: None,
            },
        ],
    }
}

/// The name of a slot is longer than the name of a static pad.
pub proof fn lemma_slot_name_long(n: nat)
    ensures
        slot_name(n).len() >= 6,
        sink_name().len() == 4,
        src_name().len() == 3,
{
    reveal_strlit("sink_");
    reveal_strlit("sink");
    reveal_strlit("src");
    assert("sink_"@.len() == 5);
    assert("sink"@.len() == 4);
    assert("src"@.len() == 3);
    crate::text::lemma_decimal_nonempty(n);
}

/// The initial topology meets the invariant.
pub proof fn lemma_initial_wf()
    ensures
        initial().wf(),
        initial().settled(),
{
    let t = initial();
    assert forall|i: int| 0 <= i < t.elements.len() implies #[trigger] t.element_ok(i) by {}
    assert forall|k: int| 0 <= k < t.pads.len() implies #[trigger] t.pad_ok(k) by {}
    assert forall|j: int, k: int| 0 <= j < k < t.pads.len() implies #[trigger] t.names_differ(
        j,
        k,
    ) by {
        lemma_slot_name_long(0);
    }
    assert forall|k: int, n: nat| 0 <= k < t.pads.len() implies #[trigger] t.slot_ok(k, n) by {
        lemma_slot_name_long(n);
        if k == 1 && slot_name(n) == slot_name(0) {
            lemma_slot_name_injective(n, 0);
        }
    }
}

/// The views of the pads of a vector.
pub open spec fn pad_views(pads: Seq<Pad>) -> Seq<PadView> {
    Seq::new(pads.len(), |i: int| pads[i]@)
}

/// The model of one processing graph.
#[derive(Debug)]
pub struct Topology {
    elements: Vec<Element>,
    pads: Vec<Pad>,
}

impl View for Topology {
    type V = TopologyView;

    closed spec fn view(&self) -> TopologyView {
        TopologyView { elements: self.elements@, pads: pad_views(self.pads@) }
    }
}

impl Topology {
    /// The invariant of a topology.
    pub open spec fn wf(&self) -> bool {
        self@.wf()
    }

    /// The model of a graph that was just built from the static
    /// description.
    pub fn new() -> (t: Topology)
        ensures
            t@ == initial(),
            t.wf(),
    {
        let mut t = Topology::bare();
        t.push_element(
            Element { kind: ElementKind::Graph, parent: None, state: RunState::Null, slots: 0 },
        );
        t.push_element(
            Element {
                kind: ElementKind::Container,
                parent: Some(GRAPH),
                state: RunState::Null,
                slots: 0,
            },
        );
        t.push_element(
            Element { kind: ElementKind::Mixer, parent: Some(GRAPH), state: RunState::Null, slots: 1 },
        );
        t.push_pad(
            Pad {
                owner: MIXER,
                name: String::from_str("src"),
                direction: Direction::Src,
                attachment: Attachment::External,
                target: None,
            },
        );
        t.push_pad(
            Pad {
                owner: MIXER,
                name: slot_label(0),
                direction: Direction::Sink,
                attachment: Attachment::External,
                target: None,
            },
        );
        proof {
            assert(t@.elements =~= initial().elements);
            assert(t@.pads =~= initial().pads);
            lemma_initial_wf();
        }
        t
    }

    pub(crate) fn bare() -> (t: Topology)
        ensures
            t@.elements == Seq::<Element>::empty(),
            t@.pads == Seq::<PadView>::empty(),
    {
        let t = Topology { elements: Vec::new(), pads: Vec::new() };
        assert(t@.pads =~= Seq::<PadView>::empty());
        t
    }

    /// The number of elements.
    pub fn element_count(&self) -> (n: usize)
        ensures
            n == self@.elements.len(),
    {
        self.elements.len()
    }

    /// The number of pads.
    pub fn pad_count(&self) -> (n: usize)
        ensures
            n == self@.pads.len(),
    {
        self.pads.len()
    }

    /// Whether there is room for `elements` more elements and `pads` more
    /// pads.
    pub fn has_room_for(&self, elements: usize, pads: usize) -> (yes: bool)
        ensures
            yes == self@.has_room(elements as nat, pads as nat),
    {
        self.elements.len() <= usize::MAX - elements && self.pads.len() <= usize::MAX - pads
    }

    /// The element with index `e`.
    pub fn element(&self, e: usize) -> (found: Option<Element>)
        ensures
            found == if self@.has_element(e) {
                Some(self@.elements[e as int])
            } else {
                None
            },
    {
        if e < self.elements.len() {
            Some(self.elements[e])
        } else {
            None
        }
    }

    /// The pad with index `p`.
    pub fn pad(&self, p: usize) -> (found: Option<&Pad>)
        ensures
            self@.has_pad(p) ==> found is Some && found->0@ == self@.pads[p as int],
            !self@.has_pad(p) ==> found is None,
    {
        if p < self.pads.len() {
            Some(&self.pads[p])
        } else {
            None
        }
    }

    pub(crate) fn push_element(&mut self, element: Element)
        ensures
            final(self)@ == (TopologyView {
                elements: old(self)@.elements.push(element),
                ..old(self)@
            }),
    {
        self.elements.push(element);
    }

    pub(crate) fn push_pad(&mut self, pad: Pad)
        ensures
            final(self)@ == (TopologyView { pads: old(self)@.pads.push(pad@), ..old(self)@ }),
    {
        self.pads.push(pad);
        assert(pad_views(self.pads@) =~= pad_views(old(self).pads@).push(pad@));
    }

    pub(crate) fn set_attachment(&mut self, p: usize, attachment: Attachment)
        requires
            old(self)@.has_pad(p),
        ensures
            final(self)@ == old(self)@.attached(p, attachment),
    {
        self.pads[p].attachment = attachment;
        assert(pad_views(self.pads@) =~= old(self)@.attached(p, attachment).pads);
    }

    pub(crate) fn set_element(&mut self, e: usize, element: Element)
        requires
            old(self)@.has_element(e),
        ensures
            final(self)@ == (TopologyView {
                elements: old(self)@.elements.update(e as int, element),
                ..old(self)@
            }),
    {
        self.elements[e] = element;
    }

    /// Whether element `owner` has a pad called `name`.
    pub fn is_name_taken(&self, owner: usize, name: &str) -> (taken: bool)
        ensures
            taken == self@.name_taken(owner, name@),
    {
        let mut k: usize = 0;
        while k < self.pads.len()
            invariant
                k <= self.pads.len(),
                forall|j: int|
                    0 <= j < k ==> !((#[trigger] self@.pads[j]).owner == owner && self@.pads[j].name
                        == name@),
            decreases self.pads.len() - k,
        {
            if self.pads[k].owner == owner && same_text(self.pads[k].name.as_str(), name) {
                assert(self@.pads[k as int].owner == owner && self@.pads[k as int].name == name@);
                return true;
            }
            k += 1;
        }
        false
    }
}

} // verus!
