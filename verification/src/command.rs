//! The changes that the orchestrator asks for, and what each does to the
//! model of the graph.

use crate::state::RunState;
use crate::topology::{
    creatable, has_static_src, is_container, lemma_slot_name_injective, sink_name, slot_name,
    slot_label, src_name, Attachment, Direction, Element, ElementKind, Fault, Pad, PadView,
    Topology, TopologyView,
};
use vstd::prelude::*;
use vstd::string::StringExecFns;

verus! {

/// One change to the graph. Elements and pads are named by their index
/// in the model. A command that creates something says which index the
/// new thing takes, which is always the next free one.
#[derive(Clone, Debug, PartialEq, Eq)]
pub enum Command {
    /// Create an element of `kind` and add it to the graph. The element
    /// takes the index `element`, its static sink pad the index `pad`, and
    /// its static source pad, if the kind has one, the index after `pad`.
    Make { kind: ElementKind, element: usize, pad: usize },
    /// Bring the element's running state in line with its container's.
    Sync { element: usize },
    /// Link the source pad `src` to the sink pad `sink`.
    Link { src: usize, sink: usize },
    /// Add to `container` a ghost pad called `name` that forwards to
    /// `target`. The ghost pad takes the index `pad`.
    Expose { container: usize, name: String, target: usize, pad: usize },
    /// Ask the mixer `element` for a fresh input slot, which takes the
    /// index `pad`.
    Request { element: usize, pad: usize },
    /// Subscribe to the pads that `element` will add.
    Watch { element: usize },
    /// Wait for the first buffer on `pad`.
    Probe { pad: usize },
}

/// What a command holds.
pub enum CommandView {
    Make { kind: ElementKind, element: usize, pad: usize },
    Sync { element: usize },
    Link { src: usize, sink: usize },
    Expose { container: usize, name: Seq<char>, target: usize, pad: usize },
    Request { element: usize, pad: usize },
    Watch { element: usize },
    Probe { pad: usize },
}

impl View for Command {
    type V = CommandView;

    open spec fn view(&self) -> CommandView {
        match *self {
            Command::Make { kind, element, pad } => CommandView::Make { kind, element, pad },
            Command::Sync { element } => CommandView::Sync { element },
            Command::Link { src, sink } => CommandView::Link { src, sink },
            Command::Expose { container, name, target, pad } => CommandView::Expose {
                container,
                name: name@,
                target,
                pad,
            },
            Command::Request { element, pad } => CommandView::Request { element, pad },
            Command::Watch { element } => CommandView::Watch { element },
            Command::Probe { pad } => CommandView::Probe { pad },
        }
    }
}

/// The views of the commands of a vector.
pub open spec fn command_views(commands: Seq<Command>) -> Seq<CommandView> {
    Seq::new(commands.len(), |i: int| commands[i]@)
}

/// Where a sequence of commands leaves the model: the topology that was
/// reached, and the fault that stopped the sequence, if one did.
pub struct Outcome {
    pub topology: TopologyView,
    pub fault: Option<Fault>,
}

/// A static pad of a fresh element.
pub open spec fn static_pad(owner: usize, name: Seq<char>, direction: Direction) -> PadView {
    PadView { owner, name, direction, attachment: Attachment::Free, target: None }
}

impl TopologyView {
    /// With a fresh element of `kind` in the graph.
    pub open spec fn made(self, kind: ElementKind) -> TopologyView {
        let n = self.elements.len() as usize;
        let element = Element { kind, parent: Some(0usize), state: RunState::Null, slots: 0 };
        let with_sink = self.pads.push(static_pad(n, sink_name(), Direction::Sink));
        TopologyView {
            elements: self.elements.push(element),
            pads: if has_static_src(kind) {
                with_sink.push(static_pad(n, src_name(), Direction::Src))
            } else {
                with_sink
            },
        }
    }

    /// With element `e` in the running state of its container.
    pub open spec fn synced(self, e: usize) -> TopologyView {
        self.in_state(e, self.elements[self.elements[e as int].parent->0 as int].state)
    }

    /// With `src` and `sink` linked to each other.
    pub open spec fn linked(self, src: usize, sink: usize) -> TopologyView {
        self.attached(src, Attachment::Linked(sink)).attached(sink, Attachment::Linked(src))
    }

    /// With a ghost pad called `name` on `container` that exposes `target`.
    pub open spec fn ghosted(self, container: usize, name: Seq<char>, target: usize) -> TopologyView {
        let g = self.pads.len() as usize;
        let outer = PadView {
            owner: container,
            name,
            direction: self.pads[target as int].direction,
            attachment: Attachment::Free,
            target: Some(target),
        };
        (TopologyView { pads: self.pads.push(outer), ..self }).attached(
            target,
            Attachment::Exposed(g),
        )
    }

    /// With one more input slot on the mixer `e`.
    pub open spec fn requested(self, e: usize) -> TopologyView {
        let mixer = self.elements[e as int];
        let slot = static_pad(e, slot_name(mixer.slots as nat), Direction::Sink);
        TopologyView {
            elements: self.elements.update(
                e as int,
                Element { slots: (mixer.slots + 1) as usize, ..mixer },
            ),
            pads: self.pads.push(slot),
        }
    }

    /// Why the model refuses `c`, if it does.
    pub open spec fn fault(self, c: CommandView) -> Option<Fault> {
        match c {
            CommandView::Make { kind, element, pad } => if !creatable(kind) {
                Some(Fault::NotCreatable)
            } else if element != self.elements.len() || pad != self.pads.len() {
                Some(Fault::OutOfOrder)
            } else if !self.has_room(1, 2) {
                Some(Fault::Exhausted)
            } else {
                None
            },
            CommandView::Sync { element } => if !self.has_element(element) {
                Some(Fault::UnknownElement)
            } else if self.elements[element as int].parent is None {
                Some(Fault::NoParent)
            } else {
                None
            },
            CommandView::Link { src, sink } => if !self.has_pad(src) || !self.has_pad(sink) {
                Some(Fault::UnknownPad)
            } else if self.pads[src as int].direction != Direction::Src || self.pads[sink as int].direction
                != Direction::Sink {
                Some(Fault::WrongDirection)
            } else if self.pads[src as int].attachment != Attachment::Free
                || self.pads[sink as int].attachment != Attachment::Free {
                Some(Fault::Occupied)
            } else if self.level_of(src) != self.level_of(sink) {
                Some(Fault::WrongHierarchy)
            } else {
                None
            },
            CommandView::Expose { container, name, target, pad } => if !self.has_element(
                container,
            ) {
                Some(Fault::UnknownElement)
            } else if !self.has_pad(target) {
                Some(Fault::UnknownPad)
            } else if !is_container(self.elements[container as int].kind) {
                Some(Fault::NotAContainer)
            } else if self.pads[target as int].attachment != Attachment::Free {
                Some(Fault::Occupied)
            } else if self.level_of(target) != Some(container) {
                Some(Fault::TargetOutside)
            } else if self.name_taken(container, name) {
                Some(Fault::NameTaken)
            } else if pad != self.pads.len() {
                Some(Fault::OutOfOrder)
            } else if !self.has_room(0, 1) {
                Some(Fault::Exhausted)
            } else {
                None
            },
            CommandView::Request { element, pad } => if !self.has_element(element) {
                Some(Fault::UnknownElement)
            } else if self.elements[element as int].kind != ElementKind::Mixer {
                Some(Fault::NotAMixer)
            } else if pad != self.pads.len() {
                Some(Fault::OutOfOrder)
            } else if self.elements[element as int].slots == usize::MAX || !self.has_room(0, 1) {
                Some(Fault::Exhausted)
            } else {
                None
            },
            CommandView::Watch { element } => if !self.has_element(element) {
                Some(Fault::UnknownElement)
            } else {
                None
            },
            CommandView::Probe { pad } => if !self.has_pad(pad) {
                Some(Fault::UnknownPad)
            } else {
                None
            },
        }
    }

    /// The topology after `c`, where the model does not refuse it.
    pub open spec fn effect(self, c: CommandView) -> TopologyView {
        match c {
            CommandView::Make { kind, .. } => self.made(kind),
            CommandView::Sync { element } => self.synced(element),
            CommandView::Link { src, sink } => self.linked(src, sink),
            CommandView::Expose { container, name, target, .. } => self.ghosted(
                container,
                name,
                target,
            ),
            CommandView::Request { element, .. } => self.requested(element),
            CommandView::Watch { element } => self,
            CommandView::Probe { pad } => self,
        }
    }

    /// Where the commands of `cs`, taken in turn, leave the model. The first
    /// command that the model refuses stops the sequence.
    pub open spec fn run(self, cs: Seq<CommandView>) -> Outcome
        decreases cs.len(),
    {
        if cs.len() == 0 {
            Outcome { topology: self, fault: None }
        } else if self.fault(cs[0]) is Some {
            Outcome { topology: self, fault: self.fault(cs[0]) }
        } else {
            self.effect(cs[0]).run(cs.drop_first())
        }
    }
}

/// The static pad names are distinct.
pub proof fn lemma_static_names()
    ensures
        sink_name().len() == 4,
        src_name().len() == 3,
        sink_name() != src_name(),
{
    reveal_strlit("sink");
    reveal_strlit("src");
    assert("sink"@.len() == 4);
    assert("src"@.len() == 3);
}

/// The invariant holds of a pad and of the pads that it is attached to.
pub proof fn lemma_pad_and_peers_ok(t: TopologyView, k: int)
    requires
        t.wf(),
        0 <= k < t.pads.len(),
    ensures
        t.pad_ok(k),
        t.pads[k].attachment matches Attachment::Linked(j) ==> t.pad_ok(j as int),
        t.pads[k].attachment matches Attachment::Exposed(g) ==> t.pad_ok(g as int),
        t.pads[k].target matches Some(x) ==> t.pad_ok(x as int),
{
    assert(t.pad_ok(k));
    match t.pads[k].attachment {
        Attachment::Linked(j) => {
            assert(t.pad_ok(j as int));
        },
        Attachment::Exposed(g) => {
            assert(t.pad_ok(g as int));
        },
        _ => {},
    }
    match t.pads[k].target {
        Some(x) => {
            assert(t.pad_ok(x as int));
        },
        None => {},
    }
}

/// Creating an element keeps the invariant.
pub proof fn lemma_made_keeps_wf(t: TopologyView, kind: ElementKind)
    requires
        t.wf(),
        creatable(kind),
        t.has_room(1, 2),
    ensures
        t.made(kind).wf(),
{
    let u = t.made(kind);
    let n = t.elements.len() as int;
    let m = t.pads.len() as int;
    lemma_static_names();
    assert(t.element_ok(0));
    assert forall|i: int| 0 <= i < u.elements.len() implies #[trigger] u.element_ok(i) by {
        if i < n {
            assert(t.element_ok(i));
        }
    }
    assert forall|k: int| 0 <= k < u.pads.len() implies #[trigger] u.pad_ok(k) by {
        if k < m {
            lemma_pad_and_peers_ok(t, k);
        }
    }
    assert forall|j: int, k: int| 0 <= j < k < u.pads.len() implies #[trigger] u.names_differ(
        j,
        k,
    ) by {
        if k < m {
            assert(t.names_differ(j, k));
        } else if j < m {
            assert(t.pad_ok(j));
        }
    }
    assert forall|k: int, i: nat| 0 <= k < u.pads.len() implies #[trigger] u.slot_ok(k, i) by {
        if k < m {
            assert(t.slot_ok(k, i));
            assert(t.pad_ok(k));
        }
    }
}

/// Bringing an element's state in line keeps the invariant.
pub proof fn lemma_synced_keeps_wf(t: TopologyView, e: usize)
    requires
        t.wf(),
        t.has_element(e),
    ensures
        t.synced(e).wf(),
{
    let u = t.synced(e);
    assert forall|i: int| 0 <= i < u.elements.len() implies #[trigger] u.element_ok(i) by {
        assert(t.element_ok(i));
    }
    assert forall|k: int| 0 <= k < u.pads.len() implies #[trigger] u.pad_ok(k) by {
        lemma_pad_and_peers_ok(t, k);
    }
    assert forall|j: int, k: int| 0 <= j < k < u.pads.len() implies #[trigger] u.names_differ(
        j,
        k,
    ) by {
        assert(t.names_differ(j, k));
    }
    assert forall|k: int, i: nat| 0 <= k < u.pads.len() implies #[trigger] u.slot_ok(k, i) by {
        assert(t.slot_ok(k, i));
        assert(t.pad_ok(k));
    }
}

/// Linking two free pads of one nesting level keeps the invariant.
pub proof fn lemma_linked_keeps_wf(t: TopologyView, src: usize, sink: usize)
    requires
        t.wf(),
        t.fault(CommandView::Link { src, sink }) is None,
    ensures
        t.linked(src, sink).wf(),
{
    let u = t.linked(src, sink);
    assert forall|i: int| 0 <= i < u.elements.len() implies #[trigger] u.element_ok(i) by {
        assert(t.element_ok(i));
    }
    assert(t.pad_ok(src as int));
    assert(t.pad_ok(sink as int));
    assert forall|k: int| 0 <= k < u.pads.len() implies #[trigger] u.pad_ok(k) by {
        lemma_pad_and_peers_ok(t, k);
    }
    assert forall|j: int, k: int| 0 <= j < k < u.pads.len() implies #[trigger] u.names_differ(
        j,
        k,
    ) by {
        assert(t.names_differ(j, k));
    }
    assert forall|k: int, i: nat| 0 <= k < u.pads.len() implies #[trigger] u.slot_ok(k, i) by {
        assert(t.slot_ok(k, i));
    }
}

/// Exposing a free pad on its container keeps the invariant.
pub proof fn lemma_exposed_keeps_wf(t: TopologyView, container: usize, name: Seq<char>, target: usize)
    requires
        t.wf(),
        t.fault(
            CommandView::Expose { container, name, target, pad: t.pads.len() as usize },
        ) is None,
    ensures
        t.ghosted(container, name, target).wf(),
{
    let u = t.ghosted(container, name, target);
    let m = t.pads.len() as int;
    assert forall|i: int| 0 <= i < u.elements.len() implies #[trigger] u.element_ok(i) by {
        assert(t.element_ok(i));
    }
    assert(t.pad_ok(target as int));
    assert forall|k: int| 0 <= k < u.pads.len() implies #[trigger] u.pad_ok(k) by {
        if k < m {
            lemma_pad_and_peers_ok(t, k);
        }
    }
    assert forall|j: int, k: int| 0 <= j < k < u.pads.len() implies #[trigger] u.names_differ(
        j,
        k,
    ) by {
        if k < m {
            assert(t.names_differ(j, k));
        }
    }
    assert forall|k: int, i: nat| 0 <= k < u.pads.len() implies #[trigger] u.slot_ok(k, i) by {
        if k < m {
            assert(t.slot_ok(k, i));
        }
    }
}

/// Handing out an input slot keeps the invariant.
pub proof fn lemma_requested_keeps_wf(t: TopologyView, e: usize)
    requires
        t.wf(),
        t.fault(CommandView::Request { element: e, pad: t.pads.len() as usize }) is None,
    ensures
        t.requested(e).wf(),
{
    let u = t.requested(e);
    let m = t.pads.len() as int;
    let next = t.elements[e as int].slots as nat;
    assert forall|i: int| 0 <= i < u.elements.len() implies #[trigger] u.element_ok(i) by {
        assert(t.element_ok(i));
        assert(t.element_ok(e as int));
    }
    assert forall|k: int| 0 <= k < u.pads.len() implies #[trigger] u.pad_ok(k) by {
        if k < m {
            lemma_pad_and_peers_ok(t, k);
        }
    }
    assert forall|j: int, k: int| 0 <= j < k < u.pads.len() implies #[trigger] u.names_differ(
        j,
        k,
    ) by {
        if k < m {
            assert(t.names_differ(j, k));
        } else {
            assert(t.slot_ok(j, next));
        }
    }
    assert forall|k: int, i: nat| 0 <= k < u.pads.len() implies #[trigger] u.slot_ok(k, i) by {
        if k < m {
            assert(t.slot_ok(k, i));
            assert(t.pad_ok(k));
        } else if slot_name(i) == slot_name(next) {
            lemma_slot_name_injective(i, next);
        }
    }
}

/// A change that the model accepts keeps the invariant.
pub proof fn lemma_effect_keeps_wf(t: TopologyView, c: CommandView)
    requires
        t.wf(),
        t.fault(c) is None,
    ensures
        t.effect(c).wf(),
{
    match c {
        CommandView::Make { kind, .. } => lemma_made_keeps_wf(t, kind),
        CommandView::Sync { element } => lemma_synced_keeps_wf(t, element),
        CommandView::Link { src, sink } => lemma_linked_keeps_wf(t, src, sink),
        CommandView::Expose { container, name, target, .. } => lemma_exposed_keeps_wf(
            t,
            container,
            name,
            target,
        ),
        CommandView::Request { element, .. } => lemma_requested_keeps_wf(t, element),
        CommandView::Watch { element } => {},
        CommandView::Probe { pad } => {},
    }
}

/// A sequence of changes keeps the invariant, wherever it stops.
pub proof fn lemma_run_keeps_wf(t: TopologyView, cs: Seq<CommandView>)
    requires
        t.wf(),
    ensures
        t.run(cs).topology.wf(),
    decreases cs.len(),
{
    if cs.len() > 0 && t.fault(cs[0]) is None {
        lemma_effect_keeps_wf(t, cs[0]);
        lemma_run_keeps_wf(t.effect(cs[0]), cs.drop_first());
    }
}

impl TopologyView {
    /// `self` came from `before` by growth alone: every element and every
    /// pad of `before` is still there under its index, no element has
    /// changed its kind or its container or taken slots back, no pad has
    /// changed its element, name, direction or target, and no pad that was
    /// attached is attached otherwise or free again.
    pub open spec fn extends(self, before: TopologyView) -> bool {
        &&& before.elements.len() <= self.elements.len()
        &&& before.pads.len() <= self.pads.len()
        &&& forall|i: int|
            0 <= i < before.elements.len() ==> {
                &&& (#[trigger] self.elements[i]).kind == before.elements[i].kind
                &&& self.elements[i].parent == before.elements[i].parent
                &&& self.elements[i].slots >= before.elements[i].slots
            }
        &&& forall|k: int|
            0 <= k < before.pads.len() ==> {
                &&& (#[trigger] self.pads[k]).owner == before.pads[k].owner
                &&& self.pads[k].name == before.pads[k].name
                &&& self.pads[k].direction == before.pads[k].direction
                &&& self.pads[k].target == before.pads[k].target
                &&& before.pads[k].attachment != Attachment::Free ==> self.pads[k].attachment
                    == before.pads[k].attachment
            }
    }
}

/// Growth goes on: what extends an extension extends what that extended.
pub proof fn lemma_extends_transitive(a: TopologyView, b: TopologyView, c: TopologyView)
    requires
        b.extends(a),
        c.extends(b),
    ensures
        c.extends(a),
{
    assert forall|i: int| 0 <= i < a.elements.len() implies {
        &&& (#[trigger] c.elements[i]).kind == a.elements[i].kind
        &&& c.elements[i].parent == a.elements[i].parent
        &&& c.elements[i].slots >= a.elements[i].slots
    } by {
        assert(b.elements[i].kind == a.elements[i].kind);
    }
    assert forall|k: int| 0 <= k < a.pads.len() implies {
        &&& (#[trigger] c.pads[k]).owner == a.pads[k].owner
        &&& c.pads[k].name == a.pads[k].name
        &&& c.pads[k].direction == a.pads[k].direction
        &&& c.pads[k].target == a.pads[k].target
        &&& a.pads[k].attachment != Attachment::Free ==> c.pads[k].attachment
            == a.pads[k].attachment
    } by {
        assert(b.pads[k].owner == a.pads[k].owner);
    }
}

/// A change that the model accepts only lets the topology grow.
pub proof fn lemma_effect_extends(t: TopologyView, c: CommandView)
    requires
        t.fault(c) is None,
    ensures
        t.effect(c).extends(t),
{
}

/// A sequence of changes only lets the topology grow, wherever it stops:
/// nothing is removed, and nothing that was attached is attached anew.
pub proof fn lemma_run_extends(t: TopologyView, cs: Seq<CommandView>)
    ensures
        t.run(cs).topology.extends(t),
    decreases cs.len(),
{
    if cs.len() > 0 && t.fault(cs[0]) is None {
        let u = t.effect(cs[0]);
        lemma_effect_extends(t, cs[0]);
        lemma_run_extends(u, cs.drop_first());
        lemma_extends_transitive(t, u, u.run(cs.drop_first()).topology);
    }
}

/// Where one more command leaves the model after `before`.
pub open spec fn followed_by(before: Outcome, c: CommandView) -> Outcome {
    if before.fault is Some {
        before
    } else if before.topology.fault(c) is Some {
        Outcome { topology: before.topology, fault: before.topology.fault(c) }
    } else {
        Outcome { topology: before.topology.effect(c), fault: None }
    }
}

/// A sequence with one more command at its end leaves the model where
/// that command leaves it after the sequence.
pub proof fn lemma_run_push(t: TopologyView, cs: Seq<CommandView>, c: CommandView)
    ensures
        t.run(cs.push(c)) == followed_by(t.run(cs), c),
    decreases cs.len(),
{
    let all = cs.push(c);
    if cs.len() == 0 {
        assert(all.drop_first() =~= Seq::<CommandView>::empty());
        assert(all[0] == c);
        if t.fault(c) is None {
            assert(t.effect(c).run(all.drop_first()) == (Outcome {
                topology: t.effect(c),
                fault: None,
            }));
        }
    } else {
        assert(all[0] == cs[0]);
        assert(all.drop_first() =~= cs.drop_first().push(c));
        if t.fault(cs[0]) is None {
            let u = t.effect(cs[0]);
            lemma_run_push(u, cs.drop_first(), c);
            assert(followed_by(u.run(cs.drop_first()), c) == followed_by(t.run(cs), c));
        }
    }
}

impl Topology {
    /// Performs one change on the model, or refuses it and leaves the
    /// model as it was.
    pub fn apply(&mut self, c: &Command) -> (r: Result<(), Fault>)
        requires
            old(self).wf(),
        ensures
            final(self).wf(),
            final(self)@.extends(old(self)@),
            match old(self)@.fault(c@) {
                Some(f) => r == Err::<(), Fault>(f) && final(self)@ == old(self)@,
                None => r is Ok && final(self)@ == old(self)@.effect(c@),
            },
    {
        match c {
            Command::Make { kind, element, pad } => self.make(*kind, *element, *pad),
            Command::Sync { element } => self.sync(*element),
            Command::Link { src, sink } => self.link(*src, *sink),
            Command::Expose { container, name, target, pad } => self.expose(
                *container,
                name.as_str(),
                *target,
                *pad,
            ),
            Command::Request { element, pad } => self.request(*element, *pad),
            Command::Watch { element } => {
                if *element < self.element_count() {
                    Ok(())
                } else {
                    Err(Fault::UnknownElement)
                }
            },
            Command::Probe { pad } => {
                if *pad < self.pad_count() {
                    Ok(())
                } else {
                    Err(Fault::UnknownPad)
                }
            },
        }
    }

    /// Performs the changes of `commands` in turn and stops at the first
    /// that the model refuses.
    pub fn apply_all(&mut self, commands: &Vec<Command>) -> (r: Result<(), Fault>)
        requires
            old(self).wf(),
        ensures
            final(self).wf(),
            final(self)@.extends(old(self)@),
            final(self)@ == old(self)@.run(command_views(commands@)).topology,
            r == match old(self)@.run(command_views(commands@)).fault {
                Some(f) => Err::<(), Fault>(f),
                None => Ok::<(), Fault>(()),
            },
    {
        let ghost all = command_views(commands@);
        let mut i: usize = 0;
        proof {
            assert(all.skip(0) =~= all);
        }
        while i < commands.len()
            invariant
                i <= commands.len(),
                all == command_views(commands@),
                self.wf(),
                old(self)@.run(all) == self@.run(all.skip(i as int)),
            decreases commands.len() - i,
        {
            let ghost rest = all.skip(i as int);
            proof {
                assert(rest[0] == commands@[i as int]@);
                assert(rest.drop_first() =~= all.skip(i + 1));
            }
            match self.apply(&commands[i]) {
                Ok(()) => {},
                Err(f) => {
                    proof {
                        lemma_run_extends(old(self)@, all);
                    }
                    return Err(f);
                },
            }
            i += 1;
        }
        proof {
            assert(all.skip(i as int).len() == 0);
            lemma_run_extends(old(self)@, all);
        }
        Ok(())
    }

    fn make(&mut self, kind: ElementKind, element: usize, pad: usize) -> (r: Result<(), Fault>)
        requires
            old(self).wf(),
        ensures
            final(self).wf(),
            final(self)@.extends(old(self)@),
            match old(self)@.fault(CommandView::Make { kind, element, pad }) {
                Some(f) => r == Err::<(), Fault>(f) && final(self)@ == old(self)@,
                None => r is Ok && final(self)@ == old(self)@.made(kind),
            },
    {
        if !kind.is_creatable() {
            return Err(Fault::NotCreatable);
        }
        if element != self.element_count() || pad != self.pad_count() {
            return Err(Fault::OutOfOrder);
        }
        if !self.has_room_for(1, 2) {
            return Err(Fault::Exhausted);
        }
        let n = self.element_count();
        self.push_element(Element { kind, parent: Some(0), state: RunState::Null, slots: 0 });
        self.push_pad(
            Pad {
                owner: n,
                name: String::from_str("sink"),
                direction: Direction::Sink,
                attachment: Attachment::Free,
                target: None,
            },
        );
        if kind.has_src() {
            self.push_pad(
                Pad {
                    owner: n,
                    name: String::from_str("src"),
                    direction: Direction::Src,
                    attachment: Attachment::Free,
                    target: None,
                },
            );
        }
        proof {
            lemma_made_keeps_wf(old(self)@, kind);
        }
        Ok(())
    }

    fn sync(&mut self, e: usize) -> (r: Result<(), Fault>)
        requires
            old(self).wf(),
        ensures
            final(self).wf(),
            final(self)@.extends(old(self)@),
            match old(self)@.fault(CommandView::Sync { element: e }) {
                Some(f) => r == Err::<(), Fault>(f) && final(self)@ == old(self)@,
                None => r is Ok && final(self)@ == old(self)@.synced(e),
            },
    {
        let element = match self.element(e) {
            Some(element) => element,
            None => {
                return Err(Fault::UnknownElement);
            },
        };
        let parent = match element.parent {
            Some(parent) => parent,
            None => {
                return Err(Fault::NoParent);
            },
        };
        proof {
            assert(self@.element_ok(e as int));
        }
        let state = match self.element(parent) {
            Some(container) => container.state,
            None => RunState::Null,
        };
        self.set_element(e, Element { state, ..element });
        proof {
            lemma_synced_keeps_wf(old(self)@, e);
        }
        Ok(())
    }

    /// The container of the element that pad `p` is on; `None` for a pad
    /// of the graph itself, and for an index that no pad has.
    pub fn level(&self, p: usize) -> (level: Option<usize>)
        requires
            self.wf(),
        ensures
            level == if self@.has_pad(p) {
                self@.level_of(p)
            } else {
                None
            },
    {
        let owner = match self.pad(p) {
            Some(pad) => pad.owner,
            None => {
                return None;
            },
        };
        proof {
            assert(self@.pad_ok(p as int));
        }
        match self.element(owner) {
            Some(element) => element.parent,
            None => None,
        }
    }

    fn link(&mut self, src: usize, sink: usize) -> (r: Result<(), Fault>)
        requires
            old(self).wf(),
        ensures
            final(self).wf(),
            final(self)@.extends(old(self)@),
            match old(self)@.fault(CommandView::Link { src, sink }) {
                Some(f) => r == Err::<(), Fault>(f) && final(self)@ == old(self)@,
                None => r is Ok && final(self)@ == old(self)@.linked(src, sink),
            },
    {
        let (src_direction, src_attachment) = match self.pad(src) {
            Some(pad) => (pad.direction, pad.attachment),
            None => {
                return Err(Fault::UnknownPad);
            },
        };
        let (sink_direction, sink_attachment) = match self.pad(sink) {
            Some(pad) => (pad.direction, pad.attachment),
            None => {
                return Err(Fault::UnknownPad);
            },
        };
        if src_direction != Direction::Src || sink_direction != Direction::Sink {
            return Err(Fault::WrongDirection);
        }
        if src_attachment != Attachment::Free || sink_attachment != Attachment::Free {
            return Err(Fault::Occupied);
        }
        if !same_level(self.level(src), self.level(sink)) {
            return Err(Fault::WrongHierarchy);
        }
        self.set_attachment(src, Attachment::Linked(sink));
        self.set_attachment(sink, Attachment::Linked(src));
        proof {
            lemma_linked_keeps_wf(old(self)@, src, sink);
        }
        Ok(())
    }

    fn expose(&mut self, container: usize, name: &str, target: usize, pad: usize) -> (r: Result<
        (),
        Fault,
    >)
        requires
            old(self).wf(),
        ensures
            final(self).wf(),
            final(self)@.extends(old(self)@),
            match old(self)@.fault(CommandView::Expose { container, name: name@, target, pad }) {
                Some(f) => r == Err::<(), Fault>(f) && final(self)@ == old(self)@,
                None => r is Ok && final(self)@ == old(self)@.ghosted(container, name@, target),
            },
    {
        let kind = match self.element(container) {
            Some(element) => element.kind,
            None => {
                return Err(Fault::UnknownElement);
            },
        };
        let (direction, attachment) = match self.pad(target) {
            Some(pad) => (pad.direction, pad.attachment),
            None => {
                return Err(Fault::UnknownPad);
            },
        };
        if !kind.holds_elements() {
            return Err(Fault::NotAContainer);
        }
        if attachment != Attachment::Free {
            return Err(Fault::Occupied);
        }
        if !same_level(self.level(target), Some(container)) {
            return Err(Fault::TargetOutside);
        }
        if self.is_name_taken(container, name) {
            return Err(Fault::NameTaken);
        }
        if pad != self.pad_count() {
            return Err(Fault::OutOfOrder);
        }
        if !self.has_room_for(0, 1) {
            return Err(Fault::Exhausted);
        }
        let g = self.pad_count();
        self.push_pad(
            Pad {
                owner: container,
                name: String::from_str(name),
                direction,
                attachment: Attachment::Free,
                target: Some(target),
            },
        );
        self.set_attachment(target, Attachment::Exposed(g));
        proof {
            lemma_exposed_keeps_wf(old(self)@, container, name@, target);
        }
        Ok(())
    }

    fn request(&mut self, e: usize, pad: usize) -> (r: Result<(), Fault>)
        requires
            old(self).wf(),
        ensures
            final(self).wf(),
            final(self)@.extends(old(self)@),
            match old(self)@.fault(CommandView::Request { element: e, pad }) {
                Some(f) => r == Err::<(), Fault>(f) && final(self)@ == old(self)@,
                None => r is Ok && final(self)@ == old(self)@.requested(e),
            },
    {
        let mixer = match self.element(e) {
            Some(element) => element,
            None => {
                return Err(Fault::UnknownElement);
            },
        };
        if !mixer.kind.is_mixer() {
            return Err(Fault::NotAMixer);
        }
        if pad != self.pad_count() {
            return Err(Fault::OutOfOrder);
        }
        if mixer.slots == usize::MAX || !self.has_room_for(0, 1) {
            return Err(Fault::Exhausted);
        }
        self.set_element(e, Element { slots: mixer.slots + 1, ..mixer });
        self.push_pad(
            Pad {
                owner: e,
                name: slot_label(mixer.slots),
                direction: Direction::Sink,
                attachment: Attachment::Free,
                target: None,
            },
        );
        proof {
            lemma_requested_keeps_wf(old(self)@, e);
        }
        Ok(())
    }
}

/// Whether two nesting levels are the same.
pub fn same_level(a: Option<usize>, b: Option<usize>) -> (same: bool)
    ensures
        same == (a == b),
{
    match (a, b) {
        (Some(x), Some(y)) => x == y,
        (None, None) => true,
        _ => false,
    }
}

} // verus!
