//! What the model is told of the graph from outside: elements and pads
//! that appeared on their own, and the state the graph was driven to.

use crate::state::RunState;
use crate::topology::{
    is_container, observable, Attachment, Direction, Element, ElementKind, Fault, Pad, PadView,
    Topology, TopologyView,
};
use vstd::prelude::*;
use vstd::string::StringExecFns;

verus! {

impl TopologyView {
    /// Why an element of `kind`, reported inside `parent`, is not taken.
    pub open spec fn element_fault(self, parent: usize, kind: ElementKind) -> Option<Fault> {
        if !observable(kind) {
            Some(Fault::NotObservable)
        } else if !self.has_element(parent) {
            Some(Fault::UnknownElement)
        } else if !is_container(self.elements[parent as int].kind) {
            Some(Fault::NotAContainer)
        } else if !self.has_room(1, 0) {
            Some(Fault::Exhausted)
        } else {
            None
        }
    }

    /// With an element of `kind` inside `parent`, running as `parent` does.
    pub open spec fn with_element(self, parent: usize, kind: ElementKind) -> TopologyView {
        let element = Element {
            kind,
            parent: Some(parent),
            state: self.elements[parent as int].state,
            slots: 0,
        };
        TopologyView { elements: self.elements.push(element), ..self }
    }

    /// Why a pad called `name`, reported on `owner`, is not taken.
    pub open spec fn pad_fault(self, owner: usize, name: Seq<char>) -> Option<Fault> {
        if !self.has_element(owner) {
            Some(Fault::UnknownElement)
        } else if self.elements[owner as int].kind == ElementKind::Mixer {
            Some(Fault::NotObservable)
        } else if self.name_taken(owner, name) {
            Some(Fault::NameTaken)
        } else if !self.has_room(0, 1) {
            Some(Fault::Exhausted)
        } else {
            None
        }
    }

    /// With a pad called `name` on `owner`; a pad that is linked
    /// already is linked to something that the model does not hold.
    pub open spec fn with_pad(
        self,
        owner: usize,
        name: Seq<char>,
        direction: Direction,
        linked: bool,
    ) -> TopologyView {
        let pad = PadView {
            owner,
            name,
            direction,
            attachment: if linked {
                Attachment::External
            } else {
                Attachment::Free
            },
            target: None,
        };
        TopologyView { pads: self.pads.push(pad), ..self }
    }

    /// With every element in `state`.
    pub open spec fn driven(self, state: RunState) -> TopologyView {
        TopologyView {
            elements: Seq::new(
                self.elements.len(),
                |i: int| Element { state, ..self.elements[i] },
            ),
            ..self
        }
    }
}

/// Taking a reported element keeps the invariant, and adds nothing to the
/// graph's own level unless `parent` is the graph.
pub proof fn lemma_with_element_keeps_wf(t: TopologyView, parent: usize, kind: ElementKind)
    requires
        t.wf(),
        t.element_fault(parent, kind) is None,
    ensures
        t.with_element(parent, kind).wf(),
        t.settled() ==> t.with_element(parent, kind).settled(),
{
    let u = t.with_element(parent, kind);
    assert forall|i: int| 0 <= i < u.elements.len() implies #[trigger] u.element_ok(i) by {
        if i < t.elements.len() {
            assert(t.element_ok(i));
        }
    }
    assert forall|k: int| 0 <= k < u.pads.len() implies #[trigger] u.pad_ok(k) by {
        crate::command::lemma_pad_and_peers_ok(t, k);
    }
    assert forall|j: int, k: int| 0 <= j < k < u.pads.len() implies #[trigger] u.names_differ(
        j,
        k,
    ) by {
        assert(t.names_differ(j, k));
    }
    assert forall|k: int, n: nat| 0 <= k < u.pads.len() implies #[trigger] u.slot_ok(k, n) by {
        assert(t.slot_ok(k, n));
        assert(t.pad_ok(k));
    }
    if t.settled() {
        assert forall|i: int|
            1 <= i < u.elements.len() && (#[trigger] u.elements[i]).parent == Some(
                0usize,
            ) implies u.elements[i].state == u.elements[0].state by {
            if i < t.elements.len() {
                assert(t.elements[i].parent == Some(0usize));
            }
        }
    }
}

/// Taking a reported pad keeps the invariant.
pub proof fn lemma_with_pad_keeps_wf(
    t: TopologyView,
    owner: usize,
    name: Seq<char>,
    direction: Direction,
    linked: bool,
)
    requires
        t.wf(),
        t.pad_fault(owner, name) is None,
    ensures
        t.with_pad(owner, name, direction, linked).wf(),
{
    let u = t.with_pad(owner, name, direction, linked);
    let m = t.pads.len() as int;
    assert forall|i: int| 0 <= i < u.elements.len() implies #[trigger] u.element_ok(i) by {
        assert(t.element_ok(i));
    }
    assert forall|k: int| 0 <= k < u.pads.len() implies #[trigger] u.pad_ok(k) by {
        if k < m {
            assert(t.pad_ok(k));
        }
    }
    assert forall|j: int, k: int| 0 <= j < k < u.pads.len() implies #[trigger] u.names_differ(
        j,
        k,
    ) by {
        if k < m {
            assert(t.names_differ(j, k));
        }
    }
    assert forall|k: int, n: nat| 0 <= k < u.pads.len() implies #[trigger] u.slot_ok(k, n) by {
        if k < m {
            assert(t.slot_ok(k, n));
        }
    }
}

/// Driving the graph to a state keeps the invariant and leaves every
/// element in that state.
pub proof fn lemma_driven_keeps_wf(t: TopologyView, state: RunState)
    requires
        t.wf(),
    ensures
        t.driven(state).wf(),
        t.driven(state).settled(),
{
    let u = t.driven(state);
    assert forall|i: int| 0 <= i < u.elements.len() implies #[trigger] u.element_ok(i) by {
        assert(t.element_ok(i));
    }
    assert forall|k: int| 0 <= k < u.pads.len() implies #[trigger] u.pad_ok(k) by {
        crate::command::lemma_pad_and_peers_ok(t, k);
    }
    assert forall|j: int, k: int| 0 <= j < k < u.pads.len() implies #[trigger] u.names_differ(
        j,
        k,
    ) by {
        assert(t.names_differ(j, k));
    }
    assert forall|k: int, n: nat| 0 <= k < u.pads.len() implies #[trigger] u.slot_ok(k, n) by {
        assert(t.slot_ok(k, n));
        assert(t.pad_ok(k));
    }
}

/// What the model is told only lets the topology grow.
pub proof fn lemma_observations_extend(
    t: TopologyView,
    e: usize,
    kind: ElementKind,
    name: Seq<char>,
    direction: Direction,
    linked: bool,
    state: RunState,
)
    ensures
        t.with_element(e, kind).extends(t),
        t.with_pad(e, name, direction, linked).extends(t),
        t.driven(state).extends(t),
{
}

impl Topology {
    /// Takes an element that appeared inside `parent` into the model and
    /// returns its index, or refuses it and leaves the model as it was.
    pub fn observe_element(&mut self, parent: usize, kind: ElementKind) -> (r: Result<usize, Fault>)
        requires
            old(self).wf(),
        ensures
            final(self).wf(),
            final(self)@.extends(old(self)@),
            match old(self)@.element_fault(parent, kind) {
                Some(f) => r == Err::<usize, Fault>(f) && final(self)@ == old(self)@,
                None => r == Ok::<usize, Fault>(old(self)@.elements.len() as usize) && final(self)@
                    == old(self)@.with_element(parent, kind),
            },
    {
        if !kind.is_observable() {
            return Err(Fault::NotObservable);
        }
        let container = match self.element(parent) {
            Some(element) => element,
            None => {
                return Err(Fault::UnknownElement);
            },
        };
        if !container.kind.holds_elements() {
            return Err(Fault::NotAContainer);
        }
        if !self.has_room_for(1, 0) {
            return Err(Fault::Exhausted);
        }
        let id = self.element_count();
        self.push_element(Element { kind, parent: Some(parent), state: container.state, slots: 0 });
        proof {
            lemma_with_element_keeps_wf(old(self)@, parent, kind);
        }
        Ok(id)
    }

    /// Takes a pad that appeared on `owner` into the model and returns
    /// its index, or refuses it and leaves the model as it was.
    pub fn observe_pad(&mut self, owner: usize, name: &str, direction: Direction, linked: bool) -> (r:
        Result<usize, Fault>)
        requires
            old(self).wf(),
        ensures
            final(self).wf(),
            final(self)@.extends(old(self)@),
            match old(self)@.pad_fault(owner, name@) {
                Some(f) => r == Err::<usize, Fault>(f) && final(self)@ == old(self)@,
                None => r == Ok::<usize, Fault>(old(self)@.pads.len() as usize) && final(self)@
                    == old(self)@.with_pad(owner, name@, direction, linked),
            },
    {
        let kind = match self.element(owner) {
            Some(element) => element.kind,
            None => {
                return Err(Fault::UnknownElement);
            },
        };
        if kind.is_mixer() {
            return Err(Fault::NotObservable);
        }
        if self.is_name_taken(owner, name) {
            return Err(Fault::NameTaken);
        }
        if !self.has_room_for(0, 1) {
            return Err(Fault::Exhausted);
        }
        let id = self.pad_count();
        let attachment = if linked {
            Attachment::External
        } else {
            Attachment::Free
        };
        self.push_pad(
            Pad { owner, name: String::from_str(name), direction, attachment, target: None },
        );
        proof {
            lemma_with_pad_keeps_wf(old(self)@, owner, name@, direction, linked);
        }
        Ok(id)
    }

    /// Records that the graph, and with it every element, was driven to
    /// `state`.
    pub fn drive(&mut self, state: RunState)
        requires
            old(self).wf(),
        ensures
            final(self).wf(),
            final(self)@.extends(old(self)@),
            final(self)@ == old(self)@.driven(state),
    {
        let n = self.element_count();
        let mut i: usize = 0;
        while i < n
            invariant
                i <= n,
                n == old(self)@.elements.len(),
                self@.pads == old(self)@.pads,
                self@.elements.len() == n,
                forall|j: int|
                    0 <= j < i ==> #[trigger] self@.elements[j] == (Element {
                        state,
                        ..old(self)@.elements[j]
                    }),
                forall|j: int| i <= j < n ==> #[trigger] self@.elements[j] == old(self)@.elements[j],
            decreases n - i,
        {
            if let Some(element) = self.element(i) {
                self.set_element(i, Element { state, ..element });
            }
            i += 1;
        }
        proof {
            assert(self@.elements =~= old(self)@.driven(state).elements);
            lemma_driven_keeps_wf(old(self)@, state);
        }
    }
}

} // verus!
