//! What holds of the model between any two events: where the input
//! container and the mixer lie, and how every stage is wired.

use crate::command::lemma_pad_and_peers_ok;
use crate::promote::{climbable, promoted};
use crate::route::{mix_fault, mixed, stage_fault, staged};
use crate::state::RunState;
use crate::topology::{
    initial, Attachment, Direction, ElementKind, TopologyView, INPUT, MIXER,
};
use vstd::prelude::*;

verus! {

/// The input container and the mixer are where the static description
/// put them: directly in the graph.
pub open spec fn anchored(t: TopologyView) -> bool {
    &&& t.elements.len() > 2
    &&& t.elements[1].kind == ElementKind::Container
    &&& t.elements[1].parent == Some(0usize)
    &&& t.elements[2].kind == ElementKind::Mixer
    &&& t.elements[2].parent == Some(0usize)
}

/// Element `e` has a source pad.
pub open spec fn has_leg(t: TopologyView, e: usize) -> bool {
    exists|k: int|
        0 <= k < t.pads.len() && (#[trigger] t.pads[k]).owner == e && t.pads[k].direction
            == Direction::Src
}

/// The kind of the element that pad `k` is on.
pub open spec fn kind_at(t: TopologyView, k: int) -> ElementKind {
    t.elements[t.pads[k].owner as int].kind
}

/// Pad `k` is linked to a pad of an element of `kind`.
pub open spec fn linked_to_kind(t: TopologyView, k: int, kind: ElementKind) -> bool {
    t.pads[k].attachment matches Attachment::Linked(j) && kind_at(t, j as int) == kind
}

/// Pad `k` is linked to a pad of the input container.
pub open spec fn linked_to_input(t: TopologyView, k: int) -> bool {
    t.pads[k].attachment matches Attachment::Linked(j) && t.pads[j as int].owner == INPUT
}

/// No source pad of the element of pad `a` came before `a`.
pub open spec fn first_leg(t: TopologyView, a: int) -> bool {
    forall|b: int|
        0 <= b < a ==> !((#[trigger] t.pads[b]).owner == t.pads[a].owner && t.pads[b].direction
            == Direction::Src)
}

/// What pad `k` owes to the routes, by the kind of its element.
///
/// Every input slot of the mixer, but the one that the silence source
/// feeds, is linked to a constrain stage. A constrain stage lies between a
/// resample stage and the mixer, a resample stage between a convert stage
/// and a constrain stage, a convert stage between a decode stage and a
/// resample stage. A decode stage and a discard sink are fed by a pad of
/// the input container. A leg of a decode stage is free unless it is the
/// first of its stage, which is linked to a convert stage. A pad of the
/// input container that is linked is linked to a decode stage or to a
/// discard sink.
pub open spec fn route_ok(t: TopologyView, k: int) -> bool {
    let pad = t.pads[k];
    let incoming = pad.direction == Direction::Sink;
    match kind_at(t, k) {
        ElementKind::Mixer => k >= 2 ==> linked_to_kind(t, k, ElementKind::Constrain),
        ElementKind::Constrain => if incoming {
            linked_to_kind(t, k, ElementKind::Resample)
        } else {
            linked_to_kind(t, k, ElementKind::Mixer)
        },
        ElementKind::Resample => if incoming {
            linked_to_kind(t, k, ElementKind::Convert)
        } else {
            linked_to_kind(t, k, ElementKind::Constrain)
        },
        ElementKind::Convert => if incoming {
            linked_to_kind(t, k, ElementKind::Decode)
        } else {
            linked_to_kind(t, k, ElementKind::Resample)
        },
        ElementKind::Decode => if incoming {
            linked_to_input(t, k)
        } else {
            pad.attachment != Attachment::Free ==> first_leg(t, k) && linked_to_kind(
                t,
                k,
                ElementKind::Convert,
            )
        },
        ElementKind::Discard => linked_to_input(t, k),
        ElementKind::Container => pad.owner == INPUT ==> (pad.attachment matches Attachment::Linked(
            j,
        ) ==> kind_at(t, j as int) == ElementKind::Decode || kind_at(t, j as int)
            == ElementKind::Discard),
        _ => true,
    }
}

/// Every pad is wired as the routes ask. With the mutual links of the
/// topology's invariant this makes the routes one to one: every slot of
/// the mixer has one chain of its own, every chain one decode stage, and
/// every stage one track.
pub open spec fn routes_ok(t: TopologyView) -> bool {
    forall|k: int| 0 <= k < t.pads.len() ==> #[trigger] route_ok(t, k)
}

/// The invariant of a session: the topology's own, the anchors, and the
/// routes.
pub open spec fn session_ok(t: TopologyView) -> bool {
    t.wf() && anchored(t) && routes_ok(t)
}

/// The initial topology meets the invariant of a session.
pub proof fn lemma_initial_session()
    ensures
        session_ok(initial()),
{
    crate::topology::lemma_initial_wf();
    let t = initial();
    assert forall|k: int| 0 <= k < t.pads.len() implies #[trigger] route_ok(t, k) by {}
}

/// Taking a reported element keeps the invariant of a session.
pub proof fn lemma_element_keeps_session(t: TopologyView, parent: usize, kind: ElementKind)
    requires
        session_ok(t),
        t.element_fault(parent, kind) is None,
    ensures
        session_ok(t.with_element(parent, kind)),
{
    let u = t.with_element(parent, kind);
    crate::observe::lemma_with_element_keeps_wf(t, parent, kind);
    assert forall|k: int| 0 <= k < u.pads.len() implies #[trigger] route_ok(u, k) by {
        lemma_pad_and_peers_ok(t, k);
        assert(route_ok(t, k));
    }
}

/// Taking a reported source pad keeps the invariant of a session, if the
/// pad is on the negotiating element, or free and on the input container
/// or a decode stage.
pub proof fn lemma_pad_keeps_session(t: TopologyView, owner: usize, name: Seq<char>, linked: bool)
    requires
        session_ok(t),
        t.pad_fault(owner, name) is None,
        t.elements[owner as int].kind == ElementKind::WebRtc || (!linked && (owner == INPUT
            || t.elements[owner as int].kind == ElementKind::Decode)),
    ensures
        session_ok(t.with_pad(owner, name, Direction::Src, linked)),
{
    let u = t.with_pad(owner, name, Direction::Src, linked);
    crate::observe::lemma_with_pad_keeps_wf(t, owner, name, Direction::Src, linked);
    assert forall|k: int| 0 <= k < u.pads.len() implies #[trigger] route_ok(u, k) by {
        if k < t.pads.len() {
            lemma_pad_and_peers_ok(t, k);
            assert(route_ok(t, k));
        }
    }
}

/// Driving the graph to a state keeps the invariant of a session.
pub proof fn lemma_driven_keeps_session(t: TopologyView, state: RunState)
    requires
        session_ok(t),
    ensures
        session_ok(t.driven(state)),
{
    let u = t.driven(state);
    crate::observe::lemma_driven_keeps_wf(t, state);
    assert forall|k: int| 0 <= k < u.pads.len() implies #[trigger] route_ok(u, k) by {
        lemma_pad_and_peers_ok(t, k);
        assert(route_ok(t, k));
    }
}

/// Promoting a free pad of the negotiating element keeps the routes:
/// ghost pads come to be on containers only, and the outermost is free.
pub proof fn lemma_promoted_keeps_routes(
    t: TopologyView,
    levels: Seq<usize>,
    name: Seq<char>,
    first: usize,
)
    requires
        t.wf(),
        routes_ok(t),
        t.has_pad(first),
        t.pads[first as int].attachment == Attachment::Free,
        kind_at(t, first as int) == ElementKind::WebRtc,
        climbable(t, levels, name),
    ensures
        routes_ok(promoted(t, levels, name, first)),
{
    let u = promoted(t, levels, name, first);
    let m = t.pads.len() as int;
    assert forall|k: int| 0 <= k < u.pads.len() implies #[trigger] route_ok(u, k) by {
        if k < m {
            lemma_pad_and_peers_ok(t, k);
            assert(route_ok(t, k));
            if k != first {
                match t.pads[k].attachment {
                    Attachment::Linked(j) => {
                        assert(j != first);
                    },
                    _ => {},
                }
            }
        } else {
            assert(t.has_element(levels[k - m]));
        }
    }
}

/// Putting a decode stage or a discard sink behind a free pad of the
/// input container keeps the invariant of a session.
pub proof fn lemma_staged_keeps_session(t: TopologyView, pad: usize, kind: ElementKind)
    requires
        session_ok(t),
        stage_fault(t, pad) is None,
        t.pads[pad as int].owner == INPUT,
        kind == ElementKind::Decode || kind == ElementKind::Discard,
    ensures
        session_ok(staged(t, pad, kind)),
{
    let u = staged(t, pad, kind);
    let m = t.pads.len() as int;
    crate::route::lemma_staged_shape(t, pad, kind);
    assert forall|k: int| 0 <= k < u.pads.len() implies #[trigger] route_ok(u, k) by {
        if k < m {
            lemma_pad_and_peers_ok(t, k);
            assert(route_ok(t, k));
            if k != pad {
                match t.pads[k].attachment {
                    Attachment::Linked(j) => {
                        assert(j != pad);
                    },
                    _ => {},
                }
            }
        }
    }
}

/// Leading the first leg of a decode stage into the mixer keeps the
/// invariant of a session.
pub proof fn lemma_mixed_keeps_session(t: TopologyView, leg: usize)
    requires
        session_ok(t),
        t.has_pad(leg),
        kind_at(t, leg as int) == ElementKind::Decode,
        first_leg(t, leg as int),
        mix_fault(t, leg, MIXER) is None,
    ensures
        session_ok(mixed(t, leg, MIXER)),
{
    let u = mixed(t, leg, MIXER);
    let m = t.pads.len() as int;
    crate::route::lemma_mix_runs(t, leg, MIXER);
    crate::route::lemma_mixed_shape(t, leg, MIXER);
    assert(t.pad_ok(leg as int));
    assert forall|k: int| 0 <= k < u.pads.len() implies #[trigger] route_ok(u, k) by {
        if k < m {
            lemma_pad_and_peers_ok(t, k);
            assert(route_ok(t, k));
            if k != leg {
                match t.pads[k].attachment {
                    Attachment::Linked(j) => {
                        assert(j != leg);
                    },
                    _ => {},
                }
            }
        }
    }
}

} // verus!
