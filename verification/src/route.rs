//! Routes for classified tracks: a discard sink for video, and for audio
//! a decode stage followed by a chain into a fresh slot of the mixer.

use crate::command::{
    command_views, lemma_run_keeps_wf, lemma_run_push, Command, CommandView, Outcome,
};
use crate::topology::{
    sink_name, slot_name, src_name, Attachment, Direction, ElementKind, Fault, PadView, Topology,
    TopologyView,
};
use vstd::prelude::*;

verus! {

/// Why pad `pad` cannot be routed as a track: a track is a free source
/// pad on an element that lies directly in the graph.
pub open spec fn track_fault(t: TopologyView, pad: usize) -> Option<Fault> {
    if !t.has_pad(pad) {
        Some(Fault::UnknownPad)
    } else if t.pads[pad as int].direction != Direction::Src {
        Some(Fault::WrongDirection)
    } else if t.pads[pad as int].attachment != Attachment::Free {
        Some(Fault::Occupied)
    } else if t.level_of(pad) != Some(0usize) {
        Some(Fault::WrongHierarchy)
    } else {
        None
    }
}

/// Why one stage cannot be put behind pad `pad`.
pub open spec fn stage_fault(t: TopologyView, pad: usize) -> Option<Fault> {
    if track_fault(t, pad) is Some {
        track_fault(t, pad)
    } else if !t.has_room(1, 2) {
        Some(Fault::Exhausted)
    } else {
        None
    }
}

/// The commands that put a discard sink behind the video track `pad`:
/// the sink is created, brought in line with the graph, and linked.
pub open spec fn discard_plan(t: TopologyView, pad: usize) -> Seq<CommandView> {
    let n = t.elements.len() as usize;
    let m = t.pads.len() as usize;
    seq![
        CommandView::Make { kind: ElementKind::Discard, element: n, pad: m },
        CommandView::Sync { element: n },
        CommandView::Link { src: pad, sink: m },
    ]
}

/// The commands that put a decode stage behind the audio track `pad`:
/// the stage is created, subscribed to for the legs that it will add,
/// linked, and brought in line with the graph right after linking.
pub open spec fn decode_plan(t: TopologyView, pad: usize) -> Seq<CommandView> {
    let n = t.elements.len() as usize;
    let m = t.pads.len() as usize;
    seq![
        CommandView::Make { kind: ElementKind::Decode, element: n, pad: m },
        CommandView::Watch { element: n },
        CommandView::Link { src: pad, sink: m },
        CommandView::Sync { element: n },
    ]
}

/// The topology with a fresh stage of `kind` behind `pad`: the stage lies
/// in the graph, runs in the graph's state, and its sink pad is linked to
/// `pad`.
pub open spec fn staged(t: TopologyView, pad: usize, kind: ElementKind) -> TopologyView {
    let n = t.elements.len() as usize;
    let m = t.pads.len() as usize;
    t.made(kind).synced(n).linked(pad, m)
}

/// Putting a discard sink behind a track is never refused, keeps the
/// invariant, and leaves every element of the graph's level in the
/// graph's state if it was so before.
pub proof fn lemma_discard_runs(t: TopologyView, pad: usize)
    requires
        t.wf(),
        stage_fault(t, pad) is None,
    ensures
        t.run(discard_plan(t, pad)) == (Outcome {
            topology: staged(t, pad, ElementKind::Discard),
            fault: None,
        }),
        staged(t, pad, ElementKind::Discard).wf(),
        t.settled() ==> staged(t, pad, ElementKind::Discard).settled(),
{
    let n = t.elements.len() as usize;
    let m = t.pads.len() as usize;
    let c0 = CommandView::Make { kind: ElementKind::Discard, element: n, pad: m };
    let c1 = CommandView::Sync { element: n };
    let c2 = CommandView::Link { src: pad, sink: m };
    let upto0 = Seq::<CommandView>::empty();
    let upto1 = upto0.push(c0);
    let upto2 = upto1.push(c1);
    let upto3 = upto2.push(c2);
    assert(upto3 =~= discard_plan(t, pad));
    assert(t.pad_ok(pad as int));
    assert(t.element_ok(0));
    let t1 = t.made(ElementKind::Discard);
    let t2 = t1.synced(n);
    let t3 = t2.linked(pad, m);
    lemma_run_push(t, upto0, c0);
    assert(t.fault(c0) is None);
    lemma_run_push(t, upto1, c1);
    assert(t1.fault(c1) is None);
    lemma_run_push(t, upto2, c2);
    assert(t2.fault(c2) is None);
    lemma_run_keeps_wf(t, upto3);
    if t.settled() {
        assert forall|i: int|
            1 <= i < t3.elements.len() && (#[trigger] t3.elements[i]).parent == Some(
                0usize,
            ) implies t3.elements[i].state == t3.elements[0].state by {
            if i < n {
                assert(t.elements[i].parent == Some(0usize));
            }
        }
    }
}

/// Putting a decode stage behind a track is never refused, keeps the
/// invariant, and leaves every element of the graph's level in the
/// graph's state if it was so before.
pub proof fn lemma_decode_runs(t: TopologyView, pad: usize)
    requires
        t.wf(),
        stage_fault(t, pad) is None,
    ensures
        t.run(decode_plan(t, pad)) == (Outcome {
            topology: staged(t, pad, ElementKind::Decode),
            fault: None,
        }),
        staged(t, pad, ElementKind::Decode).wf(),
        t.settled() ==> staged(t, pad, ElementKind::Decode).settled(),
{
    let n = t.elements.len() as usize;
    let m = t.pads.len() as usize;
    let c0 = CommandView::Make { kind: ElementKind::Decode, element: n, pad: m };
    let c1 = CommandView::Watch { element: n };
    let c2 = CommandView::Link { src: pad, sink: m };
    let c3 = CommandView::Sync { element: n };
    let upto0 = Seq::<CommandView>::empty();
    let upto1 = upto0.push(c0);
    let upto2 = upto1.push(c1);
    let upto3 = upto2.push(c2);
    let upto4 = upto3.push(c3);
    assert(upto4 =~= decode_plan(t, pad));
    assert(t.pad_ok(pad as int));
    assert(t.element_ok(0));
    let t1 = t.made(ElementKind::Decode);
    let t3 = t1.linked(pad, m);
    let t4 = t3.synced(n);
    lemma_run_push(t, upto0, c0);
    assert(t.fault(c0) is None);
    lemma_run_push(t, upto1, c1);
    assert(t1.fault(c1) is None);
    lemma_run_push(t, upto2, c2);
    assert(t1.fault(c2) is None);
    lemma_run_push(t, upto3, c3);
    assert(t3.fault(c3) is None);
    assert(t4.elements =~= staged(t, pad, ElementKind::Decode).elements);
    assert(t4.pads =~= staged(t, pad, ElementKind::Decode).pads);
    lemma_run_keeps_wf(t, upto4);
    if t.settled() {
        assert forall|i: int|
            1 <= i < t4.elements.len() && (#[trigger] t4.elements[i]).parent == Some(
                0usize,
            ) implies t4.elements[i].state == t4.elements[0].state by {
            if i < n {
                assert(t.elements[i].parent == Some(0usize));
            }
        }
    }
}

/// What a fresh stage behind a track looks like: exactly one element and
/// one pad are new, the element is of the kind asked for, lies in the
/// graph and runs in the graph's state; the track's pad and the new pad
/// are linked to each other, and nothing else has changed. The invariant
/// holds, and every element of the graph's level runs in the graph's state
/// if it did so before.
pub proof fn lemma_staged_shape(t: TopologyView, pad: usize, kind: ElementKind)
    requires
        t.wf(),
        stage_fault(t, pad) is None,
        kind == ElementKind::Discard || kind == ElementKind::Decode,
    ensures
        ({
            let u = staged(t, pad, kind);
            let n = t.elements.len() as int;
            let m = t.pads.len() as int;
            &&& u.elements.len() == n + 1
            &&& u.elements[n].kind == kind
            &&& u.elements[n].parent == Some(0usize)
            &&& u.elements[n].state == t.elements[0].state
            &&& forall|i: int| 0 <= i < n ==> u.elements[i] == t.elements[i]
            &&& u.pads.len() == m + 1
            &&& u.pads[m] == (PadView {
                owner: n as usize,
                name: sink_name(),
                direction: Direction::Sink,
                attachment: Attachment::Linked(pad),
                target: None,
            })
            &&& u.pads[pad as int] == (PadView {
                attachment: Attachment::Linked(m as usize),
                ..t.pads[pad as int]
            })
            &&& forall|k: int| 0 <= k < m && k != pad ==> u.pads[k] == t.pads[k]
            &&& u.wf()
            &&& (t.settled() ==> u.settled())
        }),
{
    if kind == ElementKind::Discard {
        lemma_discard_runs(t, pad);
    } else {
        lemma_decode_runs(t, pad);
    }
}

/// Why the leg `leg` of a decode stage cannot be led into the mixer
/// `mixer`.
pub open spec fn mix_fault(t: TopologyView, leg: usize, mixer: usize) -> Option<Fault> {
    if track_fault(t, leg) is Some {
        track_fault(t, leg)
    } else if !t.has_element(mixer) {
        Some(Fault::UnknownElement)
    } else if t.elements[mixer as int].kind != ElementKind::Mixer {
        Some(Fault::NotAMixer)
    } else if t.elements[mixer as int].parent != Some(0usize) {
        Some(Fault::WrongHierarchy)
    } else if t.elements[mixer as int].slots == usize::MAX || !t.has_room(3, 7) {
        Some(Fault::Exhausted)
    } else {
        None
    }
}

/// The commands that lead the leg `leg` of a decode stage into the mixer:
/// a convert, a resample and a constrain stage are created and linked in
/// this order; the mixer is asked for a fresh slot, the constrain stage is
/// linked to the slot and the leg to the convert stage; right after
/// linking, the three stages are brought in line with the graph.
pub open spec fn mix_plan(t: TopologyView, leg: usize, mixer: usize) -> Seq<CommandView> {
    let n = t.elements.len();
    let m = t.pads.len();
    seq![
        CommandView::Make { kind: ElementKind::Convert, element: n as usize, pad: m as usize },
        CommandView::Make {
            kind: ElementKind::Resample,
            element: (n + 1) as usize,
            pad: (m + 2) as usize,
        },
        CommandView::Make {
            kind: ElementKind::Constrain,
            element: (n + 2) as usize,
            pad: (m + 4) as usize,
        },
        CommandView::Link { src: (m + 1) as usize, sink: (m + 2) as usize },
        CommandView::Link { src: (m + 3) as usize, sink: (m + 4) as usize },
        CommandView::Request { element: mixer, pad: (m + 6) as usize },
        CommandView::Link { src: (m + 5) as usize, sink: (m + 6) as usize },
        CommandView::Link { src: leg, sink: m as usize },
        CommandView::Sync { element: n as usize },
        CommandView::Sync { element: (n + 1) as usize },
        CommandView::Sync { element: (n + 2) as usize },
    ]
}

/// The topology after the commands of [`mix_plan`].
pub open spec fn mixed(t: TopologyView, leg: usize, mixer: usize) -> TopologyView {
    let n = t.elements.len();
    let m = t.pads.len();
    t.made(ElementKind::Convert).made(ElementKind::Resample).made(ElementKind::Constrain).linked(
        (m + 1) as usize,
        (m + 2) as usize,
    ).linked((m + 3) as usize, (m + 4) as usize).requested(mixer).linked(
        (m + 5) as usize,
        (m + 6) as usize,
    ).linked(leg, m as usize).synced(n as usize).synced((n + 1) as usize).synced(
        (n + 2) as usize,
    )
}

/// Leading a leg into the mixer is never refused and keeps the invariant.
pub proof fn lemma_mix_runs(t: TopologyView, leg: usize, mixer: usize)
    requires
        t.wf(),
        mix_fault(t, leg, mixer) is None,
    ensures
        t.run(mix_plan(t, leg, mixer)) == (Outcome { topology: mixed(t, leg, mixer), fault: None }),
        mixed(t, leg, mixer).wf(),
{
    let n = t.elements.len();
    let m = t.pads.len();
    let c0 = CommandView::Make { kind: ElementKind::Convert, element: n as usize, pad: m as usize };
    let c1 = CommandView::Make {
        kind: ElementKind::Resample,
        element: (n + 1) as usize,
        pad: (m + 2) as usize,
    };
    let c2 = CommandView::Make {
        kind: ElementKind::Constrain,
        element: (n + 2) as usize,
        pad: (m + 4) as usize,
    };
    let c3 = CommandView::Link { src: (m + 1) as usize, sink: (m + 2) as usize };
    let c4 = CommandView::Link { src: (m + 3) as usize, sink: (m + 4) as usize };
    let c5 = CommandView::Request { element: mixer, pad: (m + 6) as usize };
    let c6 = CommandView::Link { src: (m + 5) as usize, sink: (m + 6) as usize };
    let c7 = CommandView::Link { src: leg, sink: m as usize };
    let c8 = CommandView::Sync { element: n as usize };
    let c9 = CommandView::Sync { element: (n + 1) as usize };
    let c10 = CommandView::Sync { element: (n + 2) as usize };
    let upto0 = Seq::<CommandView>::empty();
    let upto1 = upto0.push(c0);
    let upto2 = upto1.push(c1);
    let upto3 = upto2.push(c2);
    let upto4 = upto3.push(c3);
    let upto5 = upto4.push(c4);
    let upto6 = upto5.push(c5);
    let upto7 = upto6.push(c6);
    let upto8 = upto7.push(c7);
    let upto9 = upto8.push(c8);
    let upto10 = upto9.push(c9);
    let upto11 = upto10.push(c10);
    assert(upto11 =~= mix_plan(t, leg, mixer));
    assert(t.pad_ok(leg as int));
    assert(t.element_ok(0));
    let t1 = t.made(ElementKind::Convert);
    let t2 = t1.made(ElementKind::Resample);
    let t3 = t2.made(ElementKind::Constrain);
    let t4 = t3.linked((m + 1) as usize, (m + 2) as usize);
    let t5 = t4.linked((m + 3) as usize, (m + 4) as usize);
    let t6 = t5.requested(mixer);
    let t7 = t6.linked((m + 5) as usize, (m + 6) as usize);
    let t8 = t7.linked(leg, m as usize);
    let t9 = t8.synced(n as usize);
    let t10 = t9.synced((n + 1) as usize);
    lemma_run_push(t, upto0, c0);
    assert(t.fault(c0) is None);
    lemma_run_push(t, upto1, c1);
    assert(t1.fault(c1) is None);
    lemma_run_push(t, upto2, c2);
    assert(t2.fault(c2) is None);
    lemma_run_push(t, upto3, c3);
    assert(t3.fault(c3) is None);
    lemma_run_push(t, upto4, c4);
    assert(t4.fault(c4) is None);
    lemma_run_push(t, upto5, c5);
    assert(t5.fault(c5) is None);
    lemma_run_push(t, upto6, c6);
    assert(t6.fault(c6) is None);
    lemma_run_push(t, upto7, c7);
    assert(t7.fault(c7) is None);
    lemma_run_push(t, upto8, c8);
    assert(t8.fault(c8) is None);
    lemma_run_push(t, upto9, c9);
    assert(t9.fault(c9) is None);
    lemma_run_push(t, upto10, c10);
    assert(t10.fault(c10) is None);
    lemma_run_keeps_wf(t, upto11);
}

/// What leading a leg into the mixer leaves behind. Exactly three elements
/// are new: a convert, a resample and a constrain stage, all in the graph
/// and in the graph's state. Exactly seven pads are new, and exactly one
/// of them is on the mixer: the slot, which bears the number that the mixer
/// had reached. The leg is linked to the convert stage, each stage to the
/// next, and the constrain stage to the slot. The mixer has handed out one
/// slot more, and nothing else has changed.
pub proof fn lemma_mixed_shape(t: TopologyView, leg: usize, mixer: usize)
    requires
        t.wf(),
        mix_fault(t, leg, mixer) is None,
    ensures
        ({
            let u = mixed(t, leg, mixer);
            let n = t.elements.len() as int;
            let m = t.pads.len() as int;
            let stage = |at: int, kind: ElementKind|
                u.elements[at].kind == kind && u.elements[at].parent == Some(0usize)
                    && u.elements[at].state == t.elements[0].state;
            let pad = |at: int, owner: int, name: Seq<char>, direction: Direction, peer: int|
                u.pads[at] == (PadView {
                    owner: owner as usize,
                    name,
                    direction,
                    attachment: Attachment::Linked(peer as usize),
                    target: None,
                });
            &&& u.elements.len() == n + 3
            &&& stage(n, ElementKind::Convert)
            &&& stage(n + 1, ElementKind::Resample)
            &&& stage(n + 2, ElementKind::Constrain)
            &&& u.elements[mixer as int] == (crate::topology::Element {
                slots: (t.elements[mixer as int].slots + 1) as usize,
                ..t.elements[mixer as int]
            })
            &&& forall|i: int| 0 <= i < n && i != mixer ==> u.elements[i] == t.elements[i]
            &&& u.pads.len() == m + 7
            &&& u.pads[leg as int] == (PadView {
                attachment: Attachment::Linked(m as usize),
                ..t.pads[leg as int]
            })
            &&& forall|k: int| 0 <= k < m && k != leg ==> u.pads[k] == t.pads[k]
            &&& pad(m, n, sink_name(), Direction::Sink, leg as int)
            &&& pad(m + 1, n, src_name(), Direction::Src, m + 2)
            &&& pad(m + 2, n + 1, sink_name(), Direction::Sink, m + 1)
            &&& pad(m + 3, n + 1, src_name(), Direction::Src, m + 4)
            &&& pad(m + 4, n + 2, sink_name(), Direction::Sink, m + 3)
            &&& pad(m + 5, n + 2, src_name(), Direction::Src, m + 6)
            &&& pad(
                m + 6,
                mixer as int,
                slot_name(t.elements[mixer as int].slots as nat),
                Direction::Sink,
                m + 5,
            )
            &&& forall|k: int| m <= k < m + 7 ==> (u.pads[k].owner == mixer <==> k == m + 6)
            &&& t.settled() ==> u.settled()
        }),
{
    let u = mixed(t, leg, mixer);
    let n = t.elements.len() as int;
    assert(t.pad_ok(leg as int));
    assert(t.element_ok(0));
    if t.settled() {
        assert forall|i: int|
            1 <= i < u.elements.len() && (#[trigger] u.elements[i]).parent == Some(
                0usize,
            ) implies u.elements[i].state == u.elements[0].state by {
            if i < n {
                assert(t.elements[i].parent == Some(0usize));
            }
        }
    }
}

/// A track that has its stage is not routed again: its pad is taken.
pub proof fn lemma_routed_track_is_refused(t: TopologyView, pad: usize, kind: ElementKind)
    requires
        t.wf(),
        stage_fault(t, pad) is None,
        kind == ElementKind::Discard || kind == ElementKind::Decode,
    ensures
        stage_fault(staged(t, pad, kind), pad) == Some(Fault::Occupied),
{
}

/// A leg that was led into the mixer is not led there again: its pad is
/// taken, so no second slot is handed out for it.
pub proof fn lemma_mixed_leg_is_refused(t: TopologyView, leg: usize, mixer: usize)
    requires
        t.wf(),
        mix_fault(t, leg, mixer) is None,
    ensures
        mix_fault(mixed(t, leg, mixer), leg, mixer) == Some(Fault::Occupied),
{
    assert(t.pad_ok(leg as int));
}

impl Topology {
    /// Decides [`stage_fault`].
    fn check_stage(&self, pad: usize) -> (r: Result<(), Fault>)
        requires
            self.wf(),
        ensures
            r == match stage_fault(self@, pad) {
                Some(f) => Err::<(), Fault>(f),
                None => Ok::<(), Fault>(()),
            },
    {
        let (direction, attachment) = match self.pad(pad) {
            Some(found) => (found.direction, found.attachment),
            None => {
                return Err(Fault::UnknownPad);
            },
        };
        if direction != Direction::Src {
            return Err(Fault::WrongDirection);
        }
        if attachment != Attachment::Free {
            return Err(Fault::Occupied);
        }
        if !crate::command::same_level(self.level(pad), Some(0)) {
            return Err(Fault::WrongHierarchy);
        }
        if !self.has_room_for(1, 2) {
            return Err(Fault::Exhausted);
        }
        Ok(())
    }

    /// Routes the video track `pad`: a discard sink is created in the
    /// graph, brought in line with the graph's state and linked to the
    /// track's pad. Returns the commands that do this to the real graph;
    /// on a fault nothing is changed.
    pub fn route_video(&mut self, pad: usize) -> (r: Result<Vec<Command>, Fault>)
        requires
            old(self).wf(),
        ensures
            final(self).wf(),
            final(self)@.extends(old(self)@),
            match stage_fault(old(self)@, pad) {
                Some(f) => r == Err::<Vec<Command>, Fault>(f) && final(self)@ == old(self)@,
                None => {
                    &&& r is Ok
                    &&& command_views(r->Ok_0@) == discard_plan(old(self)@, pad)
                    &&& final(self)@ == staged(old(self)@, pad, ElementKind::Discard)
                },
            },
    {
        match self.check_stage(pad) {
            Ok(()) => {},
            Err(f) => {
                return Err(f);
            },
        }
        let n = self.element_count();
        let m = self.pad_count();
        let mut plan: Vec<Command> = Vec::new();
        plan.push(Command::Make { kind: ElementKind::Discard, element: n, pad: m });
        plan.push(Command::Sync { element: n });
        plan.push(Command::Link { src: pad, sink: m });
        proof {
            assert(command_views(plan@) =~= discard_plan(self@, pad));
            lemma_discard_runs(self@, pad);
        }
        match self.apply_all(&plan) {
            Ok(()) => Ok(plan),
            Err(f) => Err(f),
        }
    }

    /// Starts the route of the audio track `pad`: a decode stage is
    /// created in the graph, subscribed to, linked to the track's pad, and
    /// brought in line with the graph's state. The rest of the
    /// route is built when the stage adds its first leg. Returns the
    /// commands that do this to the real graph; on a fault nothing is
    /// changed.
    pub fn attach_decoder(&mut self, pad: usize) -> (r: Result<Vec<Command>, Fault>)
        requires
            old(self).wf(),
        ensures
            final(self).wf(),
            final(self)@.extends(old(self)@),
            match stage_fault(old(self)@, pad) {
                Some(f) => r == Err::<Vec<Command>, Fault>(f) && final(self)@ == old(self)@,
                None => {
                    &&& r is Ok
                    &&& command_views(r->Ok_0@) == decode_plan(old(self)@, pad)
                    &&& final(self)@ == staged(old(self)@, pad, ElementKind::Decode)
                },
            },
    {
        match self.check_stage(pad) {
            Ok(()) => {},
            Err(f) => {
                return Err(f);
            },
        }
        let n = self.element_count();
        let m = self.pad_count();
        let mut plan: Vec<Command> = Vec::new();
        plan.push(Command::Make { kind: ElementKind::Decode, element: n, pad: m });
        plan.push(Command::Watch { element: n });
        plan.push(Command::Link { src: pad, sink: m });
        plan.push(Command::Sync { element: n });
        proof {
            assert(command_views(plan@) =~= decode_plan(self@, pad));
            lemma_decode_runs(self@, pad);
        }
        match self.apply_all(&plan) {
            Ok(()) => Ok(plan),
            Err(f) => Err(f),
        }
    }

    /// Decides [`mix_fault`].
    fn check_mix(&self, leg: usize, mixer: usize) -> (r: Result<(), Fault>)
        requires
            self.wf(),
        ensures
            r == match mix_fault(self@, leg, mixer) {
                Some(f) => Err::<(), Fault>(f),
                None => Ok::<(), Fault>(()),
            },
    {
        let (direction, attachment) = match self.pad(leg) {
            Some(found) => (found.direction, found.attachment),
            None => {
                return Err(Fault::UnknownPad);
            },
        };
        if direction != Direction::Src {
            return Err(Fault::WrongDirection);
        }
        if attachment != Attachment::Free {
            return Err(Fault::Occupied);
        }
        if !crate::command::same_level(self.level(leg), Some(0)) {
            return Err(Fault::WrongHierarchy);
        }
        let element = match self.element(mixer) {
            Some(element) => element,
            None => {
                return Err(Fault::UnknownElement);
            },
        };
        if !element.kind.is_mixer() {
            return Err(Fault::NotAMixer);
        }
        if !crate::command::same_level(element.parent, Some(0)) {
            return Err(Fault::WrongHierarchy);
        }
        if element.slots == usize::MAX || !self.has_room_for(3, 7) {
            return Err(Fault::Exhausted);
        }
        Ok(())
    }

    /// Completes the route of an audio track: the leg `leg` of its decode
    /// stage is led through a convert, a resample and a constrain stage
    /// into a fresh slot of `mixer`. Returns the commands that do this to
    /// the real graph; on a fault nothing is changed.
    pub fn lead_into_mixer(&mut self, leg: usize, mixer: usize) -> (r: Result<Vec<Command>, Fault>)
        requires
            old(self).wf(),
        ensures
            final(self).wf(),
            final(self)@.extends(old(self)@),
            match mix_fault(old(self)@, leg, mixer) {
                Some(f) => r == Err::<Vec<Command>, Fault>(f) && final(self)@ == old(self)@,
                None => {
                    &&& r is Ok
                    &&& command_views(r->Ok_0@) == mix_plan(old(self)@, leg, mixer)
                    &&& final(self)@ == mixed(old(self)@, leg, mixer)
                },
            },
    {
        match self.check_mix(leg, mixer) {
            Ok(()) => {},
            Err(f) => {
                return Err(f);
            },
        }
        let n = self.element_count();
        let m = self.pad_count();
        let mut plan: Vec<Command> = Vec::new();
        plan.push(Command::Make { kind: ElementKind::Convert, element: n, pad: m });
        plan.push(Command::Make { kind: ElementKind::Resample, element: n + 1, pad: m + 2 });
        plan.push(Command::Make { kind: ElementKind::Constrain, element: n + 2, pad: m + 4 });
        plan.push(Command::Link { src: m + 1, sink: m + 2 });
        plan.push(Command::Link { src: m + 3, sink: m + 4 });
        plan.push(Command::Request { element: mixer, pad: m + 6 });
        plan.push(Command::Link { src: m + 5, sink: m + 6 });
        plan.push(Command::Link { src: leg, sink: m });
        plan.push(Command::Sync { element: n });
        plan.push(Command::Sync { element: n + 1 });
        plan.push(Command::Sync { element: n + 2 });
        proof {
            assert(command_views(plan@) =~= mix_plan(self@, leg, mixer));
            lemma_mix_runs(self@, leg, mixer);
        }
        match self.apply_all(&plan) {
            Ok(()) => Ok(plan),
            Err(f) => Err(f),
        }
    }
}

} // verus!
