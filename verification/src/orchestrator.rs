//! The orchestrator: what is done when the running graph reports a new
//! element, a new pad, or the first buffer on a pad.

use crate::command::{command_views, Command, CommandView};
use crate::media::{describe_track, kind_of, MediaKind};
use crate::promote::{containers, exposed_name, promoted, promotion_fault, promotion_plan};
use crate::route::{decode_plan, discard_plan, mix_fault, mix_plan, mixed, stage_fault, staged};
use crate::session::{
    first_leg, has_leg, lemma_driven_keeps_session, lemma_element_keeps_session,
    lemma_initial_session, lemma_mixed_keeps_session, lemma_pad_keeps_session,
    lemma_promoted_keeps_routes, lemma_staged_keeps_session, session_ok,
};
use crate::state::RunState;
use crate::text::same_text;
use crate::topology::{
    initial, Direction, ElementKind, Fault, Topology, TopologyView, INPUT, MIXER,
};
use vstd::prelude::*;

verus! {

/// Why an event could not be acted on.
#[derive(Clone, Copy, Debug, PartialEq, Eq, Structural)]
pub enum OrchestrationError {
    /// The pad has no negotiated parameters yet: it cannot be classified.
    NotNegotiated,
    /// The model refuses what the event asks for.
    Model(Fault),
}

/// What is done with the probe that waited for a pad's first buffer.
#[derive(Clone, Copy, Debug, PartialEq, Eq, Structural)]
pub enum ProbeVerdict {
    Remove,
    Keep,
}

/// What was decided for a track on its first buffer.
#[derive(Clone, Debug, PartialEq, Eq)]
pub struct Routing {
    pub kind: MediaKind,
    /// The commands to perform on the real graph; none for a track that is
    /// neither audio nor video, which is dropped.
    pub plan: Vec<Command>,
    pub probe: ProbeVerdict,
}

/// The type name by which the negotiating element is recognised.
pub open spec fn webrtc_type_name() -> Seq<char> {
    "GstWebRTCBin"@
}

/// The kind of an element that the graph reports.
pub open spec fn reported_kind(kind_name: Seq<char>, container: bool) -> ElementKind {
    if kind_name == webrtc_type_name() {
        ElementKind::WebRtc
    } else if container {
        ElementKind::Container
    } else {
        ElementKind::Other
    }
}

/// The commands that follow the report of an element with index `id`.
pub open spec fn watch_plan(kind: ElementKind, id: usize) -> Seq<CommandView> {
    if kind == ElementKind::WebRtc {
        seq![CommandView::Watch { element: id }]
    } else {
        Seq::empty()
    }
}

/// Why a pad reported on `element` under `name` is not taken as a pad of
/// the negotiating element.
pub open spec fn webrtc_pad_fault(t: TopologyView, element: usize, name: Seq<char>) -> Option<Fault> {
    if !t.has_element(element) {
        Some(Fault::UnknownElement)
    } else if t.elements[element as int].kind != ElementKind::WebRtc {
        Some(Fault::NotObservable)
    } else {
        t.pad_fault(element, name)
    }
}

/// Why pad `pad` is not routed as a track of the session: a track is a
/// free source pad of the input container.
pub open spec fn input_track_fault(t: TopologyView, pad: usize) -> Option<Fault> {
    if !t.has_pad(pad) {
        Some(Fault::UnknownPad)
    } else if t.pads[pad as int].owner != INPUT {
        Some(Fault::NotATrack)
    } else {
        stage_fault(t, pad)
    }
}

/// Why a leg reported on `decoder` under `name` is not taken.
pub open spec fn leg_fault(t: TopologyView, decoder: usize, name: Seq<char>) -> Option<Fault> {
    if !t.has_element(decoder) {
        Some(Fault::UnknownElement)
    } else if t.elements[decoder as int].kind != ElementKind::Decode {
        Some(Fault::NotObservable)
    } else {
        t.pad_fault(decoder, name)
    }
}

/// Once a leg of a decode stage is in the model, the stage has a leg, and
/// leading the leg into the mixer does not change that: every further leg
/// of the stage is left alone, so a track never takes a second slot.
pub proof fn lemma_first_leg_stays_first(
    t: TopologyView,
    decoder: usize,
    name: Seq<char>,
    mixer: usize,
)
    requires
        t.wf(),
        leg_fault(t, decoder, name) is None,
    ensures
        ({
            let seen = t.with_pad(decoder, name, Direction::Src, false);
            let leg = t.pads.len() as usize;
            has_leg(seen, decoder) && (mix_fault(seen, leg, mixer) is None ==> has_leg(
                mixed(seen, leg, mixer),
                decoder,
            ))
        }),
{
    let seen = t.with_pad(decoder, name, Direction::Src, false);
    let leg = t.pads.len() as usize;
    assert(seen.pads[leg as int].owner == decoder);
    if mix_fault(seen, leg, mixer) is None {
        let u = mixed(seen, leg, mixer);
        assert(u.pads[leg as int].owner == decoder && u.pads[leg as int].direction
            == Direction::Src);
    }
}

/// An audio track takes exactly one slot of the mixer. When the track's
/// pad gets its decode stage and the first leg of that stage is led into
/// the mixer, the track's pad is linked to the decode stage, the leg to a
/// convert stage, that to a resample stage, that to a constrain stage, and
/// that to a slot of the mixer. Of all pads that are new, the slot is the
/// only one on the mixer, and the mixer has handed out exactly one slot
/// more. Afterwards the track is not routed again, no further leg of its
/// decode stage is led anywhere, and the invariant of a session holds.
pub proof fn lemma_audio_track_takes_one_slot(t: TopologyView, track: usize, leg_name: Seq<char>)
    requires
        session_ok(t),
        crate::route::track_fault(t, track) is None,
        t.pads[track as int].owner == INPUT,
        t.has_room(4, 9),
        t.elements[MIXER as int].slots < usize::MAX,
        leg_name != crate::topology::sink_name(),
    ensures
        ({
            let n = t.elements.len() as int;
            let m = t.pads.len() as int;
            let decoder = n as usize;
            let leg = (m + 1) as usize;
            let decoded = staged(t, track, ElementKind::Decode);
            let seen = decoded.with_pad(decoder, leg_name, Direction::Src, false);
            let u = mixed(seen, leg, MIXER);
            let joined = |from: int, to: int, stage: int, kind: ElementKind|
                u.pads[from].attachment == crate::topology::Attachment::Linked(to as usize)
                    && u.pads[to].attachment == crate::topology::Attachment::Linked(from as usize)
                    && u.pads[to].owner == stage && u.elements[stage].kind == kind;
            &&& input_track_fault(t, track) is None
            &&& leg_fault(decoded, decoder, leg_name) is None
            &&& !has_leg(decoded, decoder)
            &&& mix_fault(seen, leg, MIXER) is None
            &&& joined(track as int, m, n, ElementKind::Decode)
            &&& u.pads[leg as int].owner == decoder
            &&& joined(leg as int, m + 2, n + 1, ElementKind::Convert)
            &&& u.pads[m + 3].owner == n + 1
            &&& joined(m + 3, m + 4, n + 2, ElementKind::Resample)
            &&& u.pads[m + 5].owner == n + 2
            &&& joined(m + 5, m + 6, n + 3, ElementKind::Constrain)
            &&& u.pads[m + 7].owner == n + 3
            &&& joined(m + 7, m + 8, MIXER as int, ElementKind::Mixer)
            &&& u.pads[m + 8].name == crate::topology::slot_name(
                t.elements[MIXER as int].slots as nat,
            )
            &&& u.pads.len() == m + 9
            &&& forall|k: int| m <= k < m + 9 ==> (u.pads[k].owner == MIXER <==> k == m + 8)
            &&& forall|k: int| 0 <= k < m && k != track ==> u.pads[k] == t.pads[k]
            &&& u.elements.len() == n + 4
            &&& u.elements[MIXER as int].slots == t.elements[MIXER as int].slots + 1
            &&& session_ok(u)
            &&& (t.settled() ==> u.settled())
            &&& input_track_fault(u, track) == Some(Fault::Occupied)
            &&& has_leg(u, decoder)
        }),
{
    let n = t.elements.len() as int;
    let m = t.pads.len() as int;
    let decoder = n as usize;
    let leg = (m + 1) as usize;
    let decoded = staged(t, track, ElementKind::Decode);
    let seen = decoded.with_pad(decoder, leg_name, Direction::Src, false);
    assert(t.pad_ok(track as int));
    crate::route::lemma_decode_runs(t, track);
    crate::route::lemma_staged_shape(t, track, ElementKind::Decode);
    lemma_staged_keeps_session(t, track, ElementKind::Decode);
    assert(!decoded.name_taken(decoder, leg_name)) by {
        if decoded.name_taken(decoder, leg_name) {
            let k = choose|k: int|
                0 <= k < decoded.pads.len() && (#[trigger] decoded.pads[k]).owner == decoder
                    && decoded.pads[k].name == leg_name;
            if k < m {
                assert(t.pad_ok(k));
            }
        }
    }
    assert(!has_leg(decoded, decoder)) by {
        if has_leg(decoded, decoder) {
            let k = choose|k: int|
                0 <= k < decoded.pads.len() && (#[trigger] decoded.pads[k]).owner == decoder
                    && decoded.pads[k].direction == Direction::Src;
            if k < m {
                assert(t.pad_ok(k));
            }
        }
    }
    lemma_pad_keeps_session(decoded, decoder, leg_name, false);
    assert(seen.pads[leg as int].owner == decoder);
    assert(mix_fault(seen, leg, MIXER) is None);
    assert(first_leg(seen, leg as int)) by {
        assert forall|b: int| 0 <= b < leg implies !((#[trigger] seen.pads[b]).owner
            == seen.pads[leg as int].owner && seen.pads[b].direction == Direction::Src) by {
            assert(seen.pads[b] == decoded.pads[b]);
        }
    }
    crate::route::lemma_mixed_shape(seen, leg, MIXER);
    lemma_mixed_keeps_session(seen, leg);
    let u = mixed(seen, leg, MIXER);
    assert(u.pads[leg as int].owner == decoder && u.pads[leg as int].direction == Direction::Src);
    if t.settled() {
        assert(decoded.settled());
        assert(seen.settled());
    }
}

/// The orchestrator of one graph.
#[derive(Debug)]
pub struct Orchestrator {
    topology: Topology,
}

impl View for Orchestrator {
    type V = TopologyView;

    closed spec fn view(&self) -> TopologyView {
        self.topology@
    }
}

impl Orchestrator {
    /// The invariant of an orchestrator.
    pub open spec fn wf(&self) -> bool {
        session_ok(self@)
    }

    /// The orchestrator of a graph that was just built.
    pub fn new() -> (o: Orchestrator)
        ensures
            o.wf(),
            o@ == initial(),
    {
        proof {
            lemma_initial_session();
        }
        Orchestrator { topology: Topology::new() }
    }

    /// The model of the graph.
    pub fn topology(&self) -> (t: &Topology)
        ensures
            t@ == self@,
    {
        &self.topology
    }

    /// Records that the graph was driven to `state`.
    pub fn on_graph_state(&mut self, state: RunState)
        requires
            old(self).wf(),
        ensures
            final(self).wf(),
            final(self)@.extends(old(self)@),
            final(self)@ == old(self)@.driven(state),
            final(self)@.settled(),
    {
        self.topology.drive(state);
        proof {
            crate::observe::lemma_driven_keeps_wf(old(self)@, state);
            lemma_driven_keeps_session(old(self)@, state);
        }
    }

    /// Takes an element that appeared inside `parent`; `kind_name` is its
    /// type name and `container` says whether it can hold elements. Returns
    /// the element's index, and the command to subscribe to its pads if
    /// it is the negotiating element.
    pub fn on_element_added(&mut self, parent: usize, kind_name: &str, container: bool) -> (r: Result<
        (usize, Vec<Command>),
        Fault,
    >)
        requires
            old(self).wf(),
        ensures
            final(self).wf(),
            final(self)@.extends(old(self)@),
            ({
                let t = old(self)@;
                let kind = reported_kind(kind_name@, container);
                match t.element_fault(parent, kind) {
                    Some(f) => r == Err::<(usize, Vec<Command>), Fault>(f) && final(self)@ == t,
                    None => {
                        &&& r is Ok
                        &&& r->Ok_0.0 == t.elements.len()
                        &&& command_views(r->Ok_0.1@) == watch_plan(kind, r->Ok_0.0)
                        &&& final(self)@ == t.with_element(parent, kind)
                    },
                }
            }),
    {
        let kind = if same_text(kind_name, "GstWebRTCBin") {
            ElementKind::WebRtc
        } else if container {
            ElementKind::Container
        } else {
            ElementKind::Other
        };
        proof {
            if self@.element_fault(parent, kind) is None {
                lemma_element_keeps_session(self@, parent, kind);
            }
        }
        let id = match self.topology.observe_element(parent, kind) {
            Ok(id) => id,
            Err(f) => {
                return Err(f);
            },
        };
        let mut plan: Vec<Command> = Vec::new();
        match kind {
            ElementKind::WebRtc => {
                plan.push(Command::Watch { element: id });
            },
            _ => {},
        }
        proof {
            assert(command_views(plan@) =~= watch_plan(kind, id));
        }
        Ok((id, plan))
    }

    /// Takes a pad that appeared on the negotiating element `element`.
    /// The pad must have negotiated its parameters; `media` is their
    /// `media` field. A pad that is linked already was exposed by the
    /// session itself and needs nothing. A free pad is promoted to the
    /// graph's level. Returns the index that the pad took in the model,
    /// and the commands to perform.
    pub fn on_webrtc_pad(
        &mut self,
        element: usize,
        pad_name: &str,
        media: Option<&str>,
        linked: bool,
    ) -> (r: Result<(usize, Vec<Command>), OrchestrationError>)
        requires
            old(self).wf(),
        ensures
            final(self).wf(),
            final(self)@.extends(old(self)@),
            ({
                let t = old(self)@;
                let seen = t.with_pad(element, pad_name@, Direction::Src, linked);
                let pad = t.pads.len() as usize;
                match media {
                    None => r == Err::<(usize, Vec<Command>), OrchestrationError>(
                        OrchestrationError::NotNegotiated,
                    ) && final(self)@ == t,
                    Some(m) => match webrtc_pad_fault(t, element, pad_name@) {
                        Some(f) => r == Err::<(usize, Vec<Command>), OrchestrationError>(
                            OrchestrationError::Model(f),
                        ) && final(self)@ == t,
                        None => if linked {
                            r is Ok && r->Ok_0.0 == pad && r->Ok_0.1@.len() == 0 && final(self)@
                                == seen
                        } else {
                            let name = exposed_name(m@, pad_name@);
                            match promotion_fault(seen, pad, name) {
                                Some(f) => r == Err::<(usize, Vec<Command>), OrchestrationError>(
                                    OrchestrationError::Model(f),
                                ) && final(self)@ == seen,
                                None => {
                                    &&& r is Ok
                                    &&& r->Ok_0.0 == pad
                                    &&& command_views(r->Ok_0.1@) == promotion_plan(
                                        seen,
                                        pad,
                                        name,
                                    )
                                    &&& final(self)@ == promoted(
                                        seen,
                                        containers(seen, element),
                                        name,
                                        pad,
                                    )
                                },
                            }
                        },
                    },
                }
            }),
    {
        let track = match describe_track(media) {
            Ok(track) => track,
            Err(_) => {
                return Err(OrchestrationError::NotNegotiated);
            },
        };
        match self.topology.element(element) {
            Some(found) => match found.kind {
                ElementKind::WebRtc => {},
                _ => {
                    return Err(OrchestrationError::Model(Fault::NotObservable));
                },
            },
            None => {
                return Err(OrchestrationError::Model(Fault::UnknownElement));
            },
        }
        proof {
            if self@.pad_fault(element, pad_name@) is None {
                lemma_pad_keeps_session(self@, element, pad_name@, linked);
            }
        }
        let pad = match self.topology.observe_pad(element, pad_name, Direction::Src, linked) {
            Ok(pad) => pad,
            Err(f) => {
                return Err(OrchestrationError::Model(f));
            },
        };
        if linked {
            return Ok((pad, Vec::new()));
        }
        proof {
            let seen = self@;
            let name = exposed_name(track.media@, pad_name@);
            if promotion_fault(seen, pad, name) is None {
                crate::promote::lemma_promotable_is_climbable(seen, pad, name);
                lemma_promoted_keeps_routes(seen, containers(seen, element), name, pad);
            }
        }
        match self.topology.promote(pad, track.media.as_str()) {
            Ok(plan) => Ok((pad, plan)),
            Err(f) => Err(OrchestrationError::Model(f)),
        }
    }

    /// Takes a pad that appeared on the input container. `known` is the
    /// pad's index if the model holds it already, as it does for a ghost
    /// pad that the promoter added; a pad that the session exposed by
    /// itself is taken into the model under `pad_name`. Returns the pad's
    /// index and the command to wait for its first buffer.
    pub fn on_input_pad(&mut self, known: Option<usize>, pad_name: &str) -> (r: Result<
        (usize, Vec<Command>),
        Fault,
    >)
        requires
            old(self).wf(),
        ensures
            final(self).wf(),
            final(self)@.extends(old(self)@),
            ({
                let t = old(self)@;
                match known {
                    Some(p) => if !t.has_pad(p) {
                        r == Err::<(usize, Vec<Command>), Fault>(Fault::UnknownPad) && final(self)@
                            == t
                    } else if t.pads[p as int].owner != INPUT {
                        r == Err::<(usize, Vec<Command>), Fault>(Fault::NotATrack) && final(self)@
                            == t
                    } else {
                        &&& r is Ok
                        &&& r->Ok_0.0 == p
                        &&& command_views(r->Ok_0.1@) == seq![CommandView::Probe { pad: p }]
                        &&& final(self)@ == t
                    },
                    None => match t.pad_fault(INPUT, pad_name@) {
                        Some(f) => r == Err::<(usize, Vec<Command>), Fault>(f) && final(self)@ == t,
                        None => {
                            &&& r is Ok
                            &&& r->Ok_0.0 == t.pads.len()
                            &&& command_views(r->Ok_0.1@) == seq![
                                CommandView::Probe { pad: r->Ok_0.0 },
                            ]
                            &&& final(self)@ == t.with_pad(INPUT, pad_name@, Direction::Src, false)
                        },
                    },
                }
            }),
    {
        proof {
            if known is None && self@.pad_fault(INPUT, pad_name@) is None {
                lemma_pad_keeps_session(self@, INPUT, pad_name@, false);
            }
        }
        let pad = match known {
            Some(p) => {
                match self.topology.pad(p) {
                    Some(found) => {
                        if found.owner != INPUT {
                            return Err(Fault::NotATrack);
                        }
                    },
                    None => {
                        return Err(Fault::UnknownPad);
                    },
                }
                p
            },
            None => match self.topology.observe_pad(INPUT, pad_name, Direction::Src, false) {
                Ok(pad) => pad,
                Err(f) => {
                    return Err(f);
                },
            },
        };
        let mut plan: Vec<Command> = Vec::new();
        plan.push(Command::Probe { pad });
        proof {
            assert(command_views(plan@) =~= seq![CommandView::Probe { pad }]);
        }
        Ok((pad, plan))
    }

    /// Routes the track on `pad` when its first buffer arrives. The pad
    /// must have negotiated its parameters; `media` is their `media`
    /// field. An audio track gets a decode stage, a video track a discard
    /// sink, and any other track is dropped. The probe is removed in every
    /// case, so no track is routed twice.
    pub fn on_first_buffer(&mut self, pad: usize, media: Option<&str>) -> (r: Result<
        Routing,
        OrchestrationError,
    >)
        requires
            old(self).wf(),
        ensures
            final(self).wf(),
            final(self)@.extends(old(self)@),
            ({
                let t = old(self)@;
                match media {
                    None => r == Err::<Routing, OrchestrationError>(
                        OrchestrationError::NotNegotiated,
                    ) && final(self)@ == t,
                    Some(m) => match kind_of(m@) {
                        MediaKind::Other => {
                            &&& r is Ok
                            &&& r->Ok_0.kind == MediaKind::Other
                            &&& r->Ok_0.plan@.len() == 0
                            &&& r->Ok_0.probe == ProbeVerdict::Remove
                            &&& final(self)@ == t
                        },
                        kind => match input_track_fault(t, pad) {
                            Some(f) => r == Err::<Routing, OrchestrationError>(
                                OrchestrationError::Model(f),
                            ) && final(self)@ == t,
                            None => {
                                &&& r is Ok
                                &&& r->Ok_0.kind == kind
                                &&& r->Ok_0.probe == ProbeVerdict::Remove
                                &&& command_views(r->Ok_0.plan@) == if kind == MediaKind::Audio {
                                    decode_plan(t, pad)
                                } else {
                                    discard_plan(t, pad)
                                }
                                &&& final(self)@ == staged(
                                    t,
                                    pad,
                                    if kind == MediaKind::Audio {
                                        ElementKind::Decode
                                    } else {
                                        ElementKind::Discard
                                    },
                                )
                            },
                        },
                    },
                }
            }),
    {
        let kind = match describe_track(media) {
            Ok(track) => track.kind,
            Err(_) => {
                return Err(OrchestrationError::NotNegotiated);
            },
        };
        match kind {
            MediaKind::Other => {
                return Ok(Routing { kind, plan: Vec::new(), probe: ProbeVerdict::Remove });
            },
            _ => {},
        }
        match self.topology.pad(pad) {
            Some(found) => {
                if found.owner != INPUT {
                    return Err(OrchestrationError::Model(Fault::NotATrack));
                }
            },
            None => {
                return Err(OrchestrationError::Model(Fault::UnknownPad));
            },
        }
        proof {
            if stage_fault(self@, pad) is None {
                lemma_staged_keeps_session(self@, pad, ElementKind::Decode);
                lemma_staged_keeps_session(self@, pad, ElementKind::Discard);
            }
        }
        let routed = match kind {
            MediaKind::Audio => self.topology.attach_decoder(pad),
            _ => self.topology.route_video(pad),
        };
        match routed {
            Ok(plan) => Ok(Routing { kind, plan, probe: ProbeVerdict::Remove }),
            Err(f) => Err(OrchestrationError::Model(f)),
        }
    }

    /// Takes a leg that appeared on the decode stage `decoder`. The first
    /// leg of a stage is led into a fresh slot of the mixer; any further
    /// leg is taken into the model and left alone. Returns the index that
    /// the leg took in the model, and the commands to perform.
    pub fn on_decoder_pad(&mut self, decoder: usize, pad_name: &str) -> (r: Result<
        (usize, Vec<Command>),
        Fault,
    >)
        requires
            old(self).wf(),
        ensures
            final(self).wf(),
            final(self)@.extends(old(self)@),
            ({
                let t = old(self)@;
                let seen = t.with_pad(decoder, pad_name@, Direction::Src, false);
                let leg = t.pads.len() as usize;
                match leg_fault(t, decoder, pad_name@) {
                    Some(f) => r == Err::<(usize, Vec<Command>), Fault>(f) && final(self)@ == t,
                    None => if has_leg(t, decoder) {
                        r is Ok && r->Ok_0.0 == leg && r->Ok_0.1@.len() == 0 && final(self)@
                            == seen
                    } else {
                        match mix_fault(seen, leg, MIXER) {
                            Some(f) => r == Err::<(usize, Vec<Command>), Fault>(f)
                                && final(self)@ == seen,
                            None => {
                                &&& r is Ok
                                &&& r->Ok_0.0 == leg
                                &&& command_views(r->Ok_0.1@) == mix_plan(seen, leg, MIXER)
                                &&& final(self)@ == mixed(seen, leg, MIXER)
                            },
                        }
                    },
                }
            }),
    {
        let kind = match self.topology.element(decoder) {
            Some(element) => element.kind,
            None => {
                return Err(Fault::UnknownElement);
            },
        };
        match kind {
            ElementKind::Decode => {},
            _ => {
                return Err(Fault::NotObservable);
            },
        }
        let first = !self.has_source_pad(decoder);
        proof {
            if self@.pad_fault(decoder, pad_name@) is None {
                lemma_pad_keeps_session(self@, decoder, pad_name@, false);
            }
        }
        let leg = match self.topology.observe_pad(decoder, pad_name, Direction::Src, false) {
            Ok(leg) => leg,
            Err(f) => {
                return Err(f);
            },
        };
        if !first {
            return Ok((leg, Vec::new()));
        }
        proof {
            let seen = self@;
            assert(first_leg(seen, leg as int)) by {
                assert forall|b: int| 0 <= b < leg implies !((#[trigger] seen.pads[b]).owner
                    == seen.pads[leg as int].owner && seen.pads[b].direction == Direction::Src) by {
                    assert(seen.pads[b] == old(self)@.pads[b]);
                }
            }
            if mix_fault(seen, leg, MIXER) is None {
                lemma_mixed_keeps_session(seen, leg);
            }
        }
        match self.topology.lead_into_mixer(leg, MIXER) {
            Ok(plan) => Ok((leg, plan)),
            Err(f) => Err(f),
        }
    }

    /// Decides [`has_leg`].
    pub fn has_source_pad(&self, e: usize) -> (yes: bool)
        ensures
            yes == has_leg(self@, e),
    {
        let n = self.topology.pad_count();
        let mut k: usize = 0;
        while k < n
            invariant
                k <= n,
                n == self@.pads.len(),
                forall|j: int|
                    0 <= j < k ==> !((#[trigger] self@.pads[j]).owner == e && self@.pads[j].direction
                        == Direction::Src),
            decreases n - k,
        {
            let hit = match self.topology.pad(k) {
                Some(found) => found.owner == e && found.direction == Direction::Src,
                None => false,
            };
            if hit {
                assert(self@.pads[k as int].owner == e);
                return true;
            }
            k += 1;
        }
        false
    }
}

} // verus!
