use whep_srt::command::{same_level, Command};
use whep_srt::state::RunState;
use whep_srt::topology::{
    slot_label, Attachment, Direction, Element, ElementKind, Fault, Pad, Topology, GRAPH, INPUT,
    MIXER,
};

fn pad(owner: usize, name: &str, direction: Direction, attachment: Attachment) -> Pad {
    Pad { owner, name: String::from(name), direction, attachment, target: None }
}

#[test]
fn the_initial_topology_holds_graph_input_and_mixer() {
    let t = Topology::new();
    assert_eq!(t.element_count(), 3);
    assert_eq!(t.pad_count(), 2);
    assert_eq!(
        t.element(GRAPH),
        Some(Element { kind: ElementKind::Graph, parent: None, state: RunState::Null, slots: 0 })
    );
    assert_eq!(
        t.element(INPUT),
        Some(Element {
            kind: ElementKind::Container,
            parent: Some(0),
            state: RunState::Null,
            slots: 0
        })
    );
    assert_eq!(
        t.element(MIXER),
        Some(Element { kind: ElementKind::Mixer, parent: Some(0), state: RunState::Null, slots: 1 })
    );
    assert_eq!(t.element(3), None);
    assert_eq!(t.pad(0), Some(&pad(2, "src", Direction::Src, Attachment::External)));
    assert_eq!(t.pad(1), Some(&pad(2, "sink_0", Direction::Sink, Attachment::External)));
    assert_eq!(t.pad(2), None);
}

#[test]
fn slots_are_named_by_their_number() {
    assert_eq!(slot_label(0), "sink_0");
    assert_eq!(slot_label(1), "sink_1");
    assert_eq!(slot_label(10), "sink_10");
    assert_eq!(slot_label(4294967295), "sink_4294967295");
}

#[test]
fn kinds_know_what_they_are() {
    assert!(ElementKind::Graph.holds_elements());
    assert!(ElementKind::Container.holds_elements());
    assert!(!ElementKind::Mixer.holds_elements());
    assert!(!ElementKind::WebRtc.holds_elements());
    assert!(ElementKind::Decode.is_creatable());
    assert!(ElementKind::Discard.is_creatable());
    assert!(!ElementKind::Mixer.is_creatable());
    assert!(!ElementKind::Graph.is_creatable());
    assert!(ElementKind::WebRtc.is_observable());
    assert!(ElementKind::Container.is_observable());
    assert!(ElementKind::Other.is_observable());
    assert!(!ElementKind::Decode.is_observable());
    assert!(ElementKind::Convert.has_src());
    assert!(ElementKind::Resample.has_src());
    assert!(ElementKind::Constrain.has_src());
    assert!(!ElementKind::Decode.has_src());
    assert!(!ElementKind::Discard.has_src());
    assert!(ElementKind::Mixer.is_mixer());
    assert!(!ElementKind::Convert.is_mixer());
}

#[test]
fn names_are_taken_per_element() {
    let t = Topology::new();
    assert!(t.is_name_taken(MIXER, "src"));
    assert!(t.is_name_taken(MIXER, "sink_0"));
    assert!(!t.is_name_taken(MIXER, "sink_1"));
    assert!(!t.is_name_taken(INPUT, "src"));
    assert!(!t.is_name_taken(7, "src"));
}

#[test]
fn room_is_counted_for_elements_and_pads() {
    let t = Topology::new();
    assert!(t.has_room_for(3, 7));
    assert!(t.has_room_for(usize::MAX - 3, usize::MAX - 2));
    assert!(!t.has_room_for(usize::MAX - 2, 0));
    assert!(!t.has_room_for(0, usize::MAX - 1));
}

#[test]
fn reported_elements_run_as_their_container_does() {
    let mut t = Topology::new();
    t.drive(RunState::Playing);
    assert_eq!(t.observe_element(INPUT, ElementKind::Container), Ok(3));
    assert_eq!(t.observe_element(3, ElementKind::WebRtc), Ok(4));
    assert_eq!(
        t.element(4),
        Some(Element {
            kind: ElementKind::WebRtc,
            parent: Some(3),
            state: RunState::Playing,
            slots: 0
        })
    );
    assert_eq!(t.element_count(), 5);
}

#[test]
fn reports_that_do_not_fit_are_refused() {
    let mut t = Topology::new();
    assert_eq!(t.observe_element(INPUT, ElementKind::Mixer), Err(Fault::NotObservable));
    assert_eq!(t.observe_element(INPUT, ElementKind::Graph), Err(Fault::NotObservable));
    assert_eq!(t.observe_element(INPUT, ElementKind::Decode), Err(Fault::NotObservable));
    assert_eq!(t.observe_element(9, ElementKind::Other), Err(Fault::UnknownElement));
    assert_eq!(t.observe_element(MIXER, ElementKind::Other), Err(Fault::NotAContainer));
    assert_eq!(t.element_count(), 3);
    assert_eq!(t.observe_pad(9, "src_0", Direction::Src, false), Err(Fault::UnknownElement));
    assert_eq!(t.observe_pad(MIXER, "sink_7", Direction::Sink, false), Err(Fault::NotObservable));
    assert_eq!(t.observe_pad(INPUT, "src_0", Direction::Src, false), Ok(2));
    assert_eq!(t.observe_pad(INPUT, "src_0", Direction::Src, true), Err(Fault::NameTaken));
    assert_eq!(t.pad_count(), 3);
}

#[test]
fn reported_pads_are_free_or_linked_outside() {
    let mut t = Topology::new();
    assert_eq!(t.observe_pad(INPUT, "a", Direction::Src, false), Ok(2));
    assert_eq!(t.observe_pad(INPUT, "b", Direction::Src, true), Ok(3));
    assert_eq!(t.pad(2), Some(&pad(1, "a", Direction::Src, Attachment::Free)));
    assert_eq!(t.pad(3), Some(&pad(1, "b", Direction::Src, Attachment::External)));
    assert_eq!(t.level(2), Some(0));
}

#[test]
fn driving_the_graph_takes_every_element_along() {
    let mut t = Topology::new();
    t.observe_element(INPUT, ElementKind::Other).unwrap();
    t.drive(RunState::Paused);
    for e in 0..4 {
        assert_eq!(t.element(e).unwrap().state, RunState::Paused);
    }
    assert_eq!(t.element(MIXER).unwrap().slots, 1);
    assert_eq!(t.pad_count(), 2);
}

#[test]
fn a_made_element_lies_in_the_graph_with_its_static_pads() {
    let mut t = Topology::new();
    t.drive(RunState::Playing);
    let make = Command::Make { kind: ElementKind::Convert, element: 3, pad: 2 };
    assert_eq!(t.apply(&make), Ok(()));
    assert_eq!(
        t.element(3),
        Some(Element {
            kind: ElementKind::Convert,
            parent: Some(0),
            state: RunState::Null,
            slots: 0
        })
    );
    assert_eq!(t.pad(2), Some(&pad(3, "sink", Direction::Sink, Attachment::Free)));
    assert_eq!(t.pad(3), Some(&pad(3, "src", Direction::Src, Attachment::Free)));
    assert_eq!(t.pad_count(), 4);
    let make = Command::Make { kind: ElementKind::Discard, element: 4, pad: 4 };
    assert_eq!(t.apply(&make), Ok(()));
    assert_eq!(t.pad(4), Some(&pad(4, "sink", Direction::Sink, Attachment::Free)));
    assert_eq!(t.pad_count(), 5);
}

#[test]
fn making_is_refused_for_other_kinds_and_other_indices() {
    let mut t = Topology::new();
    for kind in [
        ElementKind::Graph,
        ElementKind::Container,
        ElementKind::WebRtc,
        ElementKind::Mixer,
        ElementKind::Other,
    ] {
        assert_eq!(t.apply(&Command::Make { kind, element: 3, pad: 2 }), Err(Fault::NotCreatable));
    }
    let kind = ElementKind::Decode;
    assert_eq!(t.apply(&Command::Make { kind, element: 4, pad: 2 }), Err(Fault::OutOfOrder));
    assert_eq!(t.apply(&Command::Make { kind, element: 3, pad: 3 }), Err(Fault::OutOfOrder));
    assert_eq!(t.element_count(), 3);
    assert_eq!(t.pad_count(), 2);
}

#[test]
fn syncing_takes_the_state_of_the_container() {
    let mut t = Topology::new();
    t.drive(RunState::Playing);
    t.apply(&Command::Make { kind: ElementKind::Discard, element: 3, pad: 2 }).unwrap();
    assert_eq!(t.element(3).unwrap().state, RunState::Null);
    assert_eq!(t.apply(&Command::Sync { element: 3 }), Ok(()));
    assert_eq!(t.element(3).unwrap().state, RunState::Playing);
    assert_eq!(t.apply(&Command::Sync { element: 4 }), Err(Fault::UnknownElement));
    assert_eq!(t.apply(&Command::Sync { element: GRAPH }), Err(Fault::NoParent));
}

#[test]
fn links_join_a_free_source_to_a_free_sink_of_the_same_level() {
    let mut t = Topology::new();
    t.observe_pad(INPUT, "src_0", Direction::Src, false).unwrap();
    t.apply(&Command::Make { kind: ElementKind::Convert, element: 3, pad: 3 }).unwrap();
    assert_eq!(t.apply(&Command::Link { src: 2, sink: 3 }), Ok(()));
    assert_eq!(t.pad(2).unwrap().attachment, Attachment::Linked(3));
    assert_eq!(t.pad(3).unwrap().attachment, Attachment::Linked(2));
    assert_eq!(t.pad(4).unwrap().attachment, Attachment::Free);
}

#[test]
fn links_that_do_not_fit_are_refused() {
    let mut t = Topology::new();
    t.observe_element(INPUT, ElementKind::WebRtc).unwrap();
    t.observe_pad(INPUT, "src_0", Direction::Src, false).unwrap();
    t.observe_pad(3, "src_1", Direction::Src, false).unwrap();
    t.observe_pad(INPUT, "linked", Direction::Src, true).unwrap();
    t.apply(&Command::Make { kind: ElementKind::Convert, element: 4, pad: 5 }).unwrap();
    assert_eq!(t.apply(&Command::Link { src: 9, sink: 5 }), Err(Fault::UnknownPad));
    assert_eq!(t.apply(&Command::Link { src: 2, sink: 9 }), Err(Fault::UnknownPad));
    assert_eq!(t.apply(&Command::Link { src: 5, sink: 2 }), Err(Fault::WrongDirection));
    assert_eq!(t.apply(&Command::Link { src: 2, sink: 6 }), Err(Fault::WrongDirection));
    assert_eq!(t.apply(&Command::Link { src: 4, sink: 5 }), Err(Fault::Occupied));
    assert_eq!(t.apply(&Command::Link { src: 2, sink: 1 }), Err(Fault::Occupied));
    assert_eq!(t.apply(&Command::Link { src: 3, sink: 5 }), Err(Fault::WrongHierarchy));
    assert_eq!(t.apply(&Command::Link { src: 2, sink: 5 }), Ok(()));
    assert_eq!(t.apply(&Command::Link { src: 2, sink: 5 }), Err(Fault::Occupied));
}

#[test]
fn a_ghost_pad_exposes_a_pad_on_its_container() {
    let mut t = Topology::new();
    t.observe_element(INPUT, ElementKind::WebRtc).unwrap();
    t.observe_pad(3, "src_1", Direction::Src, false).unwrap();
    let expose =
        Command::Expose { container: INPUT, name: String::from("audio_src_1"), target: 2, pad: 3 };
    assert_eq!(t.apply(&expose), Ok(()));
    assert_eq!(t.pad(2).unwrap().attachment, Attachment::Exposed(3));
    assert_eq!(
        t.pad(3),
        Some(&Pad {
            owner: INPUT,
            name: String::from("audio_src_1"),
            direction: Direction::Src,
            attachment: Attachment::Free,
            target: Some(2),
        })
    );
    assert_eq!(t.level(3), Some(0));
    assert_eq!(t.level(2), Some(1));
}

#[test]
fn ghost_pads_that_do_not_fit_are_refused() {
    let mut t = Topology::new();
    t.observe_element(INPUT, ElementKind::Container).unwrap();
    t.observe_element(3, ElementKind::WebRtc).unwrap();
    t.observe_pad(4, "src_1", Direction::Src, false).unwrap();
    t.observe_pad(4, "src_2", Direction::Src, true).unwrap();
    t.observe_pad(3, "taken", Direction::Src, false).unwrap();
    let expose = |container: usize, name: &str, target: usize, pad: usize| Command::Expose {
        container,
        name: String::from(name),
        target,
        pad,
    };
    assert_eq!(t.apply(&expose(9, "n", 2, 5)), Err(Fault::UnknownElement));
    assert_eq!(t.apply(&expose(3, "n", 9, 5)), Err(Fault::UnknownPad));
    assert_eq!(t.apply(&expose(4, "n", 2, 5)), Err(Fault::NotAContainer));
    assert_eq!(t.apply(&expose(3, "n", 3, 5)), Err(Fault::Occupied));
    assert_eq!(t.apply(&expose(INPUT, "n", 2, 5)), Err(Fault::TargetOutside));
    assert_eq!(t.apply(&expose(GRAPH, "n", 2, 5)), Err(Fault::TargetOutside));
    assert_eq!(t.apply(&expose(3, "taken", 2, 5)), Err(Fault::NameTaken));
    assert_eq!(t.apply(&expose(3, "n", 2, 6)), Err(Fault::OutOfOrder));
    assert_eq!(t.pad_count(), 5);
    assert_eq!(t.apply(&expose(3, "n", 2, 5)), Ok(()));
    assert_eq!(t.apply(&expose(3, "m", 2, 6)), Err(Fault::Occupied));
}

#[test]
fn the_mixer_hands_out_fresh_slots() {
    let mut t = Topology::new();
    assert_eq!(t.apply(&Command::Request { element: MIXER, pad: 2 }), Ok(()));
    assert_eq!(t.apply(&Command::Request { element: MIXER, pad: 3 }), Ok(()));
    assert_eq!(t.pad(2), Some(&pad(2, "sink_1", Direction::Sink, Attachment::Free)));
    assert_eq!(t.pad(3), Some(&pad(2, "sink_2", Direction::Sink, Attachment::Free)));
    assert_eq!(t.element(MIXER).unwrap().slots, 3);
    assert_eq!(t.apply(&Command::Request { element: 9, pad: 4 }), Err(Fault::UnknownElement));
    assert_eq!(t.apply(&Command::Request { element: INPUT, pad: 4 }), Err(Fault::NotAMixer));
    assert_eq!(t.apply(&Command::Request { element: MIXER, pad: 5 }), Err(Fault::OutOfOrder));
    assert_eq!(t.pad_count(), 4);
}

#[test]
fn subscriptions_need_what_they_name() {
    let mut t = Topology::new();
    assert_eq!(t.apply(&Command::Watch { element: MIXER }), Ok(()));
    assert_eq!(t.apply(&Command::Watch { element: 3 }), Err(Fault::UnknownElement));
    assert_eq!(t.apply(&Command::Probe { pad: 1 }), Ok(()));
    assert_eq!(t.apply(&Command::Probe { pad: 2 }), Err(Fault::UnknownPad));
    assert_eq!(t.element_count(), 3);
    assert_eq!(t.pad_count(), 2);
}

#[test]
fn a_sequence_stops_at_the_first_refusal() {
    let mut t = Topology::new();
    let commands = vec![
        Command::Make { kind: ElementKind::Discard, element: 3, pad: 2 },
        Command::Sync { element: 3 },
        Command::Link { src: 0, sink: 2 },
        Command::Make { kind: ElementKind::Discard, element: 4, pad: 3 },
    ];
    assert_eq!(t.apply_all(&commands), Err(Fault::Occupied));
    assert_eq!(t.element_count(), 4);
    assert_eq!(t.pad(2).unwrap().attachment, Attachment::Free);
    assert_eq!(t.apply_all(&vec![]), Ok(()));
    assert_eq!(t.element_count(), 4);
}

#[test]
fn levels_are_compared() {
    assert!(same_level(None, None));
    assert!(same_level(Some(3), Some(3)));
    assert!(!same_level(Some(3), Some(4)));
    assert!(!same_level(None, Some(0)));
    assert!(!same_level(Some(0), None));
}
