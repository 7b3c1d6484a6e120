use whep_srt::command::Command;
use whep_srt::state::RunState;
use whep_srt::topology::{
    Attachment, Direction, Element, ElementKind, Fault, Pad, Topology, INPUT, MIXER,
};

fn pad(owner: usize, name: &str, direction: Direction, peer: usize) -> Pad {
    Pad {
        owner,
        name: String::from(name),
        direction,
        attachment: Attachment::Linked(peer),
        target: None,
    }
}

fn playing_with_track() -> (Topology, usize) {
    let mut t = Topology::new();
    t.drive(RunState::Playing);
    let track = t.observe_pad(INPUT, "audio_src_0", Direction::Src, false).unwrap();
    (t, track)
}

#[test]
fn a_video_track_gets_one_discard_sink() {
    let (mut t, track) = playing_with_track();
    assert_eq!(track, 2);
    let plan = t.route_video(track).unwrap();
    assert_eq!(
        plan,
        vec![
            Command::Make { kind: ElementKind::Discard, element: 3, pad: 3 },
            Command::Sync { element: 3 },
            Command::Link { src: 2, sink: 3 },
        ]
    );
    assert_eq!(t.element_count(), 4);
    assert_eq!(
        t.element(3),
        Some(Element {
            kind: ElementKind::Discard,
            parent: Some(0),
            state: RunState::Playing,
            slots: 0
        })
    );
    assert_eq!(t.pad_count(), 4);
    assert_eq!(t.pad(2).unwrap().attachment, Attachment::Linked(3));
    assert_eq!(t.pad(3), Some(&pad(3, "sink", Direction::Sink, 2)));
    assert_eq!(t.element(MIXER).unwrap().slots, 1);
}

#[test]
fn a_routed_track_is_not_routed_again() {
    let (mut t, track) = playing_with_track();
    t.route_video(track).unwrap();
    assert_eq!(t.route_video(track), Err(Fault::Occupied));
    assert_eq!(t.attach_decoder(track), Err(Fault::Occupied));
    assert_eq!(t.element_count(), 4);
    assert_eq!(t.pad_count(), 4);
}

#[test]
fn only_free_source_pads_of_the_graph_level_are_tracks() {
    let mut t = Topology::new();
    let webrtc = t.observe_element(INPUT, ElementKind::WebRtc).unwrap();
    let inner = t.observe_pad(webrtc, "src_0", Direction::Src, false).unwrap();
    let sink = t.observe_pad(INPUT, "in", Direction::Sink, false).unwrap();
    assert_eq!(t.route_video(9), Err(Fault::UnknownPad));
    assert_eq!(t.route_video(sink), Err(Fault::WrongDirection));
    assert_eq!(t.route_video(0), Err(Fault::Occupied));
    assert_eq!(t.route_video(inner), Err(Fault::WrongHierarchy));
    assert_eq!(t.attach_decoder(9), Err(Fault::UnknownPad));
    assert_eq!(t.attach_decoder(sink), Err(Fault::WrongDirection));
    assert_eq!(t.attach_decoder(0), Err(Fault::Occupied));
    assert_eq!(t.attach_decoder(inner), Err(Fault::WrongHierarchy));
    assert_eq!(t.element_count(), 4);
    assert_eq!(t.pad_count(), 4);
}

#[test]
fn an_audio_track_gets_a_decode_stage_first() {
    let (mut t, track) = playing_with_track();
    let plan = t.attach_decoder(track).unwrap();
    assert_eq!(
        plan,
        vec![
            Command::Make { kind: ElementKind::Decode, element: 3, pad: 3 },
            Command::Watch { element: 3 },
            Command::Link { src: 2, sink: 3 },
            Command::Sync { element: 3 },
        ]
    );
    assert_eq!(t.element(3).unwrap().kind, ElementKind::Decode);
    assert_eq!(t.element(3).unwrap().state, RunState::Playing);
    assert_eq!(t.pad(2).unwrap().attachment, Attachment::Linked(3));
    assert_eq!(t.pad(3), Some(&pad(3, "sink", Direction::Sink, 2)));
    assert_eq!(t.pad_count(), 4);
    assert_eq!(t.element(MIXER).unwrap().slots, 1);
}

#[test]
fn a_leg_is_led_through_the_chain_into_one_fresh_slot() {
    let (mut t, track) = playing_with_track();
    t.attach_decoder(track).unwrap();
    let leg = t.observe_pad(3, "src_0", Direction::Src, false).unwrap();
    assert_eq!(leg, 4);
    let plan = t.lead_into_mixer(leg, MIXER).unwrap();
    assert_eq!(
        plan,
        vec![
            Command::Make { kind: ElementKind::Convert, element: 4, pad: 5 },
            Command::Make { kind: ElementKind::Resample, element: 5, pad: 7 },
            Command::Make { kind: ElementKind::Constrain, element: 6, pad: 9 },
            Command::Link { src: 6, sink: 7 },
            Command::Link { src: 8, sink: 9 },
            Command::Request { element: MIXER, pad: 11 },
            Command::Link { src: 10, sink: 11 },
            Command::Link { src: 4, sink: 5 },
            Command::Sync { element: 4 },
            Command::Sync { element: 5 },
            Command::Sync { element: 6 },
        ]
    );
    assert_eq!(t.element_count(), 7);
    for (e, kind) in
        [(4, ElementKind::Convert), (5, ElementKind::Resample), (6, ElementKind::Constrain)]
    {
        assert_eq!(
            t.element(e),
            Some(Element { kind, parent: Some(0), state: RunState::Playing, slots: 0 })
        );
    }
    assert_eq!(t.element(MIXER).unwrap().slots, 2);
    assert_eq!(t.pad_count(), 12);
    assert_eq!(t.pad(4).unwrap().attachment, Attachment::Linked(5));
    assert_eq!(t.pad(5), Some(&pad(4, "sink", Direction::Sink, 4)));
    assert_eq!(t.pad(6), Some(&pad(4, "src", Direction::Src, 7)));
    assert_eq!(t.pad(7), Some(&pad(5, "sink", Direction::Sink, 6)));
    assert_eq!(t.pad(8), Some(&pad(5, "src", Direction::Src, 9)));
    assert_eq!(t.pad(9), Some(&pad(6, "sink", Direction::Sink, 8)));
    assert_eq!(t.pad(10), Some(&pad(6, "src", Direction::Src, 11)));
    assert_eq!(t.pad(11), Some(&pad(MIXER, "sink_1", Direction::Sink, 10)));
    let on_mixer = (0..t.pad_count()).filter(|k| t.pad(*k).unwrap().owner == MIXER).count();
    assert_eq!(on_mixer, 3);
}

#[test]
fn a_leg_that_is_in_the_mixer_takes_no_second_slot() {
    let (mut t, track) = playing_with_track();
    t.attach_decoder(track).unwrap();
    let leg = t.observe_pad(3, "src_0", Direction::Src, false).unwrap();
    t.lead_into_mixer(leg, MIXER).unwrap();
    assert_eq!(t.lead_into_mixer(leg, MIXER), Err(Fault::Occupied));
    assert_eq!(t.element(MIXER).unwrap().slots, 2);
    assert_eq!(t.pad_count(), 12);
    assert_eq!(t.element_count(), 7);
}

#[test]
fn every_track_gets_a_slot_of_its_own() {
    let (mut t, first) = playing_with_track();
    let second = t.observe_pad(INPUT, "audio_src_1", Direction::Src, false).unwrap();
    t.attach_decoder(first).unwrap();
    t.attach_decoder(second).unwrap();
    let leg_a = t.observe_pad(3, "src_0", Direction::Src, false).unwrap();
    let leg_b = t.observe_pad(4, "src_0", Direction::Src, false).unwrap();
    t.lead_into_mixer(leg_a, MIXER).unwrap();
    let slot_a = t.pad_count() - 1;
    t.lead_into_mixer(leg_b, MIXER).unwrap();
    let slot_b = t.pad_count() - 1;
    assert_eq!(t.pad(slot_a).unwrap().name, "sink_1");
    assert_eq!(t.pad(slot_b).unwrap().name, "sink_2");
    assert_eq!(t.pad(slot_a).unwrap().owner, MIXER);
    assert_eq!(t.pad(slot_b).unwrap().owner, MIXER);
    assert_eq!(t.element(MIXER).unwrap().slots, 3);
}

#[test]
fn a_leg_is_led_only_into_a_mixer_of_the_graph_level() {
    let (mut t, track) = playing_with_track();
    t.attach_decoder(track).unwrap();
    let leg = t.observe_pad(3, "src_0", Direction::Src, false).unwrap();
    assert_eq!(t.lead_into_mixer(9, MIXER), Err(Fault::UnknownPad));
    assert_eq!(t.lead_into_mixer(3, MIXER), Err(Fault::WrongDirection));
    assert_eq!(t.lead_into_mixer(track, MIXER), Err(Fault::Occupied));
    assert_eq!(t.lead_into_mixer(leg, 9), Err(Fault::UnknownElement));
    assert_eq!(t.lead_into_mixer(leg, INPUT), Err(Fault::NotAMixer));
    assert_eq!(t.element_count(), 4);
    assert_eq!(t.pad_count(), 5);
    assert!(t.lead_into_mixer(leg, MIXER).is_ok());
}

#[test]
fn the_plans_replay_on_a_copy_of_the_model() {
    let (mut t, track) = playing_with_track();
    let (mut copy, _) = playing_with_track();
    let plan = t.attach_decoder(track).unwrap();
    assert_eq!(copy.apply_all(&plan), Ok(()));
    let leg = t.observe_pad(3, "src_0", Direction::Src, false).unwrap();
    copy.observe_pad(3, "src_0", Direction::Src, false).unwrap();
    let plan = t.lead_into_mixer(leg, MIXER).unwrap();
    assert_eq!(copy.apply_all(&plan), Ok(()));
    assert_eq!(copy.pad_count(), t.pad_count());
    assert_eq!(copy.element_count(), t.element_count());
    for k in 0..t.pad_count() {
        assert_eq!(copy.pad(k), t.pad(k));
    }
    for e in 0..t.element_count() {
        assert_eq!(copy.element(e), t.element(e));
    }
}
