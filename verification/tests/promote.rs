use whep_srt::command::Command;
use whep_srt::promote::ghost_pad_name;
use whep_srt::topology::{Attachment, Direction, ElementKind, Fault, Pad, Topology, INPUT};

fn expose(container: usize, name: &str, target: usize, pad: usize) -> Command {
    Command::Expose { container, name: String::from(name), target, pad }
}

/// A topology with `depth` containers nested inside the input container
/// and the negotiating element in the innermost; returns its index.
fn nested(depth: usize) -> (Topology, usize) {
    let mut t = Topology::new();
    let mut parent = INPUT;
    for _ in 0..depth {
        parent = t.observe_element(parent, ElementKind::Container).unwrap();
    }
    let webrtc = t.observe_element(parent, ElementKind::WebRtc).unwrap();
    (t, webrtc)
}

#[test]
fn ghost_pads_are_named_after_media_and_pad() {
    assert_eq!(ghost_pad_name("audio", "src_1"), "audio_src_1");
    assert_eq!(ghost_pad_name("video", "src_0"), "video_src_0");
    assert_eq!(ghost_pad_name("", ""), "_");
    assert_eq!(ghost_pad_name("a_b", "c"), "a_b_c");
}

#[test]
fn the_containers_around_an_element_are_listed_from_the_inside() {
    let (t, webrtc) = nested(2);
    assert_eq!(webrtc, 5);
    assert_eq!(t.levels_above(webrtc), vec![4, 3, 1]);
    assert_eq!(t.levels_above(4), vec![3, 1]);
    assert_eq!(t.levels_above(INPUT), Vec::<usize>::new());
    assert_eq!(t.levels_above(0), Vec::<usize>::new());
}

#[test]
fn one_level_takes_one_ghost_pad() {
    let (mut t, webrtc) = nested(0);
    let pad = t.observe_pad(webrtc, "src_1", Direction::Src, false).unwrap();
    assert_eq!(pad, 2);
    assert_eq!(t.promote(pad, "audio"), Ok(vec![expose(INPUT, "audio_src_1", 2, 3)]));
    assert_eq!(t.pad_count(), 4);
    assert_eq!(t.pad(2).unwrap().attachment, Attachment::Exposed(3));
    assert_eq!(
        t.pad(3),
        Some(&Pad {
            owner: INPUT,
            name: String::from("audio_src_1"),
            direction: Direction::Src,
            attachment: Attachment::Free,
            target: Some(2),
        })
    );
    assert_eq!(t.level(3), Some(0));
}

#[test]
fn two_levels_take_a_chain_of_two_ghost_pads() {
    let (mut t, webrtc) = nested(1);
    let pad = t.observe_pad(webrtc, "src_1", Direction::Src, false).unwrap();
    assert_eq!(
        t.promote(pad, "audio"),
        Ok(vec![expose(3, "audio_src_1", 2, 3), expose(INPUT, "audio_src_1", 3, 4)])
    );
    assert_eq!(t.pad(2).unwrap().attachment, Attachment::Exposed(3));
    assert_eq!(t.pad(3).unwrap().attachment, Attachment::Exposed(4));
    assert_eq!(t.pad(3).unwrap().owner, 3);
    assert_eq!(t.pad(3).unwrap().target, Some(2));
    assert_eq!(t.pad(4).unwrap().attachment, Attachment::Free);
    assert_eq!(t.pad(4).unwrap().owner, INPUT);
    assert_eq!(t.pad(4).unwrap().target, Some(3));
    assert_eq!(t.level(4), Some(0));
}

#[test]
fn deeper_nesting_is_walked_to_the_graph_level() {
    let (mut t, webrtc) = nested(3);
    let pad = t.observe_pad(webrtc, "src_9", Direction::Src, false).unwrap();
    let plan = t.promote(pad, "video").unwrap();
    assert_eq!(
        plan,
        vec![
            expose(5, "video_src_9", 2, 3),
            expose(4, "video_src_9", 3, 4),
            expose(3, "video_src_9", 4, 5),
            expose(INPUT, "video_src_9", 5, 6),
        ]
    );
    assert_eq!(t.pad_count(), 7);
    for k in 2..6 {
        assert_eq!(t.pad(k).unwrap().attachment, Attachment::Exposed(k + 1));
    }
    assert_eq!(t.pad(6).unwrap().attachment, Attachment::Free);
    assert_eq!(t.level(6), Some(0));
}

#[test]
fn the_plan_replays_on_a_copy_of_the_model() {
    let (mut t, webrtc) = nested(1);
    let (mut copy, _) = nested(1);
    let pad = t.observe_pad(webrtc, "src_1", Direction::Src, false).unwrap();
    copy.observe_pad(webrtc, "src_1", Direction::Src, false).unwrap();
    let plan = t.promote(pad, "audio").unwrap();
    assert_eq!(copy.apply_all(&plan), Ok(()));
    for k in 0..t.pad_count() {
        assert_eq!(copy.pad(k), t.pad(k));
    }
    assert_eq!(copy.pad_count(), t.pad_count());
}

#[test]
fn a_promoted_pad_is_not_promoted_again() {
    let (mut t, webrtc) = nested(1);
    let pad = t.observe_pad(webrtc, "src_1", Direction::Src, false).unwrap();
    t.promote(pad, "audio").unwrap();
    assert_eq!(t.promote(pad, "audio"), Err(Fault::Occupied));
    assert_eq!(t.promote(pad, "video"), Err(Fault::Occupied));
    assert_eq!(t.pad_count(), 5);
}

#[test]
fn pads_that_cannot_be_promoted_are_refused_and_nothing_changes() {
    let (mut t, webrtc) = nested(1);
    assert_eq!(t.promote(9, "audio"), Err(Fault::UnknownPad));
    let linked = t.observe_pad(webrtc, "src_0", Direction::Src, true).unwrap();
    assert_eq!(t.promote(linked, "audio"), Err(Fault::Occupied));
    let top = t.observe_pad(INPUT, "src_0", Direction::Src, false).unwrap();
    assert_eq!(t.promote(top, "audio"), Err(Fault::NotNested));
    assert_eq!(t.promote(0, "audio"), Err(Fault::Occupied));
    let free = t.observe_pad(webrtc, "src_1", Direction::Src, false).unwrap();
    t.observe_pad(INPUT, "audio_src_1", Direction::Src, false).unwrap();
    let before = t.pad_count();
    assert_eq!(t.promote(free, "audio"), Err(Fault::NameTaken));
    assert_eq!(t.pad_count(), before);
    assert_eq!(t.pad(free).unwrap().attachment, Attachment::Free);
    assert!(t.promote(free, "video").is_ok());
}

fn names_after_promoting(tracks: usize) -> Vec<String> {
    let (mut t, webrtc) = nested(1);
    let mut names = Vec::new();
    for i in 0..tracks {
        let media = if i % 2 == 0 { "audio" } else { "video" };
        let pad = t.observe_pad(webrtc, &format!("src_{}", i), Direction::Src, false).unwrap();
        let plan = t.promote(pad, media).unwrap();
        assert_eq!(plan.len(), 2);
        let top = t.pad_count() - 1;
        assert_eq!(t.pad(top).unwrap().owner, INPUT);
        names.push(t.pad(top).unwrap().name.clone());
    }
    names
}

fn all_different(names: &[String]) -> bool {
    for i in 0..names.len() {
        for j in 0..i {
            if names[i] == names[j] {
                return false;
            }
        }
    }
    true
}

#[test]
fn one_track_gets_one_name() {
    let names = names_after_promoting(1);
    assert_eq!(names, vec![String::from("audio_src_0")]);
    assert_eq!(names_after_promoting(1), names);
}

#[test]
fn two_tracks_get_two_names() {
    let names = names_after_promoting(2);
    assert_eq!(names, vec![String::from("audio_src_0"), String::from("video_src_1")]);
    assert!(all_different(&names));
    assert_eq!(names_after_promoting(2), names);
}

#[test]
fn five_tracks_get_five_names() {
    let names = names_after_promoting(5);
    assert_eq!(names.len(), 5);
    assert!(all_different(&names));
    assert_eq!(names[4], "audio_src_4");
    assert_eq!(names_after_promoting(5), names);
}

#[test]
fn tracks_of_one_kind_get_different_names() {
    let (mut t, webrtc) = nested(0);
    let a = t.observe_pad(webrtc, "src_0", Direction::Src, false).unwrap();
    let b = t.observe_pad(webrtc, "src_1", Direction::Src, false).unwrap();
    t.promote(a, "audio").unwrap();
    t.promote(b, "audio").unwrap();
    assert_eq!(t.pad(4).unwrap().name, "audio_src_0");
    assert_eq!(t.pad(5).unwrap().name, "audio_src_1");
}
