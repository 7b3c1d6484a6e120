use whep_srt::media::{classify, describe_track, ClassifyError, MediaKind, TrackDescriptor};
use whep_srt::text::{push_decimal, push_joined, same_text};

#[test]
fn audio_and_video_are_told_apart() {
    assert_eq!(classify("audio"), MediaKind::Audio);
    assert_eq!(classify("video"), MediaKind::Video);
    assert_eq!(classify("application"), MediaKind::Other);
    assert_eq!(classify(""), MediaKind::Other);
    assert_eq!(classify("Audio"), MediaKind::Other);
    assert_eq!(classify("audio "), MediaKind::Other);
    assert_eq!(classify("vide"), MediaKind::Other);
}

#[test]
fn a_negotiated_pad_is_described() {
    assert_eq!(
        describe_track(Some("audio")),
        Ok(TrackDescriptor { kind: MediaKind::Audio, media: String::from("audio") })
    );
    assert_eq!(
        describe_track(Some("text")),
        Ok(TrackDescriptor { kind: MediaKind::Other, media: String::from("text") })
    );
}

#[test]
fn a_pad_without_parameters_is_not_classified() {
    assert_eq!(describe_track(None), Err(ClassifyError::NotNegotiated));
}

#[test]
fn texts_are_compared_by_their_characters() {
    assert!(same_text("", ""));
    assert!(same_text("src_0", "src_0"));
    assert!(!same_text("src_0", "src_1"));
    assert!(!same_text("src_0", "src_"));
    assert!(!same_text("", "a"));
    assert!(same_text("größe", "größe"));
    assert!(!same_text("größe", "grösse"));
}

#[test]
fn numbers_are_written_in_decimal() {
    for (n, text) in [
        (0u64, "0"),
        (7, "7"),
        (9, "9"),
        (10, "10"),
        (11, "11"),
        (99, "99"),
        (100, "100"),
        (1234567890, "1234567890"),
        (u64::MAX, "18446744073709551615"),
    ] {
        let mut out = String::new();
        push_decimal(&mut out, n);
        assert_eq!(out, text);
        assert_eq!(out, format!("{}", n));
    }
}

#[test]
fn decimal_is_appended_to_what_is_there() {
    let mut out = String::from("sink_");
    push_decimal(&mut out, 42);
    assert_eq!(out, "sink_42");
}

#[test]
fn parts_are_joined_with_the_separator_between_them() {
    let mut out = String::from(">");
    push_joined(&mut out, &vec![], ", ");
    assert_eq!(out, ">");
    push_joined(&mut out, &vec![String::from("a")], ", ");
    assert_eq!(out, ">a");
    let mut out = String::new();
    push_joined(&mut out, &vec![String::from("a"), String::from("b"), String::from("")], ", ");
    assert_eq!(out, "a, b, ");
}
