use whep_srt::diagnostics::{dot_file_name, dot_file_stem, label_name};
use whep_srt::launch::{factory_name, fixed_audio_format, launch_description, Args};
use whep_srt::state::RunState;
use whep_srt::supervisor::DumpLabel;
use whep_srt::topology::ElementKind;

#[test]
fn settings_default_to_the_listener_output() {
    let args = Args::new(String::from("https://example.org/whep"));
    assert_eq!(
        args,
        Args {
            input_url: String::from("https://example.org/whep"),
            output_url: String::from("srt://0.0.0.0:1234?mode=listener"),
            dot_debug: false,
        }
    );
}

#[test]
fn the_description_declares_the_static_graph() {
    let args = Args {
        input_url: String::from("http://localhost:8889/stream/whep"),
        output_url: String::from("srt://0.0.0.0:1234?mode=listener"),
        dot_debug: false,
    };
    assert_eq!(
        launch_description(&args),
        "whepclientsrc name=input signaller::whep-endpoint=\"http://localhost:8889/stream/whep\" \
         audiotestsrc wave=silence is-live=true ! audio/x-raw,format=F32LE,rate=48000,channels=2 ! \
         liveadder name=mixer ! avenc_aac ! aacparse ! mux. \
         mpegtsmux name=mux alignment=7 ! queue ! \
         srtsink uri=\"srt://0.0.0.0:1234?mode=listener\" sync=false wait-for-connection=false latency=100"
    );
}

#[test]
fn the_description_takes_the_urls_as_they_are() {
    let args = Args { input_url: String::new(), output_url: String::from("x y"), dot_debug: true };
    let text = launch_description(&args);
    assert!(text.starts_with("whepclientsrc name=input signaller::whep-endpoint=\"\" audiotestsrc"));
    assert!(text.ends_with("srtsink uri=\"x y\" sync=false wait-for-connection=false latency=100"));
}

#[test]
fn run_time_elements_have_their_factories() {
    assert_eq!(factory_name(ElementKind::Decode), Some("decodebin"));
    assert_eq!(factory_name(ElementKind::Convert), Some("audioconvert"));
    assert_eq!(factory_name(ElementKind::Resample), Some("audioresample"));
    assert_eq!(factory_name(ElementKind::Constrain), Some("capsfilter"));
    assert_eq!(factory_name(ElementKind::Discard), Some("fakesink"));
    assert_eq!(factory_name(ElementKind::Graph), None);
    assert_eq!(factory_name(ElementKind::Container), None);
    assert_eq!(factory_name(ElementKind::WebRtc), None);
    assert_eq!(factory_name(ElementKind::Mixer), None);
    assert_eq!(factory_name(ElementKind::Other), None);
}

#[test]
fn the_fixed_format_is_float_at_48_khz() {
    assert_eq!(fixed_audio_format(), "audio/x-raw,format=F32LE,rate=48000");
}

#[test]
fn dumps_are_named_by_time_and_label() {
    assert_eq!(dot_file_stem(1700000000, DumpLabel::State(RunState::Playing)), "1700000000-Playing");
    assert_eq!(dot_file_stem(0, DumpLabel::Error), "0-error");
    assert_eq!(dot_file_stem(9, DumpLabel::State(RunState::Null)), "9-Null");
    assert_eq!(
        dot_file_stem(u64::MAX, DumpLabel::State(RunState::VoidPending)),
        "18446744073709551615-VoidPending"
    );
    assert_eq!(dot_file_name(1700000000, DumpLabel::State(RunState::Ready)), "1700000000-Ready.dot");
    assert_eq!(dot_file_name(12, DumpLabel::Error), "12-error.dot");
    assert_eq!(dot_file_name(12, DumpLabel::State(RunState::Paused)), "12-Paused.dot");
}

#[test]
fn labels_have_their_names() {
    assert_eq!(label_name(DumpLabel::Error), "error");
    assert_eq!(label_name(DumpLabel::State(RunState::Playing)), "Playing");
}
