//! The settings of a run and the static description of the graph that is
//! built from them.

use crate::topology::ElementKind;
use vstd::prelude::*;
use vstd::string::StringExecFns;

verus! {

/// The settings of a run.
#[derive(Clone, Debug, PartialEq, Eq)]
pub struct Args {
    /// WHEP source url
    pub input_url: String,
    /// SRT output stream url
    pub output_url: String,
    /// Output debug .dot files
    pub dot_debug: bool,
}

/// The output that is used where none is given.
pub open spec fn default_output() -> Seq<char> {
    "srt://0.0.0.0:1234?mode=listener"@
}

/// What the description holds before the endpoint.
pub open spec fn launch_head() -> Seq<char> {
    "whepclientsrc name=input signaller::whep-endpoint=\""@
}

/// What the description holds between the endpoint and the output.
pub open spec fn launch_middle() -> Seq<char> {
    "\" audiotestsrc wave=silence is-live=true ! audio/x-raw,format=F32LE,rate=48000,channels=2 ! liveadder name=mixer ! avenc_aac ! aacparse ! mux. mpegtsmux name=mux alignment=7 ! queue ! srtsink uri=\""@
}

/// What the description holds after the output.
pub open spec fn launch_tail() -> Seq<char> {
    "\" sync=false wait-for-connection=false latency=100"@
}

/// The static description of the graph: the input named `input`, which
/// negotiates with `input_url`; a silence source in the fixed audio
/// format; the mixer named `mixer`; an encoder, a multiplexer and the sink
/// that serves `output_url`.
pub open spec fn launch_text(input_url: Seq<char>, output_url: Seq<char>) -> Seq<char> {
    launch_head() + input_url + launch_middle() + output_url + launch_tail()
}

/// The format that the constrain stage fixes.
pub open spec fn fixed_format() -> Seq<char> {
    "audio/x-raw,format=F32LE,rate=48000"@
}

/// The name of the factory that creates elements of `kind`, for the kinds
/// that are created at run time.
pub open spec fn factory_of(kind: ElementKind) -> Option<Seq<char>> {
    match kind {
        ElementKind::Decode => Some("decodebin"@),
        ElementKind::Convert => Some("audioconvert"@),
        ElementKind::Resample => Some("audioresample"@),
        ElementKind::Constrain => Some("capsfilter"@),
        ElementKind::Discard => Some("fakesink"@),
        _ => None,
    }
}

impl Args {
    /// The settings for `input_url` with the default output and without
    /// dumps.
    pub fn new(input_url: String) -> (args: Args)
        ensures
            args.input_url == input_url,
            args.output_url@ == default_output(),
            !args.dot_debug,
    {
        Args {
            input_url,
            output_url: String::from_str("srt://0.0.0.0:1234?mode=listener"),
            dot_debug: false,
        }
    }
}

/// Writes the static description of the graph for `args`.
pub fn launch_description(args: &Args) -> (text: String)
    ensures
        text@ == launch_text(args.input_url@, args.output_url@),
{
    let mut text = String::from_str("whepclientsrc name=input signaller::whep-endpoint=\"");
    text.append(args.input_url.as_str());
    text.append(
        "\" audiotestsrc wave=silence is-live=true ! audio/x-raw,format=F32LE,rate=48000,channels=2 ! liveadder name=mixer ! avenc_aac ! aacparse ! mux. mpegtsmux name=mux alignment=7 ! queue ! srtsink uri=\"",
    );
    text.append(args.output_url.as_str());
    text.append("\" sync=false wait-for-connection=false latency=100");
    text
}

/// Returns the name of the factory that creates elements of `kind`.
pub fn factory_name(kind: ElementKind) -> (name: Option<&'static str>)
    ensures
        match factory_of(kind) {
            Some(text) => name is Some && name->0@ == text,
            None => name is None,
        },
{
    match kind {
        ElementKind::Decode => Some("decodebin"),
        ElementKind::Convert => Some("audioconvert"),
        ElementKind::Resample => Some("audioresample"),
        ElementKind::Constrain => Some("capsfilter"),
        ElementKind::Discard => Some("fakesink"),
        _ => None,
    }
}

/// Returns the format that a constrain stage is set to.
pub fn fixed_audio_format() -> (caps: &'static str)
    ensures
        caps@ == fixed_format(),
{
    "audio/x-raw,format=F32LE,rate=48000"
}

} // verus!
