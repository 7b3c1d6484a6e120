//! Supervision of the graph's lifecycle: start-up, the notification loop
//! and teardown.

use crate::state::{Lifecycle, RunState};
use crate::text::{joined, occurs_in, push_joined, text_contains, texts};
use vstd::prelude::*;
use vstd::string::StringExecFns;

verus! {

/// A notification taken from the graph's bus.
#[derive(Clone, Debug, PartialEq, Eq)]
pub enum Message {
    /// An element went from `old` to `current`; `source_type` is the type
    /// name of the element that changed.
    StateChanged { source_type: String, old: RunState, current: RunState },
    /// The stream ended.
    Eos,
    /// An element failed; `source` is its path in the graph.
    Error { source: Option<String>, message: String, debug: Option<String> },
    /// Any other notification.
    Other,
}

/// Why the notification loop ends, and why teardown is requested.
#[derive(Clone, Copy, Debug, PartialEq, Eq, Structural)]
pub enum StopReason {
    EndOfStream,
    Error,
    /// An external termination signal arrived.
    Interrupt,
}

/// What a diagnostic dump of the topology is labelled with.
#[derive(Clone, Copy, Debug, PartialEq, Eq, Structural)]
pub enum DumpLabel {
    State(RunState),
    Error,
}

/// What the supervisor decides on one notification.
#[derive(Clone, Copy, Debug, PartialEq, Eq, Structural)]
pub struct Verdict {
    /// `Some` when the notification reports that the graph itself entered
    /// this state.
    pub entered: Option<RunState>,
    /// `Some` when the loop must end with this notification.
    pub stop: Option<StopReason>,
    /// `Some` when the topology should be dumped under this label.
    pub dump: Option<DumpLabel>,
}

/// What became of a run of the notification loop.
#[derive(Clone, Debug, PartialEq, Eq)]
pub struct RunReport {
    /// How many notifications were taken from the front of the stream.
    pub consumed: usize,
    /// The reason the loop ended, `None` if the stream ran dry first.
    pub stop: Option<StopReason>,
    /// The dumps that were asked for, in the order of their notifications.
    pub dumps: Vec<DumpLabel>,
}

/// What the parser of the static graph description answered.
#[derive(Clone, Debug, PartialEq, Eq)]
pub enum LaunchOutcome {
    /// The graph was built.
    Built,
    /// The description names element types that do not exist.
    MissingElements(Vec<String>),
    /// The description could not be parsed for another reason.
    Malformed(String),
}

/// Why the graph was not started.
#[derive(Clone, Debug, PartialEq, Eq)]
pub enum StartError {
    /// The description names these unknown element types.
    MissingElements(Vec<String>),
    /// The description could not be parsed.
    Malformed(String),
    /// The supervisor has left its initial state already.
    AlreadyStarted,
}

/// The teardown that the caller has to perform.
#[derive(Clone, Copy, Debug, PartialEq, Eq, Structural)]
pub struct ShutdownPlan {
    /// The state to drive the graph to.
    pub target: RunState,
    /// How long to wait for teardown in flight, in seconds.
    pub grace_secs: u64,
    /// The exit status of the process.
    pub exit_code: i32,
}

/// The fixed grace period of a teardown, in seconds.
pub const GRACE_SECS: u64 = 1;

/// The exit status after a failed start.
pub const LAUNCH_FAILURE_CODE: i32 = -1;

/// The exit status after a fatal error notification.
pub const RUNTIME_FAILURE_CODE: i32 = 1;

/// The type name by which the top-level graph is recognised.
pub open spec fn graph_type_marker() -> Seq<char> {
    "GstPipeline"@
}

/// Whether a type name is that of the top-level graph.
pub open spec fn is_graph_type_name(kind_name: Seq<char>) -> bool {
    occurs_in(graph_type_marker(), kind_name)
}

/// Whether `msg` reports a state change of the top-level graph.
pub open spec fn concerns_graph(msg: Message) -> bool {
    msg matches Message::StateChanged { source_type, .. } && is_graph_type_name(source_type@)
}

/// The lifecycle after `msg` was seen in `state`.
pub open spec fn observed(state: Lifecycle, msg: Message) -> Lifecycle {
    if concerns_graph(msg) {
        state.after(msg->current)
    } else {
        state
    }
}

/// The state that `msg` reports the graph itself to have entered, if it
/// reports that.
pub open spec fn entered_state(msg: Message) -> Option<RunState> {
    if concerns_graph(msg) {
        Some(msg->current)
    } else {
        None
    }
}

/// The reason for which `msg` ends the loop, if it does.
pub open spec fn stop_reason(msg: Message) -> Option<StopReason> {
    match msg {
        Message::Eos => Some(StopReason::EndOfStream),
        Message::Error { .. } => Some(StopReason::Error),
        _ => None,
    }
}

/// The dump that `msg` asks for, if any.
pub open spec fn dump_label(diagnostics: bool, msg: Message) -> Option<DumpLabel> {
    if !diagnostics {
        None
    } else if concerns_graph(msg) {
        Some(DumpLabel::State(msg->current))
    } else if msg is Error {
        Some(DumpLabel::Error)
    } else {
        None
    }
}

/// No notification of `msgs` ends the loop.
pub open spec fn quiet(msgs: Seq<Message>) -> bool {
    forall|i: int| 0 <= i < msgs.len() ==> stop_reason(#[trigger] msgs[i]) is None
}

/// How many notifications the loop takes from the front of `msgs`: all up
/// to and including the first that ends it.
pub open spec fn consumed(msgs: Seq<Message>) -> nat
    decreases msgs.len(),
{
    if msgs.len() == 0 {
        0
    } else if stop_reason(msgs[0]) is Some {
        1
    } else {
        1 + consumed(msgs.drop_first())
    }
}

/// The reason for which the loop ends on `msgs`, `None` if it runs dry.
pub open spec fn stop_of(msgs: Seq<Message>) -> Option<StopReason> {
    if consumed(msgs) == 0 {
        None
    } else {
        stop_reason(msgs[consumed(msgs) - 1])
    }
}

/// The lifecycle after every notification of `msgs` was seen in turn.
pub open spec fn replayed(state: Lifecycle, msgs: Seq<Message>) -> Lifecycle
    decreases msgs.len(),
{
    if msgs.len() == 0 {
        state
    } else {
        observed(replayed(state, msgs.drop_last()), msgs.last())
    }
}

/// The dumps that the notifications of `msgs` ask for, in order.
pub open spec fn dumps_of(diagnostics: bool, msgs: Seq<Message>) -> Seq<DumpLabel>
    decreases msgs.len(),
{
    if msgs.len() == 0 {
        Seq::empty()
    } else {
        let before = dumps_of(diagnostics, msgs.drop_last());
        match dump_label(diagnostics, msgs.last()) {
            Some(label) => before.push(label),
            None => before,
        }
    }
}

/// The exit status that goes with a reason for teardown.
pub open spec fn exit_code_of(reason: StopReason) -> i32 {
    match reason {
        StopReason::EndOfStream => 0,
        StopReason::Error => RUNTIME_FAILURE_CODE,
        StopReason::Interrupt => 0,
    }
}

/// The teardown that goes with a reason.
pub open spec fn plan_of(reason: StopReason) -> ShutdownPlan {
    ShutdownPlan { target: RunState::Null, grace_secs: GRACE_SECS, exit_code: exit_code_of(reason) }
}

/// A quiet prefix followed by a notification that ends the loop is
/// consumed whole, and nothing after it.
pub proof fn lemma_consumed_at_first_stop(msgs: Seq<Message>, i: int)
    requires
        0 <= i < msgs.len(),
        quiet(msgs.take(i)),
        stop_reason(msgs[i]) is Some,
    ensures
        consumed(msgs) == i + 1,
        stop_of(msgs) == stop_reason(msgs[i]),
    decreases i,
{
    if i > 0 {
        let rest = msgs.drop_first();
        assert(msgs.take(i)[0] == msgs[0]);
        assert forall|k: int| 0 <= k < rest.take(i - 1).len() implies stop_reason(
            #[trigger] rest.take(i - 1)[k],
        ) is None by {
            assert(rest.take(i - 1)[k] == msgs.take(i)[k + 1]);
        }
        assert(rest[i - 1] == msgs[i]);
        lemma_consumed_at_first_stop(rest, i - 1);
    }
}

/// A stream without a notification that ends the loop is consumed whole.
pub proof fn lemma_consumed_when_quiet(msgs: Seq<Message>)
    requires
        quiet(msgs),
    ensures
        consumed(msgs) == msgs.len(),
        stop_of(msgs) is None,
    decreases msgs.len(),
{
    if msgs.len() > 0 {
        let rest = msgs.drop_first();
        assert(stop_reason(msgs[0]) is None);
        assert forall|k: int| 0 <= k < rest.len() implies stop_reason(#[trigger] rest[k]) is None by {
            assert(rest[k] == msgs[k + 1]);
        }
        lemma_consumed_when_quiet(rest);
        assert(msgs[consumed(msgs) - 1] == msgs[msgs.len() - 1]);
    }
}

/// An error notification ends the loop at once: it is consumed with the
/// quiet notifications before it, and nothing after it is. The teardown
/// that follows drives the graph to `Null`, waits the fixed grace period
/// and ends in a failure status; after it no notification changes the
/// lifecycle any more.
pub proof fn lemma_error_ends_the_run(msgs: Seq<Message>, i: int, later: RunState)
    requires
        0 <= i < msgs.len(),
        quiet(msgs.take(i)),
        msgs[i] is Error,
    ensures
        consumed(msgs) == i + 1,
        stop_of(msgs) == Some(StopReason::Error),
        plan_of(StopReason::Error).target == RunState::Null,
        plan_of(StopReason::Error).grace_secs == GRACE_SECS,
        plan_of(StopReason::Error).exit_code != 0,
        Lifecycle::ShuttingDown.graph_state() == RunState::Null,
        Lifecycle::ShuttingDown.after(later) == Lifecycle::ShuttingDown,
{
    lemma_consumed_at_first_stop(msgs, i);
}

/// Decides whether a type name is that of the top-level graph.
pub fn is_graph_type(kind_name: &str) -> (yes: bool)
    ensures
        yes == is_graph_type_name(kind_name@),
{
    text_contains(kind_name, "GstPipeline")
}

/// The supervisor of one graph.
#[derive(Debug)]
pub struct Supervisor {
    state: Lifecycle,
    diagnostics: bool,
}

/// What a supervisor holds.
pub struct SupervisorView {
    pub state: Lifecycle,
    pub diagnostics: bool,
}

impl View for Supervisor {
    type V = SupervisorView;

    closed spec fn view(&self) -> SupervisorView {
        SupervisorView { state: self.state, diagnostics: self.diagnostics }
    }
}

impl Supervisor {
    /// A supervisor of a graph that has not been started.
    pub fn new(diagnostics: bool) -> (s: Supervisor)
        ensures
            s@ == (SupervisorView { state: Lifecycle::Null, diagnostics }),
    {
        Supervisor { state: Lifecycle::Null, diagnostics }
    }

    /// The lifecycle state.
    pub fn state(&self) -> (state: Lifecycle)
        ensures
            state == self@.state,
    {
        self.state
    }

    /// Whether dumps of the topology are asked for.
    pub fn diagnostics(&self) -> (on: bool)
        ensures
            on == self@.diagnostics,
    {
        self.diagnostics
    }

    /// Decides the start from what the parser answered. A graph that was
    /// built is driven to the returned state, which is `Playing`; in every
    /// other case the lifecycle stays where it was and the error says why,
    /// naming the missing element types where that was the cause.
    pub fn start(&mut self, launch: LaunchOutcome) -> (r: Result<RunState, StartError>)
        ensures
            final(self)@.diagnostics == old(self)@.diagnostics,
            old(self)@.state != Lifecycle::Null ==> r == Err::<RunState, StartError>(
                StartError::AlreadyStarted,
            ),
            old(self)@.state == Lifecycle::Null ==> match launch {
                LaunchOutcome::Built => r == Ok::<RunState, StartError>(RunState::Playing),
                LaunchOutcome::MissingElements(names) => r == Err::<RunState, StartError>(
                    StartError::MissingElements(names),
                ),
                LaunchOutcome::Malformed(reason) => r == Err::<RunState, StartError>(
                    StartError::Malformed(reason),
                ),
            },
            r is Ok ==> final(self)@.state == Lifecycle::Playing,
            r is Err ==> final(self)@.state == old(self)@.state,
    {
        match self.state {
            Lifecycle::Null => match launch {
                LaunchOutcome::Built => {
                    self.state = Lifecycle::Playing;
                    Ok(RunState::Playing)
                },
                LaunchOutcome::MissingElements(names) => Err(StartError::MissingElements(names)),
                LaunchOutcome::Malformed(reason) => Err(StartError::Malformed(reason)),
            },
            _ => Err(StartError::AlreadyStarted),
        }
    }

    /// Takes one notification: follows the graph's state, and says whether
    /// the loop ends here and whether the topology should be dumped.
    pub fn on_message(&mut self, msg: &Message) -> (verdict: Verdict)
        ensures
            final(self)@.state == observed(old(self)@.state, *msg),
            final(self)@.diagnostics == old(self)@.diagnostics,
            verdict.entered == entered_state(*msg),
            verdict.stop == stop_reason(*msg),
            verdict.dump == dump_label(old(self)@.diagnostics, *msg),
    {
        match msg {
            Message::StateChanged { source_type, old: _, current } => {
                if is_graph_type(source_type.as_str()) {
                    self.state = self.state.observe(*current);
                    let dump = if self.diagnostics {
                        Some(DumpLabel::State(*current))
                    } else {
                        None
                    };
                    Verdict { entered: Some(*current), stop: None, dump }
                } else {
                    Verdict { entered: None, stop: None, dump: None }
                }
            },
            Message::Eos => Verdict {
                entered: None,
                stop: Some(StopReason::EndOfStream),
                dump: None,
            },
            Message::Error { .. } => {
                let dump = if self.diagnostics {
                    Some(DumpLabel::Error)
                } else {
                    None
                };
                Verdict { entered: None, stop: Some(StopReason::Error), dump }
            },
            Message::Other => Verdict { entered: None, stop: None, dump: None },
        }
    }

    /// Takes notifications in their order until one ends the loop or none
    /// is left. Nothing after the first end-of-stream or error is looked at.
    pub fn run_until_terminal(&mut self, messages: &Vec<Message>) -> (report: RunReport)
        ensures
            report.consumed == consumed(messages@),
            report.stop == stop_of(messages@),
            report.dumps@ == dumps_of(
                old(self)@.diagnostics,
                messages@.take(consumed(messages@) as int),
            ),
            final(self)@.state == replayed(
                old(self)@.state,
                messages@.take(consumed(messages@) as int),
            ),
            final(self)@.diagnostics == old(self)@.diagnostics,
    {
        let mut dumps: Vec<DumpLabel> = Vec::new();
        let mut i: usize = 0;
        let mut stop: Option<StopReason> = None;
        while i < messages.len() && stop.is_none()
            invariant
                i <= messages.len(),
                self@.diagnostics == old(self)@.diagnostics,
                self@.state == replayed(old(self)@.state, messages@.take(i as int)),
                dumps@ == dumps_of(old(self)@.diagnostics, messages@.take(i as int)),
                stop is None ==> quiet(messages@.take(i as int)),
                stop is Some ==> i >= 1 && quiet(messages@.take(i - 1)) && stop == stop_reason(
                    messages@[i - 1],
                ),
            decreases messages.len() - i,
        {
            let ghost seen = messages@.take(i as int);
            let ghost next = messages@.take(i + 1);
            proof {
                assert(next.drop_last() =~= seen);
                assert(next.last() == messages@[i as int]);
            }
            let verdict = self.on_message(&messages[i]);
            match verdict.dump {
                Some(label) => {
                    dumps.push(label);
                },
                None => {},
            }
            stop = verdict.stop;
            i += 1;
            proof {
                if stop is None {
                    assert forall|k: int| 0 <= k < next.len() implies stop_reason(
                        #[trigger] next[k],
                    ) is None by {
                        if k < seen.len() {
                            assert(next[k] == seen[k]);
                        }
                    }
                }
            }
        }
        proof {
            if stop is Some {
                lemma_consumed_at_first_stop(messages@, i - 1);
            } else {
                assert(messages@.take(i as int) =~= messages@);
                lemma_consumed_when_quiet(messages@);
            }
        }
        RunReport { consumed: i, stop, dumps }
    }

    /// Requests teardown: the graph is to be driven to `Null`, the caller
    /// waits the grace period and exits with the status that goes with
    /// `reason`. Asking again changes nothing.
    pub fn shutdown(&mut self, reason: StopReason) -> (plan: ShutdownPlan)
        ensures
            final(self)@.state == Lifecycle::ShuttingDown,
            final(self)@.diagnostics == old(self)@.diagnostics,
            plan == plan_of(reason),
    {
        self.state = Lifecycle::ShuttingDown;
        let exit_code: i32 = match reason {
            StopReason::EndOfStream => 0,
            StopReason::Error => RUNTIME_FAILURE_CODE,
            StopReason::Interrupt => 0,
        };
        ShutdownPlan { target: RunState::Null, grace_secs: GRACE_SECS, exit_code }
    }
}

/// The text of a start error.
pub open spec fn start_error_text(e: StartError) -> Seq<char> {
    match e {
        StartError::MissingElements(names) => "Missing element(s): "@ + joined(
            texts(names@),
            ", "@,
        ),
        StartError::Malformed(reason) => "Failed to parse pipeline: "@ + reason@,
        StartError::AlreadyStarted => "The pipeline was started before"@,
    }
}

impl StartError {
    /// Says what went wrong, with the names of the missing element types
    /// where that was the cause.
    pub fn message(&self) -> (text: String)
        ensures
            text@ == start_error_text(*self),
    {
        match self {
            StartError::MissingElements(names) => {
                let mut text = String::from_str("Missing element(s): ");
                push_joined(&mut text, names, ", ");
                text
            },
            StartError::Malformed(reason) => {
                let mut text = String::from_str("Failed to parse pipeline: ");
                text.append(reason.as_str());
                text
            },
            StartError::AlreadyStarted => String::from_str("The pipeline was started before"),
        }
    }

    /// The exit status of a process that could not start its graph.
    pub fn exit_code(&self) -> (code: i32)
        ensures
            code == LAUNCH_FAILURE_CODE,
    {
        LAUNCH_FAILURE_CODE
    }
}

} // verus!
