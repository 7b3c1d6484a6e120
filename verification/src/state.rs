//! Running states of elements and of the supervised graph.

use vstd::prelude::*;

verus! {

/// The running state of an element, as the media framework reports it.
#[derive(Clone, Copy, Debug, PartialEq, Eq, Structural)]
pub enum RunState {
    /// No state is pending; never the current state of a healthy element.
    VoidPending,
    Null,
    Ready,
    Paused,
    Playing,
}

/// The state of the supervised graph as the supervisor sees it.
#[derive(Clone, Copy, Debug, PartialEq, Eq, Structural)]
pub enum Lifecycle {
    Null,
    Ready,
    Paused,
    Playing,
    /// Terminal: teardown was requested and nothing is observed any more.
    ShuttingDown,
}

impl Lifecycle {
    /// The running state the graph is in, or is being driven to.
    pub open spec fn graph_state(self) -> RunState {
        match self {
            Lifecycle::Null => RunState::Null,
            Lifecycle::Ready => RunState::Ready,
            Lifecycle::Paused => RunState::Paused,
            Lifecycle::Playing => RunState::Playing,
            Lifecycle::ShuttingDown => RunState::Null,
        }
    }

    /// The lifecycle after the graph was seen to enter `current`.
    pub open spec fn after(self, current: RunState) -> Lifecycle {
        if self == Lifecycle::ShuttingDown {
            self
        } else {
            match current {
                RunState::VoidPending => self,
                RunState::Null => Lifecycle::Null,
                RunState::Ready => Lifecycle::Ready,
                RunState::Paused => Lifecycle::Paused,
                RunState::Playing => Lifecycle::Playing,
            }
        }
    }

    /// Computes [`Lifecycle::graph_state`].
    pub fn running_state(self) -> (state: RunState)
        ensures
            state == self.graph_state(),
    {
        match self {
            Lifecycle::Null => RunState::Null,
            Lifecycle::Ready => RunState::Ready,
            Lifecycle::Paused => RunState::Paused,
            Lifecycle::Playing => RunState::Playing,
            Lifecycle::ShuttingDown => RunState::Null,
        }
    }

    /// Computes [`Lifecycle::after`].
    pub fn observe(self, current: RunState) -> (next: Lifecycle)
        ensures
            next == self.after(current),
    {
        match self {
            Lifecycle::ShuttingDown => self,
            _ => match current {
                RunState::VoidPending => self,
                RunState::Null => Lifecycle::Null,
                RunState::Ready => Lifecycle::Ready,
                RunState::Paused => Lifecycle::Paused,
                RunState::Playing => Lifecycle::Playing,
            },
        }
    }
}

/// The name under which a running state is written.
pub open spec fn state_name(state: RunState) -> Seq<char> {
    match state {
        RunState::VoidPending => "VoidPending"@,
        RunState::Null => "Null"@,
        RunState::Ready => "Ready"@,
        RunState::Paused => "Paused"@,
        RunState::Playing => "Playing"@,
    }
}

/// Returns the name of a running state.
pub fn state_label(state: RunState) -> (name: &'static str)
    ensures
        name@ == state_name(state),
{
    match state {
        RunState::VoidPending => "VoidPending",
        RunState::Null => "Null",
        RunState::Ready => "Ready",
        RunState::Paused => "Paused",
        RunState::Playing => "Playing",
    }
}

} // verus!
