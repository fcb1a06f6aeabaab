//! The request state machine's states and their classification.

use vstd::prelude::*;

verus! {

/// State of one tracked request.
///
/// `Init`, `Sending` and `Receiving` are active; `Complete`, `Error`,
/// `Timeout` and `Cancelled` are terminal but still visible to pollers;
/// `Idle` and `Acknowledged` are post-terminal and eligible for reclamation.
#[derive(Debug, Clone, Copy, PartialEq, Eq, Structural)]
pub enum RequestState {
    Init,
    Sending,
    Receiving,
    Complete,
    Error,
    Timeout,
    Cancelled,
    Idle,
    Acknowledged,
}

/// The request is still in progress: no outcome has been decided.
pub open spec fn is_active(s: RequestState) -> bool {
    s == RequestState::Init || s == RequestState::Sending || s == RequestState::Receiving
}

/// The request has an outcome and awaits acknowledgment or reclamation.
pub open spec fn is_terminal(s: RequestState) -> bool {
    s == RequestState::Complete || s == RequestState::Error || s == RequestState::Timeout
        || s == RequestState::Cancelled
}

/// The request is terminal or idle: once also unpolled past the idle
/// timeout, cleanup removes it outright.
pub open spec fn is_terminal_or_idle(s: RequestState) -> bool {
    is_terminal(s) || s == RequestState::Idle
}

/// The lower-case name of a state, as shown in error messages.
pub open spec fn spec_label(s: RequestState) -> Seq<char> {
    match s {
        RequestState::Init => "init"@,
        RequestState::Sending => "sending"@,
        RequestState::Receiving => "receiving"@,
        RequestState::Complete => "complete"@,
        RequestState::Error => "error"@,
        RequestState::Timeout => "timeout"@,
        RequestState::Cancelled => "cancelled"@,
        RequestState::Idle => "idle"@,
        RequestState::Acknowledged => "acknowledged"@,
    }
}

impl RequestState {
    /// Executable test for an active state.
    pub fn active(&self) -> (r: bool)
        ensures
            r == is_active(*self),
    {
        match self {
            RequestState::Init | RequestState::Sending | RequestState::Receiving => true,
            _ => false,
        }
    }

    /// Executable test for a terminal state.
    pub fn terminal(&self) -> (r: bool)
        ensures
            r == is_terminal(*self),
    {
        match self {
            RequestState::Complete | RequestState::Error | RequestState::Timeout
            | RequestState::Cancelled => true,
            _ => false,
        }
    }

    /// Executable test for a terminal or idle state.
    pub fn terminal_or_idle(&self) -> (r: bool)
        ensures
            r == is_terminal_or_idle(*self),
    {
        match self {
            RequestState::Complete | RequestState::Error | RequestState::Timeout
            | RequestState::Cancelled | RequestState::Idle => true,
            _ => false,
        }
    }

    /// The lower-case name of the state.
    pub fn label(&self) -> (r: String)
        ensures
            r@ == spec_label(*self),
    {
        match self {
            RequestState::Init => "init".to_owned(),
            RequestState::Sending => "sending".to_owned(),
            RequestState::Receiving => "receiving".to_owned(),
            RequestState::Complete => "complete".to_owned(),
            RequestState::Error => "error".to_owned(),
            RequestState::Timeout => "timeout".to_owned(),
            RequestState::Cancelled => "cancelled".to_owned(),
            RequestState::Idle => "idle".to_owned(),
            RequestState::Acknowledged => "acknowledged".to_owned(),
        }
    }
}

} // verus!
