//! Callback registrations and the event queue they feed.
//!
//! Handlers are arbitrary host code and cannot run under the manager's
//! verification, so the manager records which handlers a request registered
//! and appends a tagged event to a queue whenever one would fire; the host
//! drains the queue and dispatches to its own closures.

use vstd::prelude::*;

use crate::record::{RecordView, RequestInfo};

verus! {

/// Which of the three per-request handlers are registered.
#[derive(Debug, Clone, Copy, PartialEq, Eq, Structural)]
pub struct CallbackHandlers {
    /// A handler for each received chunk of body text.
    pub on_chunk: bool,
    /// A handler for the completion snapshot.
    pub on_complete: bool,
    /// A handler for error messages.
    pub on_error: bool,
}

impl CallbackHandlers {
    /// No handlers registered.
    pub fn none() -> (r: CallbackHandlers)
        ensures
            r == (CallbackHandlers { on_chunk: false, on_complete: false, on_error: false }),
    {
        CallbackHandlers { on_chunk: false, on_complete: false, on_error: false }
    }
}

/// One recorded handler invocation, in the order it would have fired.
#[derive(Debug)]
pub enum CallbackEvent {
    /// `on_chunk` fired for the request with this chunk of text.
    Chunk(String, String),
    /// `on_complete` fired for the request with this snapshot.
    Complete(String, RequestInfo),
    /// `on_error` fired for the request with this message.
    ErrorMsg(String, String),
}

/// Mathematical view of a [`CallbackEvent`].
pub enum EventView {
    Chunk(Seq<char>, Seq<char>),
    Complete(Seq<char>, RecordView),
    ErrorMsg(Seq<char>, Seq<char>),
}

impl View for CallbackEvent {
    type V = EventView;

    open spec fn view(&self) -> EventView {
        match self {
            CallbackEvent::Chunk(id, data) => EventView::Chunk(id@, data@),
            CallbackEvent::Complete(id, snap) => EventView::Complete(id@, snap@),
            CallbackEvent::ErrorMsg(id, msg) => EventView::ErrorMsg(id@, msg@),
        }
    }
}

} // verus!
