//! A session: one client's isolated namespace of request ids.
//!
//! A session is a thin facade over its own [`RequestManager`]; two sessions
//! may use the same id value without collision.  `get_response` differs from
//! a bare poll in that an unknown id yields a synthesized error-state
//! snapshot rather than a failure, so hosts can treat "never existed" and
//! "errored" uniformly.

use vstd::prelude::*;

use crate::clock;
use crate::events::{CallbackEvent, CallbackHandlers};
use crate::manager::{
    apply_cancel, apply_chunk, apply_completed, apply_error, apply_init, apply_poll,
    apply_set_callbacks, apply_set_response, apply_try_cleanup, cb_chunk, init_allowed,
    init_err_msg, polled_record, spec_should_cancel, CancellationToken, ManagerView,
    RequestManager,
};
use crate::record::{header_seq, RecordView, RequestInfo};
use crate::state::RequestState;

verus! {

/// The message carried by the snapshot `get_response` synthesizes for an
/// unknown id.
pub open spec fn not_found_msg(id: Seq<char>) -> Seq<char> {
    "Request '"@ + id + "' not found"@
}

/// The snapshot `get_response` synthesizes for an unknown id: an
/// error-state record with a "not found" message.
pub open spec fn not_found_record(id: Seq<char>, now: u64) -> RecordView {
    RecordView {
        request_id: id,
        state: RequestState::Error,
        status: None,
        headers: None,
        body: None,
        error: Some(not_found_msg(id)),
        last_polled: now,
        created_at: now,
        updated_at: now,
    }
}

/// One logical client bound to its own request manager.
pub struct Session {
    request_manager: RequestManager,
}

impl View for Session {
    type V = ManagerView;

    closed spec fn view(&self) -> ManagerView {
        self.request_manager@
    }
}

impl Session {
    /// Well-formed: the underlying manager is.
    pub closed spec fn wf(&self) -> bool {
        self.request_manager.wf()
    }

    /// A well-formed session's view satisfies the manager invariant, so
    /// the laws that require it apply to every reachable state.
    pub proof fn lemma_wf_inv(&self)
        requires
            self.wf(),
        ensures
            self@.inv(),
    {
        self.request_manager.lemma_wf_inv();
    }

    /// A session with the default idle timeout and cleanup interval.
    pub fn new() -> (r: Session)
        ensures
            r.wf(),
            r@.requests == Map::<Seq<char>, RecordView>::empty(),
            r@.tokens.dom() == Set::<Seq<char>>::empty(),
            r@.callbacks.dom() == Set::<Seq<char>>::empty(),
            r@.events == Seq::<crate::events::EventView>::empty(),
            r@.next_token == 0,
            r@.idle_timeout == crate::manager::DEFAULT_IDLE_TIMEOUT,
            r@.cleanup_interval == crate::manager::DEFAULT_CLEANUP_INTERVAL,
            r@.last_cleanup == 0,
    {
        let r = Session { request_manager: RequestManager::new() };
        proof {
            assert(r@.tokens.dom() =~= Set::<Seq<char>>::empty());
            assert(r@.callbacks.dom() =~= Set::<Seq<char>>::empty());
        }
        r
    }

    /// A session with the given idle timeout and cleanup interval, both in
    /// seconds.
    pub fn with_config(idle_timeout: u64, cleanup_interval: u64) -> (r: Session)
        ensures
            r.wf(),
            r@.requests == Map::<Seq<char>, RecordView>::empty(),
            r@.tokens.dom() == Set::<Seq<char>>::empty(),
            r@.callbacks.dom() == Set::<Seq<char>>::empty(),
            r@.events == Seq::<crate::events::EventView>::empty(),
            r@.next_token == 0,
            r@.idle_timeout == idle_timeout,
            r@.cleanup_interval == cleanup_interval,
            r@.last_cleanup == 0,
    {
        let r = Session { request_manager: RequestManager::with_config(idle_timeout, cleanup_interval) };
        proof {
            assert(r@.tokens.dom() =~= Set::<Seq<char>>::empty());
            assert(r@.callbacks.dom() =~= Set::<Seq<char>>::empty());
        }
        r
    }

    /// Initialize or reset a request id at the given time.
    pub fn init_request_at(&mut self, request_id: &str, now: u64) -> (r: Result<
        CancellationToken,
        String,
    >)
        requires
            old(self).wf(),
            old(self)@.next_token < u64::MAX,
        ensures
            final(self).wf(),
            match r {
                Ok(tok) => {
                    &&& init_allowed(old(self)@, request_id@)
                    &&& tok.token_id == old(self)@.next_token
                    &&& final(self)@ == apply_init(old(self)@, request_id@, now)
                },
                Err(m) => {
                    &&& !init_allowed(old(self)@, request_id@)
                    &&& m@ == init_err_msg(
                        request_id@,
                        old(self)@.requests[request_id@].state,
                    )
                    &&& final(self)@ == old(self)@
                },
            },
    {
        self.request_manager.init_request_at(request_id, now)
    }

    /// Initialize or reset a request id at the current wall-clock time.
    pub fn init_request(&mut self, request_id: &str) -> (r: Result<CancellationToken, String>)
        requires
            old(self).wf(),
            old(self)@.next_token < u64::MAX,
        ensures
            final(self).wf(),
            match r {
                Ok(tok) => {
                    &&& init_allowed(old(self)@, request_id@)
                    &&& tok.token_id == old(self)@.next_token
                    &&& exists|now: u64|
                        final(self)@ == apply_init(old(self)@, request_id@, now)
                },
                Err(m) => {
                    &&& !init_allowed(old(self)@, request_id@)
                    &&& m@ == init_err_msg(
                        request_id@,
                        old(self)@.requests[request_id@].state,
                    )
                    &&& final(self)@ == old(self)@
                },
            },
    {
        self.request_manager.init_request(request_id)
    }

    /// Poll a request id at the given time, synthesizing an error-state
    /// snapshot with a "not found" message for an unknown id.
    pub fn get_response_at(&mut self, request_id: &str, now: u64) -> (r: RequestInfo)
        requires
            old(self).wf(),
        ensures
            final(self).wf(),
            final(self)@ == apply_poll(old(self)@, request_id@, now),
            ({
                let c = apply_try_cleanup(old(self)@, now);
                if c.requests.contains_key(request_id@) {
                    r@ == polled_record(c.requests[request_id@], now)
                } else {
                    r@ == not_found_record(request_id@, now)
                }
            }),
    {
        match self.request_manager.poll_request_at(request_id, now) {
            Some(info) => info,
            None => RequestInfo {
                request_id: request_id.to_owned(),
                state: RequestState::Error,
                status: None,
                headers: None,
                body: None,
                error: Some(
                    "Request '".to_owned().concat(request_id).concat("' not found"),
                ),
                last_polled: now,
                created_at: now,
                updated_at: now,
            },
        }
    }

    /// Poll a request id at the current wall-clock time, synthesizing an
    /// error-state "not found" snapshot for an unknown id.
    pub fn get_response(&mut self, request_id: &str) -> (r: RequestInfo)
        requires
            old(self).wf(),
        ensures
            final(self).wf(),
            exists|now: u64|
                {
                    &&& final(self)@ == apply_poll(old(self)@, request_id@, now)
                    &&& ({
                        let c = apply_try_cleanup(old(self)@, now);
                        if c.requests.contains_key(request_id@) {
                            r@ == polled_record(c.requests[request_id@], now)
                        } else {
                            r@ == not_found_record(request_id@, now)
                        }
                    })
                },
    {
        let now = clock::timestamp_now();
        self.get_response_at(request_id, now)
    }

    /// Overwrite status, headers and body for an id at the given time.
    pub fn set_response_at(&mut self, request_id: &str, status: u16, headers: Vec<(String, String)>, body: &str, now: u64)
        requires
            old(self).wf(),
        ensures
            final(self).wf(),
            final(self)@ == apply_set_response(
                old(self)@,
                request_id@,
                status,
                header_seq(headers),
                body@,
                now,
            ),
    {
        self.request_manager.set_response_at(request_id, status, headers, body, now);
    }

    /// Overwrite status, headers and body for an id at the current
    /// wall-clock time.
    pub fn set_response(&mut self, request_id: &str, status: u16, headers: Vec<(String, String)>, body: &str)
        requires
            old(self).wf(),
        ensures
            final(self).wf(),
            exists|now: u64|
                final(self)@ == #[trigger] apply_set_response(
                    old(self)@,
                    request_id@,
                    status,
                    header_seq(headers),
                    body@,
                    now,
                ),
    {
        let now = clock::timestamp_now();
        self.request_manager.set_response_at(request_id, status, headers, body, now);
        proof {
            assert(self@ == apply_set_response(
                old(self)@,
                request_id@,
                status,
                header_seq(headers),
                body@,
                now,
            ));
        }
    }

    /// Mark an id complete at the given time.
    pub fn set_completed_at(&mut self, request_id: &str, now: u64)
        requires
            old(self).wf(),
        ensures
            final(self).wf(),
            final(self)@ == apply_completed(old(self)@, request_id@, now),
    {
        self.request_manager.set_completed_at(request_id, now);
    }

    /// Mark an id complete at the current wall-clock time.
    pub fn set_completed(&mut self, request_id: &str)
        requires
            old(self).wf(),
        ensures
            final(self).wf(),
            exists|now: u64| final(self)@ == apply_completed(old(self)@, request_id@, now),
    {
        let now = clock::timestamp_now();
        self.request_manager.set_completed_at(request_id, now);
        proof {
            assert(self@ == apply_completed(old(self)@, request_id@, now));
        }
    }

    /// Record an error for an id at the given time.
    pub fn set_error_at(&mut self, request_id: &str, error: &str, now: u64)
        requires
            old(self).wf(),
        ensures
            final(self).wf(),
            final(self)@ == apply_error(old(self)@, request_id@, error@, now),
    {
        self.request_manager.set_error_at(request_id, error, now);
    }

    /// Record an error for an id at the current wall-clock time.
    pub fn set_error(&mut self, request_id: &str, error: &str)
        requires
            old(self).wf(),
        ensures
            final(self).wf(),
            exists|now: u64| final(self)@ == apply_error(old(self)@, request_id@, error@, now),
    {
        let now = clock::timestamp_now();
        self.request_manager.set_error_at(request_id, error, now);
        proof {
            assert(self@ == apply_error(old(self)@, request_id@, error@, now));
        }
    }

    /// Deliver one decoded stream chunk for an id at the given time;
    /// returns whether a registered `on_chunk` handler fired.
    pub fn handle_stream_event_at(&mut self, request_id: &str, data: &str, now: u64) -> (r: bool)
        requires
            old(self).wf(),
        ensures
            final(self).wf(),
            final(self)@ == apply_chunk(old(self)@, request_id@, data@, now),
            r == (old(self)@.requests.contains_key(request_id@) && cb_chunk(
                old(self)@,
                request_id@,
            )),
    {
        self.request_manager.handle_chunk_at(request_id, data, now)
    }

    /// Deliver one decoded stream chunk for an id at the current
    /// wall-clock time.
    pub fn handle_stream_event(&mut self, request_id: &str, data: &str) -> (r: bool)
        requires
            old(self).wf(),
        ensures
            final(self).wf(),
            exists|now: u64| final(self)@ == apply_chunk(old(self)@, request_id@, data@, now),
            r == (old(self)@.requests.contains_key(request_id@) && cb_chunk(
                old(self)@,
                request_id@,
            )),
    {
        let now = clock::timestamp_now();
        let r = self.request_manager.handle_chunk_at(request_id, data, now);
        proof {
            assert(self@ == apply_chunk(old(self)@, request_id@, data@, now));
        }
        r
    }

    /// Cancel an id at the given time.
    pub fn cancel_request_at(&mut self, request_id: &str, now: u64)
        requires
            old(self).wf(),
        ensures
            final(self).wf(),
            final(self)@ == apply_cancel(old(self)@, request_id@, now),
    {
        self.request_manager.cancel_request_at(request_id, now);
    }

    /// Cancel an id at the current wall-clock time.
    pub fn cancel_request(&mut self, request_id: &str)
        requires
            old(self).wf(),
        ensures
            final(self).wf(),
            exists|now: u64| final(self)@ == apply_cancel(old(self)@, request_id@, now),
    {
        let now = clock::timestamp_now();
        self.request_manager.cancel_request_at(request_id, now);
        proof {
            assert(self@ == apply_cancel(old(self)@, request_id@, now));
        }
    }

    /// Whether the id's current token has been cancelled.
    pub fn should_cancel(&self, request_id: &str) -> (r: bool)
        requires
            self.wf(),
        ensures
            r == spec_should_cancel(self@, request_id@),
    {
        self.request_manager.should_cancel(request_id)
    }

    /// Register which handlers exist for a request id.
    pub fn set_callbacks(&mut self, request_id: &str, on_chunk: bool, on_complete: bool, on_error: bool)
        requires
            old(self).wf(),
        ensures
            final(self).wf(),
            final(self)@ == apply_set_callbacks(
                old(self)@,
                request_id@,
                CallbackHandlers { on_chunk, on_complete, on_error },
            ),
    {
        self.request_manager.set_callbacks(request_id, on_chunk, on_complete, on_error);
    }

    /// Acknowledge a terminal-state id, making it eligible for immediate
    /// reclamation; false (and no mutation) otherwise.
    pub fn acknowledge_request(&mut self, request_id: &str) -> (r: bool)
        requires
            old(self).wf(),
        ensures
            final(self).wf(),
            r == crate::manager::ack_allowed(old(self)@, request_id@),
            exists|now: u64|
                final(self)@ == crate::manager::apply_ack(old(self)@, request_id@, now),
    {
        let now = clock::timestamp_now();
        let r = self.request_manager.acknowledge_request_at(request_id, now);
        proof {
            assert(self@ == crate::manager::apply_ack(old(self)@, request_id@, now));
        }
        r
    }

    /// Drain the recorded callback events, oldest first.
    pub fn take_events(&mut self) -> (r: Vec<CallbackEvent>)
        requires
            old(self).wf(),
        ensures
            final(self).wf(),
            r@.map_values(|e: CallbackEvent| e@) == old(self)@.events,
            final(self)@ == (ManagerView { events: Seq::empty(), ..old(self)@ }),
    {
        self.request_manager.take_events()
    }
}

} // verus!
