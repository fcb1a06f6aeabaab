//! The request manager: the shared state machine behind every session.
//!
//! The manager owns three maps keyed by request id — records, cancellation
//! tokens and callback registrations — plus the queue of callback events.
//! Every time-dependent operation has a `*_at` form taking the current time
//! in monotonic seconds, with an exact contract phrased over the manager's
//! mathematical view; the like-named convenience form reads the wall clock
//! and delegates.

use vstd::prelude::*;

use crate::clock;
use crate::events::{CallbackEvent, CallbackHandlers, EventView};
use crate::idmap::IdMap;
use crate::record::{header_seq, spec_fresh, RecordView, RequestInfo};
use crate::state::{is_active, is_terminal, is_terminal_or_idle, spec_label, RequestState};

verus! {

/// Default seconds after which an unpolled request is considered idle.
pub const DEFAULT_IDLE_TIMEOUT: u64 = 3600;

/// Default seconds between cleanup passes.
pub const DEFAULT_CLEANUP_INTERVAL: u64 = 300;

/// Seconds without an update after which a poll marks an in-flight
/// request as timed out.
pub const POLL_INACTIVITY_LIMIT: u64 = 30;

/// A cancellation token: the handle returned by `init_request`.
/// Re-initializing an id issues a token with a fresh number, so a stale
/// executor's token can be told apart from the current one.
#[derive(Debug, Clone, Copy, PartialEq, Eq, Structural)]
pub struct CancellationToken {
    pub token_id: u64,
}

/// The manager's record of one issued token: its number and whether
/// cancellation was requested.
#[derive(Debug, Clone, Copy, PartialEq, Eq, Structural)]
pub struct TokenState {
    pub token_id: u64,
    pub cancelled: bool,
}

/// Mathematical view of a [`RequestManager`].
#[verifier::ext_equal]
pub struct ManagerView {
    pub requests: Map<Seq<char>, RecordView>,
    pub tokens: Map<Seq<char>, TokenState>,
    pub callbacks: Map<Seq<char>, CallbackHandlers>,
    pub events: Seq<EventView>,
    pub idle_timeout: u64,
    pub cleanup_interval: u64,
    pub last_cleanup: u64,
    pub next_token: u64,
}

impl ManagerView {
    /// The manager's invariant: each record is well formed and stored under
    /// its own id, and every issued token number is below the next one.
    pub open spec fn inv(self) -> bool {
        &&& forall|k: Seq<char>|
            #[trigger] self.requests.contains_key(k) ==> self.requests[k].wf()
                && self.requests[k].request_id == k
        &&& forall|k: Seq<char>|
            #[trigger] self.tokens.contains_key(k) ==> self.tokens[k].token_id < self.next_token
    }
}

/// `a - b`, saturating at zero: elapsed time under a clock that may step
/// backwards.
pub open spec fn sat_sub(a: u64, b: u64) -> u64 {
    if a >= b {
        (a - b) as u64
    } else {
        0
    }
}

/// A record's new `updated_at`: the current time, clamped so it never
/// falls below the record's creation time.
pub open spec fn bump_time(created_at: u64, now: u64) -> u64 {
    if now >= created_at {
        now
    } else {
        created_at
    }
}

/// `init_request` succeeds: the id is unknown, or its record reached a
/// terminal state.  An idle record is refused like an active one; cleanup
/// reclaims it, after which the id is free again.
pub open spec fn init_allowed(v: ManagerView, id: Seq<char>) -> bool {
    !v.requests.contains_key(id) || is_terminal(v.requests[id].state)
}

/// A reused record after reset: back to `Init`, response fields cleared,
/// creation time kept.
pub open spec fn reset_record(rec: RecordView, now: u64) -> RecordView {
    RecordView {
        state: RequestState::Init,
        status: None,
        headers: None,
        body: None,
        error: None,
        last_polled: now,
        updated_at: bump_time(rec.created_at, now),
        ..rec
    }
}

/// The manager after a successful `init_request`: the record is fresh or
/// reset, and a new token is issued for the id.
pub open spec fn apply_init(v: ManagerView, id: Seq<char>, now: u64) -> ManagerView {
    let rec = if v.requests.contains_key(id) {
        reset_record(v.requests[id], now)
    } else {
        spec_fresh(id, now)
    };
    ManagerView {
        requests: v.requests.insert(id, rec),
        tokens: v.tokens.insert(
            id,
            TokenState { token_id: v.next_token, cancelled: false },
        ),
        next_token: (v.next_token + 1) as u64,
        ..v
    }
}

/// The message `init_request` returns for an id still in progress.
pub open spec fn init_err_msg(id: Seq<char>, st: RequestState) -> Seq<char> {
    "Request '"@ + id + "' is already in progress with state: "@ + spec_label(st)
}

/// The manager after `set_callbacks`.
pub open spec fn apply_set_callbacks(
    v: ManagerView,
    id: Seq<char>,
    cb: CallbackHandlers,
) -> ManagerView {
    ManagerView { callbacks: v.callbacks.insert(id, cb), ..v }
}

/// Whether cancellation was requested for the id's current token.
pub open spec fn spec_should_cancel(v: ManagerView, id: Seq<char>) -> bool {
    v.tokens.contains_key(id) && v.tokens[id].cancelled
}

/// Tracks every in-flight request's state across its lifecycle.
pub struct RequestManager {
    requests: IdMap<RequestInfo>,
    tokens: IdMap<TokenState>,
    callbacks: IdMap<CallbackHandlers>,
    events: Vec<CallbackEvent>,
    idle_timeout: u64,
    cleanup_interval: u64,
    last_cleanup: u64,
    next_token: u64,
}

impl View for RequestManager {
    type V = ManagerView;

    closed spec fn view(&self) -> ManagerView {
        ManagerView {
            requests: self.requests@.map_values(|r: RequestInfo| r@),
            tokens: self.tokens@,
            callbacks: self.callbacks@,
            events: self.events@.map_values(|e: CallbackEvent| e@),
            idle_timeout: self.idle_timeout,
            cleanup_interval: self.cleanup_interval,
            last_cleanup: self.last_cleanup,
            next_token: self.next_token,
        }
    }
}

impl RequestManager {
    /// Well-formed: the three maps are valid association maps and the
    /// view invariant holds.
    pub closed spec fn wf(&self) -> bool {
        &&& self.requests.wf()
        &&& self.tokens.wf()
        &&& self.callbacks.wf()
        &&& self@.inv()
    }

    /// A well-formed manager's view satisfies the manager invariant, so
    /// the laws that require it apply to every reachable state.
    pub proof fn lemma_wf_inv(&self)
        requires
            self.wf(),
        ensures
            self@.inv(),
    {
    }

    /// A manager with the default idle timeout and cleanup interval.
    pub fn new() -> (r: RequestManager)
        ensures
            r.wf(),
            r@ == (ManagerView {
                requests: Map::empty(),
                tokens: Map::empty(),
                callbacks: Map::empty(),
                events: Seq::empty(),
                idle_timeout: DEFAULT_IDLE_TIMEOUT,
                cleanup_interval: DEFAULT_CLEANUP_INTERVAL,
                last_cleanup: 0,
                next_token: 0,
            }),
    {
        Self::with_config(DEFAULT_IDLE_TIMEOUT, DEFAULT_CLEANUP_INTERVAL)
    }

    /// A manager with the given idle timeout and cleanup interval, both in
    /// seconds.
    pub fn with_config(idle_timeout: u64, cleanup_interval: u64) -> (r: RequestManager)
        ensures
            r.wf(),
            r@ == (ManagerView {
                requests: Map::empty(),
                tokens: Map::empty(),
                callbacks: Map::empty(),
                events: Seq::empty(),
                idle_timeout: idle_timeout,
                cleanup_interval: cleanup_interval,
                last_cleanup: 0,
                next_token: 0,
            }),
    {
        let r = RequestManager {
            requests: IdMap::new(),
            tokens: IdMap::new(),
            callbacks: IdMap::new(),
            events: Vec::new(),
            idle_timeout,
            cleanup_interval,
            last_cleanup: 0,
            next_token: 0,
        };
        proof {
            assert(r@.requests =~= Map::<Seq<char>, RecordView>::empty());
            assert(r@.events =~= Seq::<EventView>::empty());
            assert(r@ =~= (ManagerView {
                requests: Map::empty(),
                tokens: Map::empty(),
                callbacks: Map::empty(),
                events: Seq::empty(),
                idle_timeout: idle_timeout,
                cleanup_interval: cleanup_interval,
                last_cleanup: 0,
                next_token: 0,
            }));
        }
        r
    }

    /// Register which handlers exist for a request id.  The registration
    /// may precede `init_request`; events are only recorded for registered
    /// handlers.
    pub fn set_callbacks(&mut self, request_id: &str, on_chunk: bool, on_complete: bool, on_error: bool)
        requires
            old(self).wf(),
        ensures
            final(self).wf(),
            final(self)@ == apply_set_callbacks(
                old(self)@,
                request_id@,
                CallbackHandlers { on_chunk, on_complete, on_error },
            ),
    {
        self.callbacks.insert(
            request_id,
            CallbackHandlers { on_chunk, on_complete, on_error },
        );
        proof {
            assert(self@ =~= apply_set_callbacks(
                old(self)@,
                request_id@,
                CallbackHandlers { on_chunk, on_complete, on_error },
            ));
        }
    }

    /// Whether the id's current token has been cancelled; false for an
    /// unknown id.
    pub fn should_cancel(&self, request_id: &str) -> (r: bool)
        requires
            self.wf(),
        ensures
            r == spec_should_cancel(self@, request_id@),
    {
        match self.tokens.get(request_id) {
            Some(t) => t.cancelled,
            None => false,
        }
    }

    /// Initialize or reset the record for an id at the given time.
    ///
    /// A fresh id gets a record in `Init` with empty response fields; an id
    /// whose record is terminal is reset in place (its creation time kept)
    /// and issued a distinct new token; any other id — still in progress,
    /// idle, or acknowledged — is refused and nothing changes.
    pub fn init_request_at(&mut self, request_id: &str, now: u64) -> (r: Result<
        CancellationToken,
        String,
    >)
        requires
            old(self).wf(),
            old(self)@.next_token < u64::MAX,
        ensures
            final(self).wf(),
            match r {
                Ok(tok) => {
                    &&& init_allowed(old(self)@, request_id@)
                    &&& tok.token_id == old(self)@.next_token
                    &&& final(self)@ == apply_init(old(self)@, request_id@, now)
                },
                Err(m) => {
                    &&& !init_allowed(old(self)@, request_id@)
                    &&& m@ == init_err_msg(
                        request_id@,
                        old(self)@.requests[request_id@].state,
                    )
                    &&& final(self)@ == old(self)@
                },
            },
    {
        proof {
            self.requests.lemma_view_entries();
        }
        match self.requests.index_of(request_id) {
            Some(i) => {
                let st = self.requests.value_at(i).state;
                proof {
                    assert(self@.requests.contains_key(request_id@));
                    assert(self@.requests[request_id@].state == st);
                }
                if st.terminal() {
                    let ghost old_view = self@;
                    let rec = self.requests.value_at_mut(i);
                    let ghost old_rec = *rec;
                    rec.state = RequestState::Init;
                    rec.status = None;
                    rec.headers = None;
                    rec.body = None;
                    rec.error = None;
                    rec.last_polled = now;
                    rec.updated_at = if now >= rec.created_at {
                        now
                    } else {
                        rec.created_at
                    };
                    let token_id = self.next_token;
                    self.next_token = self.next_token + 1;
                    self.tokens.insert(
                        request_id,
                        TokenState { token_id, cancelled: false },
                    );
                    proof {
                        assert(self@.requests =~= old_view.requests.insert(
                            request_id@,
                            reset_record(old_rec@, now),
                        ));
                        assert(self@ =~= apply_init(old_view, request_id@, now));
                        lemma_init_preserves_inv(old_view, request_id@, now);
                    }
                    Ok(CancellationToken { token_id })
                } else {
                    Err(
                        "Request '".to_owned().concat(request_id).concat(
                            "' is already in progress with state: ",
                        ).concat(st.label().as_str()),
                    )
                }
            },
            None => {
                let ghost old_view = self@;
                proof {
                    if self@.requests.contains_key(request_id@) {
                        self.requests.lemma_view_entries();
                    }
                }
                let info = RequestInfo::fresh(request_id.to_owned(), now);
                self.requests.insert(request_id, info);
                let token_id = self.next_token;
                self.next_token = self.next_token + 1;
                self.tokens.insert(request_id, TokenState { token_id, cancelled: false });
                proof {
                    assert(self@.requests =~= old_view.requests.insert(
                        request_id@,
                        spec_fresh(request_id@, now),
                    ));
                    assert(self@ =~= apply_init(old_view, request_id@, now));
                    lemma_init_preserves_inv(old_view, request_id@, now);
                }
                Ok(CancellationToken { token_id })
            },
        }
    }

    /// Initialize or reset the record for an id, at the current wall-clock
    /// time.
    pub fn init_request(&mut self, request_id: &str) -> (r: Result<CancellationToken, String>)
        requires
            old(self).wf(),
            old(self)@.next_token < u64::MAX,
        ensures
            final(self).wf(),
            match r {
                Ok(tok) => {
                    &&& init_allowed(old(self)@, request_id@)
                    &&& tok.token_id == old(self)@.next_token
                    &&& exists|now: u64|
                        final(self)@ == apply_init(old(self)@, request_id@, now)
                },
                Err(m) => {
                    &&& !init_allowed(old(self)@, request_id@)
                    &&& m@ == init_err_msg(
                        request_id@,
                        old(self)@.requests[request_id@].state,
                    )
                    &&& final(self)@ == old(self)@
                },
            },
    {
        let now = clock::timestamp_now();
        let r = self.init_request_at(request_id, now);
        proof {
            if r is Ok {
                assert(final(self)@ == apply_init(old(self)@, request_id@, now));
            }
        }
        r
    }
}

/// `apply_init` preserves the manager invariant.
pub proof fn lemma_init_preserves_inv(v: ManagerView, id: Seq<char>, now: u64)
    requires
        v.inv(),
        v.next_token < u64::MAX,
    ensures
        apply_init(v, id, now).inv(),
{
    let v2 = apply_init(v, id, now);
    assert forall|k: Seq<char>|
        #[trigger] v2.requests.contains_key(k) implies v2.requests[k].wf() && v2.requests[k].request_id
        == k by {
        if k != id {
            assert(v.requests.contains_key(k));
        }
    }
    assert forall|k: Seq<char>|
        #[trigger] v2.tokens.contains_key(k) implies v2.tokens[k].token_id < v2.next_token by {
        if k != id {
            assert(v.tokens.contains_key(k));
        }
    }
}

/// An `on_chunk` handler is registered for the id.
pub open spec fn cb_chunk(v: ManagerView, id: Seq<char>) -> bool {
    v.callbacks.contains_key(id) && v.callbacks[id].on_chunk
}

/// An `on_complete` handler is registered for the id.
pub open spec fn cb_complete(v: ManagerView, id: Seq<char>) -> bool {
    v.callbacks.contains_key(id) && v.callbacks[id].on_complete
}

/// An `on_error` handler is registered for the id.
pub open spec fn cb_error(v: ManagerView, id: Seq<char>) -> bool {
    v.callbacks.contains_key(id) && v.callbacks[id].on_error
}

/// The manager after `set_response`: status, headers and body overwritten,
/// update time bumped, state untouched; a no-op for an unknown id.
pub open spec fn apply_set_response(
    v: ManagerView,
    id: Seq<char>,
    status: u16,
    headers: Seq<(Seq<char>, Seq<char>)>,
    body: Seq<char>,
    now: u64,
) -> ManagerView {
    if v.requests.contains_key(id) {
        let rec = v.requests[id];
        ManagerView {
            requests: v.requests.insert(
                id,
                RecordView {
                    status: Some(status),
                    headers: Some(headers),
                    body: Some(body),
                    updated_at: bump_time(rec.created_at, now),
                    ..rec
                },
            ),
            ..v
        }
    } else {
        v
    }
}

/// A body with one more chunk appended; the first chunk creates the body.
pub open spec fn chunk_body(body: Option<Seq<char>>, data: Seq<char>) -> Seq<char> {
    match body {
        Some(b) => b + data,
        None => data,
    }
}

/// The manager after `handle_chunk`: the record (if any) moves to
/// `Receiving`, the chunk is appended to its body, and a chunk event is
/// recorded when an `on_chunk` handler is registered.
pub open spec fn apply_chunk(v: ManagerView, id: Seq<char>, data: Seq<char>, now: u64) -> ManagerView {
    if v.requests.contains_key(id) {
        let rec = v.requests[id];
        let rec2 = RecordView {
            state: RequestState::Receiving,
            body: Some(chunk_body(rec.body, data)),
            error: None,
            updated_at: bump_time(rec.created_at, now),
            ..rec
        };
        ManagerView {
            requests: v.requests.insert(id, rec2),
            events: if cb_chunk(v, id) {
                v.events.push(EventView::Chunk(id, data))
            } else {
                v.events
            },
            ..v
        }
    } else {
        v
    }
}

/// The record after `set_completed`.
pub open spec fn completed_record(rec: RecordView, now: u64) -> RecordView {
    RecordView {
        state: RequestState::Complete,
        error: None,
        updated_at: bump_time(rec.created_at, now),
        ..rec
    }
}

/// The manager after `set_completed`: the record (if any) moves to
/// `Complete`, and a completion event carrying the final snapshot is
/// recorded when an `on_complete` handler is registered.
pub open spec fn apply_completed(v: ManagerView, id: Seq<char>, now: u64) -> ManagerView {
    if v.requests.contains_key(id) {
        let rec2 = completed_record(v.requests[id], now);
        ManagerView {
            requests: v.requests.insert(id, rec2),
            events: if cb_complete(v, id) {
                v.events.push(EventView::Complete(id, rec2))
            } else {
                v.events
            },
            ..v
        }
    } else {
        v
    }
}

/// The manager after `set_error`: the record moves to `Error` with the
/// message, and an error event is recorded when an `on_error` handler is
/// registered; a no-op for an unknown id.
pub open spec fn apply_error(v: ManagerView, id: Seq<char>, msg: Seq<char>, now: u64) -> ManagerView {
    if v.requests.contains_key(id) {
        let rec = v.requests[id];
        ManagerView {
            requests: v.requests.insert(
                id,
                RecordView {
                    state: RequestState::Error,
                    error: Some(msg),
                    updated_at: bump_time(rec.created_at, now),
                    ..rec
                },
            ),
            events: if cb_error(v, id) {
                v.events.push(EventView::ErrorMsg(id, msg))
            } else {
                v.events
            },
            ..v
        }
    } else {
        v
    }
}

/// `acknowledge_request` succeeds: the record exists and is terminal.
pub open spec fn ack_allowed(v: ManagerView, id: Seq<char>) -> bool {
    v.requests.contains_key(id) && is_terminal(v.requests[id].state)
}

/// The manager after a successful `acknowledge_request`.
pub open spec fn apply_ack(v: ManagerView, id: Seq<char>, now: u64) -> ManagerView {
    if ack_allowed(v, id) {
        let rec = v.requests[id];
        ManagerView {
            requests: v.requests.insert(
                id,
                RecordView {
                    state: RequestState::Acknowledged,
                    updated_at: bump_time(rec.created_at, now),
                    ..rec
                },
            ),
            ..v
        }
    } else {
        v
    }
}

/// The manager after `cancel_request`: the id's token (if any) is set, and
/// a record that has not yet reached a terminal state moves to `Cancelled`.
/// A finished outcome is never overwritten: the four terminal states are
/// final.
pub open spec fn apply_cancel(v: ManagerView, id: Seq<char>, now: u64) -> ManagerView {
    let toks = if v.tokens.contains_key(id) {
        v.tokens.insert(id, TokenState { token_id: v.tokens[id].token_id, cancelled: true })
    } else {
        v.tokens
    };
    let reqs = if v.requests.contains_key(id) && !is_terminal(v.requests[id].state) {
        let rec = v.requests[id];
        v.requests.insert(
            id,
            RecordView {
                state: RequestState::Cancelled,
                error: Some("cancelled"@),
                updated_at: bump_time(rec.created_at, now),
                ..rec
            },
        )
    } else {
        v.requests
    };
    ManagerView { tokens: toks, requests: reqs, ..v }
}

/// The update-side transitions preserve the manager invariant.
pub proof fn lemma_updates_preserve_inv(v: ManagerView, id: Seq<char>, data: Seq<char>, st: u16, hs: Seq<(Seq<char>, Seq<char>)>, now: u64)
    requires
        v.inv(),
    ensures
        apply_set_response(v, id, st, hs, data, now).inv(),
        apply_chunk(v, id, data, now).inv(),
        apply_completed(v, id, now).inv(),
        apply_error(v, id, data, now).inv(),
        apply_ack(v, id, now).inv(),
        apply_cancel(v, id, now).inv(),
{
    assert forall|k: Seq<char>|
        #[trigger] apply_set_response(v, id, st, hs, data, now).requests.contains_key(k)
        implies apply_set_response(v, id, st, hs, data, now).requests[k].wf()
        && apply_set_response(v, id, st, hs, data, now).requests[k].request_id == k by {
        if k != id {
            assert(v.requests.contains_key(k));
        }
    }
    assert forall|k: Seq<char>|
        #[trigger] apply_chunk(v, id, data, now).requests.contains_key(k) implies apply_chunk(
        v, id, data, now).requests[k].wf() && apply_chunk(v, id, data, now).requests[k].request_id
        == k by {
        if k != id {
            assert(v.requests.contains_key(k));
        }
    }
    assert forall|k: Seq<char>|
        #[trigger] apply_completed(v, id, now).requests.contains_key(k) implies apply_completed(
        v, id, now).requests[k].wf() && apply_completed(v, id, now).requests[k].request_id == k by {
        if k != id {
            assert(v.requests.contains_key(k));
        }
    }
    assert forall|k: Seq<char>|
        #[trigger] apply_error(v, id, data, now).requests.contains_key(k) implies apply_error(
        v, id, data, now).requests[k].wf() && apply_error(v, id, data, now).requests[k].request_id
        == k by {
        if k != id {
            assert(v.requests.contains_key(k));
        }
    }
    assert forall|k: Seq<char>|
        #[trigger] apply_ack(v, id, now).requests.contains_key(k) implies apply_ack(
        v, id, now).requests[k].wf() && apply_ack(v, id, now).requests[k].request_id == k by {
        if k != id {
            assert(v.requests.contains_key(k));
        }
    }
    assert forall|k: Seq<char>|
        #[trigger] apply_cancel(v, id, now).requests.contains_key(k) implies apply_cancel(
        v, id, now).requests[k].wf() && apply_cancel(v, id, now).requests[k].request_id == k by {
        if k != id {
            assert(v.requests.contains_key(k));
        }
    }
    assert forall|k: Seq<char>|
        #[trigger] apply_cancel(v, id, now).tokens.contains_key(k) implies apply_cancel(
        v, id, now).tokens[k].token_id < apply_cancel(v, id, now).next_token by {
        if k != id {
            assert(v.tokens.contains_key(k));
        }
    }
}

impl RequestManager {
    /// Overwrite status, headers and body for an id at the given time;
    /// a no-op if the id is unknown.  The state is not changed: completion
    /// and failure are reported separately.
    pub fn set_response_at(
        &mut self,
        request_id: &str,
        status: u16,
        headers: Vec<(String, String)>,
        body: &str,
        now: u64,
    )
        requires
            old(self).wf(),
        ensures
            final(self).wf(),
            final(self)@ == apply_set_response(
                old(self)@,
                request_id@,
                status,
                header_seq(headers),
                body@,
                now,
            ),
    {
        let ghost old_view = self@;
        proof {
            self.requests.lemma_view_entries();
            lemma_updates_preserve_inv(
                old_view,
                request_id@,
                body@,
                status,
                header_seq(headers),
                now,
            );
        }
        match self.requests.index_of(request_id) {
            Some(i) => {
                let rec = self.requests.value_at_mut(i);
                rec.status = Some(status);
                rec.headers = Some(headers);
                rec.body = Some(body.to_owned());
                rec.updated_at = if now >= rec.created_at {
                    now
                } else {
                    rec.created_at
                };
                proof {
                    assert(self@.requests =~= apply_set_response(
                        old_view,
                        request_id@,
                        status,
                        header_seq(headers),
                        body@,
                        now,
                    ).requests);
                    assert(self@ =~= apply_set_response(
                        old_view,
                        request_id@,
                        status,
                        header_seq(headers),
                        body@,
                        now,
                    ));
                }
            },
            None => {
                proof {
                    assert(!old_view.requests.contains_key(request_id@));
                }
            },
        }
    }

    /// Overwrite status, headers and body for an id at the current
    /// wall-clock time.
    pub fn set_response(&mut self, request_id: &str, status: u16, headers: Vec<(String, String)>, body: &str)
        requires
            old(self).wf(),
        ensures
            final(self).wf(),
            exists|now: u64|
                final(self)@ == #[trigger] apply_set_response(
                    old(self)@,
                    request_id@,
                    status,
                    header_seq(headers),
                    body@,
                    now,
                ),
    {
        let now = clock::timestamp_now();
        self.set_response_at(request_id, status, headers, body, now);
    }

    /// Append a chunk of body text for an id at the given time.
    ///
    /// The record moves to `Receiving` and the chunk is appended to its
    /// body (creating the body if absent).  Returns whether a registered
    /// `on_chunk` handler fired, in which case a chunk event was recorded;
    /// false if the id is unknown.
    pub fn handle_chunk_at(&mut self, request_id: &str, data: &str, now: u64) -> (r: bool)
        requires
            old(self).wf(),
        ensures
            final(self).wf(),
            final(self)@ == apply_chunk(old(self)@, request_id@, data@, now),
            r == (old(self)@.requests.contains_key(request_id@) && cb_chunk(
                old(self)@,
                request_id@,
            )),
    {
        let ghost old_view = self@;
        proof {
            self.requests.lemma_view_entries();
            lemma_updates_preserve_inv(old_view, request_id@, data@, 0, Seq::empty(), now);
        }
        match self.requests.index_of(request_id) {
            Some(i) => {
                let rec = self.requests.value_at_mut(i);
                rec.state = RequestState::Receiving;
                rec.error = None;
                rec.updated_at = if now >= rec.created_at {
                    now
                } else {
                    rec.created_at
                };
                match &mut rec.body {
                    Some(b) => {
                        b.append(data);
                    },
                    None => {
                        rec.body = Some(data.to_owned());
                    },
                }
                let fired = match self.callbacks.get(request_id) {
                    Some(cb) => cb.on_chunk,
                    None => false,
                };
                if fired {
                    self.events.push(CallbackEvent::Chunk(request_id.to_owned(), data.to_owned()));
                }
                proof {
                    assert(self@.requests =~= apply_chunk(
                        old_view,
                        request_id@,
                        data@,
                        now,
                    ).requests);
                    assert(self@.events =~= apply_chunk(old_view, request_id@, data@, now).events);
                    assert(self@ =~= apply_chunk(old_view, request_id@, data@, now));
                }
                fired
            },
            None => {
                proof {
                    assert(!old_view.requests.contains_key(request_id@));
                }
                false
            },
        }
    }

    /// Append a chunk of body text for an id at the current wall-clock
    /// time.
    pub fn handle_chunk(&mut self, request_id: &str, data: &str) -> (r: bool)
        requires
            old(self).wf(),
        ensures
            final(self).wf(),
            exists|now: u64| final(self)@ == apply_chunk(old(self)@, request_id@, data@, now),
            r == (old(self)@.requests.contains_key(request_id@) && cb_chunk(
                old(self)@,
                request_id@,
            )),
    {
        let now = clock::timestamp_now();
        self.handle_chunk_at(request_id, data, now)
    }

    /// Mark an id complete at the given time; a no-op if the id is
    /// unknown.  When an `on_complete` handler is registered, a completion
    /// event carrying the final snapshot is recorded.
    pub fn set_completed_at(&mut self, request_id: &str, now: u64)
        requires
            old(self).wf(),
        ensures
            final(self).wf(),
            final(self)@ == apply_completed(old(self)@, request_id@, now),
    {
        let ghost old_view = self@;
        proof {
            self.requests.lemma_view_entries();
            lemma_updates_preserve_inv(old_view, request_id@, Seq::empty(), 0, Seq::empty(), now);
        }
        match self.requests.index_of(request_id) {
            Some(i) => {
                let rec = self.requests.value_at_mut(i);
                rec.state = RequestState::Complete;
                rec.error = None;
                rec.updated_at = if now >= rec.created_at {
                    now
                } else {
                    rec.created_at
                };
                let fired = match self.callbacks.get(request_id) {
                    Some(cb) => cb.on_complete,
                    None => false,
                };
                if fired {
                    let snap = self.requests.value_at(i).snapshot();
                    proof {
                        assert(snap@ == completed_record(
                            old_view.requests[request_id@],
                            now,
                        ));
                    }
                    self.events.push(CallbackEvent::Complete(request_id.to_owned(), snap));
                }
                proof {
                    assert(self@.requests =~= apply_completed(
                        old_view,
                        request_id@,
                        now,
                    ).requests);
                    assert(self@.events =~= apply_completed(old_view, request_id@, now).events);
                    assert(self@ =~= apply_completed(old_view, request_id@, now));
                }
            },
            None => {
                proof {
                    assert(!old_view.requests.contains_key(request_id@));
                }
            },
        }
    }

    /// Mark an id complete at the current wall-clock time.
    pub fn set_completed(&mut self, request_id: &str)
        requires
            old(self).wf(),
        ensures
            final(self).wf(),
            exists|now: u64| final(self)@ == apply_completed(old(self)@, request_id@, now),
    {
        let now = clock::timestamp_now();
        self.set_completed_at(request_id, now);
    }

    /// Record an error for an id at the given time: the record moves to
    /// `Error` with the message and a registered `on_error` handler fires.
    /// A no-op if the id is unknown.
    pub fn set_error_at(&mut self, request_id: &str, error: &str, now: u64)
        requires
            old(self).wf(),
        ensures
            final(self).wf(),
            final(self)@ == apply_error(old(self)@, request_id@, error@, now),
    {
        let ghost old_view = self@;
        proof {
            self.requests.lemma_view_entries();
            lemma_updates_preserve_inv(old_view, request_id@, error@, 0, Seq::empty(), now);
        }
        match self.requests.index_of(request_id) {
            Some(i) => {
                let rec = self.requests.value_at_mut(i);
                rec.state = RequestState::Error;
                rec.error = Some(error.to_owned());
                rec.updated_at = if now >= rec.created_at {
                    now
                } else {
                    rec.created_at
                };
                let fired = match self.callbacks.get(request_id) {
                    Some(cb) => cb.on_error,
                    None => false,
                };
                if fired {
                    self.events.push(
                        CallbackEvent::ErrorMsg(request_id.to_owned(), error.to_owned()),
                    );
                }
                proof {
                    assert(self@.requests =~= apply_error(
                        old_view,
                        request_id@,
                        error@,
                        now,
                    ).requests);
                    assert(self@.events =~= apply_error(old_view, request_id@, error@, now).events);
                    assert(self@ =~= apply_error(old_view, request_id@, error@, now));
                }
            },
            None => {
                proof {
                    assert(!old_view.requests.contains_key(request_id@));
                }
            },
        }
    }

    /// Record an error for an id at the current wall-clock time.
    pub fn set_error(&mut self, request_id: &str, error: &str)
        requires
            old(self).wf(),
        ensures
            final(self).wf(),
            exists|now: u64| final(self)@ == apply_error(old(self)@, request_id@, error@, now),
    {
        let now = clock::timestamp_now();
        self.set_error_at(request_id, error, now);
    }

    /// Acknowledge a terminal-state id at the given time, making it
    /// eligible for immediate reclamation.  Returns false — and mutates
    /// nothing — when the record is missing or not terminal.
    pub fn acknowledge_request_at(&mut self, request_id: &str, now: u64) -> (r: bool)
        requires
            old(self).wf(),
        ensures
            final(self).wf(),
            r == ack_allowed(old(self)@, request_id@),
            final(self)@ == apply_ack(old(self)@, request_id@, now),
    {
        let ghost old_view = self@;
        proof {
            self.requests.lemma_view_entries();
            lemma_updates_preserve_inv(old_view, request_id@, Seq::empty(), 0, Seq::empty(), now);
        }
        match self.requests.index_of(request_id) {
            Some(i) => {
                let st = self.requests.value_at(i).state;
                if st.terminal() {
                    let rec = self.requests.value_at_mut(i);
                    rec.state = RequestState::Acknowledged;
                    rec.updated_at = if now >= rec.created_at {
                        now
                    } else {
                        rec.created_at
                    };
                    proof {
                        assert(self@.requests =~= apply_ack(
                            old_view,
                            request_id@,
                            now,
                        ).requests);
                        assert(self@ =~= apply_ack(old_view, request_id@, now));
                    }
                    true
                } else {
                    false
                }
            },
            None => {
                proof {
                    assert(!old_view.requests.contains_key(request_id@));
                }
                false
            },
        }
    }

    /// Acknowledge a terminal-state id at the current wall-clock time.
    pub fn acknowledge_request(&mut self, request_id: &str) -> (r: bool)
        requires
            old(self).wf(),
        ensures
            final(self).wf(),
            r == ack_allowed(old(self)@, request_id@),
            exists|now: u64| final(self)@ == apply_ack(old(self)@, request_id@, now),
    {
        let now = clock::timestamp_now();
        self.acknowledge_request_at(request_id, now)
    }

    /// Cancel an id at the given time: set its token, and move the record
    /// to `Cancelled` unless it already reached a terminal state — a
    /// finished outcome is never overwritten.  Idempotent; a no-op for an
    /// unknown id.
    pub fn cancel_request_at(&mut self, request_id: &str, now: u64)
        requires
            old(self).wf(),
        ensures
            final(self).wf(),
            final(self)@ == apply_cancel(old(self)@, request_id@, now),
    {
        let ghost old_view = self@;
        proof {
            self.requests.lemma_view_entries();
            self.tokens.lemma_view_entries();
            lemma_updates_preserve_inv(old_view, request_id@, Seq::empty(), 0, Seq::empty(), now);
        }
        match self.tokens.index_of(request_id) {
            Some(i) => {
                let t = self.tokens.value_at_mut(i);
                t.cancelled = true;
            },
            None => {},
        }
        proof {
            assert(self@.tokens =~= apply_cancel(old_view, request_id@, now).tokens);
        }
        match self.requests.index_of(request_id) {
            Some(i) => {
                let st = self.requests.value_at(i).state;
                if !st.terminal() {
                    let rec = self.requests.value_at_mut(i);
                    rec.state = RequestState::Cancelled;
                    rec.error = Some("cancelled".to_owned());
                    rec.updated_at = if now >= rec.created_at {
                        now
                    } else {
                        rec.created_at
                    };
                }
            },
            None => {},
        }
        proof {
            assert(self@.requests =~= apply_cancel(old_view, request_id@, now).requests);
            assert(self@ =~= apply_cancel(old_view, request_id@, now));
        }
    }

    /// Cancel an id at the current wall-clock time.
    pub fn cancel_request(&mut self, request_id: &str)
        requires
            old(self).wf(),
        ensures
            final(self).wf(),
            exists|now: u64| final(self)@ == apply_cancel(old(self)@, request_id@, now),
    {
        let now = clock::timestamp_now();
        self.cancel_request_at(request_id, now);
    }

    /// Drain the recorded callback events, oldest first.
    pub fn take_events(&mut self) -> (r: Vec<CallbackEvent>)
        requires
            old(self).wf(),
        ensures
            final(self).wf(),
            r@.map_values(|e: CallbackEvent| e@) == old(self)@.events,
            final(self)@ == (ManagerView { events: Seq::empty(), ..old(self)@ }),
    {
        let mut out: Vec<CallbackEvent> = Vec::new();
        core::mem::swap(&mut out, &mut self.events);
        proof {
            assert(self@.events =~= Seq::<EventView>::empty());
            assert(self@ =~= (ManagerView { events: Seq::empty(), ..old(self)@ }));
        }
        out
    }
}

/// The record has gone unpolled for longer than the idle timeout.
pub open spec fn over_idle(rec: RecordView, now: u64, idle_timeout: u64) -> bool {
    sat_sub(now, rec.last_polled) > idle_timeout
}

/// Cleanup removes the record: it was acknowledged, or it is terminal or
/// idle and has gone unpolled past the idle timeout.
pub open spec fn rec_removable(rec: RecordView, now: u64, idle_timeout: u64) -> bool {
    rec.state == RequestState::Acknowledged || (over_idle(rec, now, idle_timeout)
        && is_terminal_or_idle(rec.state))
}

/// The record after the idle-marking half of cleanup: an active record
/// unpolled past the idle timeout is forced to `Idle`.
pub open spec fn rec_idled(rec: RecordView, now: u64, idle_timeout: u64) -> RecordView {
    if over_idle(rec, now, idle_timeout) && is_active(rec.state) {
        RecordView {
            state: RequestState::Idle,
            updated_at: bump_time(rec.created_at, now),
            ..rec
        }
    } else {
        rec
    }
}

/// The ids a cleanup pass at this time removes.
pub open spec fn removed_ids(v: ManagerView, now: u64) -> Set<Seq<char>> {
    Set::new(
        |k: Seq<char>|
            v.requests.contains_key(k) && rec_removable(v.requests[k], now, v.idle_timeout),
    )
}

/// The manager after one cleanup pass: removable records leave all three
/// maps, and abandoned active records are forced to `Idle`.
pub open spec fn apply_cleanup(v: ManagerView, now: u64) -> ManagerView {
    ManagerView {
        requests: Map::new(
            |k: Seq<char>|
                v.requests.contains_key(k) && !rec_removable(v.requests[k], now, v.idle_timeout),
            |k: Seq<char>| rec_idled(v.requests[k], now, v.idle_timeout),
        ),
        tokens: v.tokens.remove_keys(removed_ids(v, now)),
        callbacks: v.callbacks.remove_keys(removed_ids(v, now)),
        ..v
    }
}

/// The cleanup interval has elapsed since the last pass.
pub open spec fn cleanup_due(v: ManagerView, now: u64) -> bool {
    sat_sub(now, v.last_cleanup) > v.cleanup_interval
}

/// The manager after the opportunistic cleanup check: a full pass when the
/// interval has elapsed, otherwise unchanged.
pub open spec fn apply_try_cleanup(v: ManagerView, now: u64) -> ManagerView {
    if cleanup_due(v, now) {
        ManagerView { last_cleanup: now, ..apply_cleanup(v, now) }
    } else {
        v
    }
}

/// A poll at this time finds the request timed out: it is in flight and
/// has not been updated within the inactivity limit.
pub open spec fn poll_timed_out(rec: RecordView, now: u64) -> bool {
    (rec.state == RequestState::Sending || rec.state == RequestState::Receiving) && sat_sub(
        now,
        rec.updated_at,
    ) > POLL_INACTIVITY_LIMIT
}

/// The record after a poll: the poll time is noted, and an in-flight
/// record that went quiet too long is moved to `Timeout`.
pub open spec fn polled_record(rec: RecordView, now: u64) -> RecordView {
    if poll_timed_out(rec, now) {
        RecordView {
            last_polled: now,
            state: RequestState::Timeout,
            error: Some("Request timed out"@),
            ..rec
        }
    } else {
        RecordView { last_polled: now, ..rec }
    }
}

/// The manager after `poll_request`: the cleanup check runs first, then
/// the polled record (if it survived) is updated in place.
pub open spec fn apply_poll(v: ManagerView, id: Seq<char>, now: u64) -> ManagerView {
    let c = apply_try_cleanup(v, now);
    if c.requests.contains_key(id) {
        ManagerView { requests: c.requests.insert(id, polled_record(c.requests[id], now)), ..c }
    } else {
        c
    }
}

/// The keys among the first `i` entries whose records cleanup removes.
pub open spec fn removable_prefix(
    oks: Seq<Seq<char>>,
    ovs: Seq<RequestInfo>,
    i: int,
    now: u64,
    t: u64,
) -> Seq<Seq<char>>
    decreases i,
{
    if i <= 0 {
        Seq::empty()
    } else {
        let rest = removable_prefix(oks, ovs, i - 1, now, t);
        if rec_removable(ovs[i - 1]@, now, t) {
            rest.push(oks[i - 1])
        } else {
            rest
        }
    }
}

/// Membership in `removable_prefix`: exactly the keys of removable entries.
pub proof fn lemma_removable_prefix_contains(
    oks: Seq<Seq<char>>,
    ovs: Seq<RequestInfo>,
    i: int,
    now: u64,
    t: u64,
)
    requires
        0 <= i <= oks.len(),
        oks.len() == ovs.len(),
    ensures
        forall|k: Seq<char>|
            #[trigger] removable_prefix(oks, ovs, i, now, t).contains(k) <==> exists|j: int|
                0 <= j < i && oks[j] == k && rec_removable(ovs[j]@, now, t),
    decreases i,
{
    if i > 0 {
        lemma_removable_prefix_contains(oks, ovs, i - 1, now, t);
        let pre = removable_prefix(oks, ovs, i - 1, now, t);
        let cur = removable_prefix(oks, ovs, i, now, t);
        assert forall|k: Seq<char>| #[trigger] cur.contains(k) implies exists|j: int|
            0 <= j < i && oks[j] == k && rec_removable(ovs[j]@, now, t) by {
            if rec_removable(ovs[i - 1]@, now, t) {
                let a = choose|a: int| 0 <= a < cur.len() && cur[a] == k;
                if a == cur.len() - 1 {
                    assert(oks[i - 1] == k && rec_removable(ovs[i - 1]@, now, t));
                } else {
                    assert(pre[a] == k);
                    assert(pre.contains(k));
                }
            }
        }
        assert forall|k: Seq<char>|
            (exists|j: int| 0 <= j < i && oks[j] == k && rec_removable(ovs[j]@, now, t))
            implies #[trigger] cur.contains(k) by {
            let j = choose|j: int| 0 <= j < i && oks[j] == k && rec_removable(ovs[j]@, now, t);
            if j == i - 1 {
                assert(cur[cur.len() - 1] == k);
            } else {
                assert(pre.contains(k));
                let a = choose|a: int| 0 <= a < pre.len() && pre[a] == k;
                if rec_removable(ovs[i - 1]@, now, t) {
                    assert(cur[a] == k);
                } else {
                    assert(cur[a] == k);
                }
            }
        }
    }
}

impl RequestManager {
    /// One full cleanup pass at the given time: force abandoned active
    /// records to `Idle`, then remove every acknowledged record and every
    /// terminal-or-idle record unpolled past the idle timeout, together
    /// with its token and callbacks.
    fn cleanup_idle_requests_at(&mut self, now: u64)
        requires
            old(self).wf(),
        ensures
            final(self).wf(),
            final(self)@ == apply_cleanup(old(self)@, now),
    {
        let ghost v0 = self@;
        let ghost oks = self.requests.key_seq();
        let ghost ovs = self.requests.val_seq();
        let ghost t = v0.idle_timeout;
        proof {
            self.requests.lemma_view_entries();
            assert(v0.requests =~= kv_rec_view(oks, ovs));
        }
        let mut to_remove: Vec<String> = Vec::new();
        let n = self.requests.len();
        let mut i: usize = 0;
        while i < n
            invariant
                self.requests.wf(),
                self.tokens.wf(),
                self.callbacks.wf(),
                self.requests.key_seq() == oks,
                n == oks.len(),
                oks.len() == ovs.len(),
                i <= n,
                self@.tokens == v0.tokens,
                self@.callbacks == v0.callbacks,
                self@.events == v0.events,
                self@.idle_timeout == v0.idle_timeout,
                self@.cleanup_interval == v0.cleanup_interval,
                self@.last_cleanup == v0.last_cleanup,
                self@.next_token == v0.next_token,
                t == v0.idle_timeout,
                v0.requests == kv_rec_view(oks, ovs),
                v0.inv(),
                forall|j: int|
                    0 <= j < i ==> #[trigger] self.requests.val_seq()[j]@ == rec_idled(
                        ovs[j]@,
                        now,
                        t,
                    ),
                forall|j: int| i <= j < n ==> #[trigger] self.requests.val_seq()[j] == ovs[j],
                to_remove@.map_values(|s: String| s@) == removable_prefix(
                    oks,
                    ovs,
                    i as int,
                    now,
                    t,
                ),
            decreases n - i,
        {
            let rec_state = self.requests.value_at(i).state;
            let last_polled = self.requests.value_at(i).last_polled;
            let since_poll = if now >= last_polled {
                now - last_polled
            } else {
                0
            };
            let over = since_poll > self.idle_timeout;
            let is_ack = match rec_state {
                RequestState::Acknowledged => true,
                _ => false,
            };
            let removable = is_ack || (over && rec_state.terminal_or_idle());
            proof {
                assert(self.requests.val_seq()[i as int] == ovs[i as int]);
                assert(rec_state == ovs[i as int]@.state);
                assert(last_polled == ovs[i as int]@.last_polled);
                assert(since_poll == sat_sub(now, ovs[i as int]@.last_polled));
                assert(self@.idle_timeout == v0.idle_timeout);
                assert(self.idle_timeout == t);
                assert(over == over_idle(ovs[i as int]@, now, t));
                assert(removable == rec_removable(ovs[i as int]@, now, t));
            }
            if removable {
                let key = self.requests.key_at(i).clone();
                to_remove.push(key);
                proof {
                    assert(to_remove@.map_values(|s: String| s@) =~= removable_prefix(
                        oks,
                        ovs,
                        i + 1,
                        now,
                        t,
                    ));
                    assert(rec_idled(ovs[i as int]@, now, t) == ovs[i as int]@);
                }
            } else {
                if over && rec_state.active() {
                    let rec = self.requests.value_at_mut(i);
                    rec.state = RequestState::Idle;
                    rec.updated_at = if now >= rec.created_at {
                        now
                    } else {
                        rec.created_at
                    };
                    proof {
                        assert(self.requests.val_seq()[i as int]@ == rec_idled(
                            ovs[i as int]@,
                            now,
                            t,
                        ));
                        assert(self@.tokens == v0.tokens);
                    }
                } else {
                    proof {
                        assert(rec_idled(ovs[i as int]@, now, t) == ovs[i as int]@);
                    }
                }
                proof {
                    assert(to_remove@.map_values(|s: String| s@) =~= removable_prefix(
                        oks,
                        ovs,
                        i + 1,
                        now,
                        t,
                    ));
                }
            }
            i = i + 1;
        }
        // All records are now idle-marked; establish the map-level picture.
        let ghost idled = Map::new(
            |k: Seq<char>| v0.requests.contains_key(k),
            |k: Seq<char>| rec_idled(v0.requests[k], now, t),
        );
        proof {
            self.requests.lemma_view_entries();
            crate::idmap::lemma_kv_dom(oks, ovs);
            lemma_removable_prefix_contains(oks, ovs, n as int, now, t);
            assert forall|k: Seq<char>| #[trigger] v0.requests.contains_key(k) implies
                self@.requests.contains_key(k) && self@.requests[k] == rec_idled(
                v0.requests[k],
                now,
                t,
            ) by {
                assert(oks.contains(k));
                let j = choose|j: int| 0 <= j < oks.len() && oks[j] == k;
                assert(self.requests.key_seq()[j] == k);
                assert(self.requests@.contains_key(self.requests.key_seq()[j]));
                assert(self.requests@[k] == self.requests.val_seq()[j]);
                assert(self@.requests[k] == self.requests.val_seq()[j]@);
                crate::idmap::lemma_kv_index(oks, ovs, j);
                assert(v0.requests[k] == ovs[j]@);
            }
            assert forall|k: Seq<char>| #[trigger] self@.requests.contains_key(k) implies
                v0.requests.contains_key(k) by {
                assert(oks.contains(k));
                let j = choose|j: int| 0 <= j < oks.len() && oks[j] == k;
                assert(v0.requests.contains_key(oks[j]));
            }
            assert(self@.requests =~= idled);
        }
        // Remove the collected ids from all three maps.
        let ghost rm = to_remove@.map_values(|s: String| s@);
        let m = to_remove.len();
        let mut j: usize = 0;
        while j < m
            invariant
                self.requests.wf(),
                self.tokens.wf(),
                self.callbacks.wf(),
                m == to_remove@.len(),
                j <= m,
                t == v0.idle_timeout,
                idled == Map::<Seq<char>, RecordView>::new(
                    |k: Seq<char>| v0.requests.contains_key(k),
                    |k: Seq<char>| rec_idled(v0.requests[k], now, t),
                ),
                rm == to_remove@.map_values(|s: String| s@),
                rm.to_set() =~= removed_ids(v0, now),
                self@.requests == idled.remove_keys(rm.take(j as int).to_set()),
                self@.tokens == v0.tokens.remove_keys(rm.take(j as int).to_set()),
                self@.callbacks == v0.callbacks.remove_keys(rm.take(j as int).to_set()),
                self@.events == v0.events,
                self@.idle_timeout == v0.idle_timeout,
                self@.cleanup_interval == v0.cleanup_interval,
                self@.last_cleanup == v0.last_cleanup,
                self@.next_token == v0.next_token,
            decreases m - j,
        {
            proof {
                rm.lemma_take_succ_push(j as int);
                rm.take(j as int).lemma_push_to_set_commute(rm[j as int]);
                assert(rm.take(j + 1).to_set() =~= rm.take(j as int).to_set().insert(
                    rm[j as int],
                ));
            }
            let id = &to_remove[j];
            let ghost prev = self@;
            proof {
                assert(id@ == rm[j as int]);
            }
            self.requests.remove(id.as_str());
            self.tokens.remove(id.as_str());
            self.callbacks.remove(id.as_str());
            proof {
                let x = rm[j as int];
                let s0 = rm.take(j as int).to_set();
                assert(self@.requests =~= prev.requests.remove(x));
                assert(self@.tokens =~= prev.tokens.remove(x));
                assert(self@.callbacks =~= prev.callbacks.remove(x));
                assert(idled.remove_keys(s0).remove(x) =~= idled.remove_keys(s0.insert(x)));
                assert(v0.tokens.remove_keys(s0).remove(x) =~= v0.tokens.remove_keys(
                    s0.insert(x),
                ));
                assert(v0.callbacks.remove_keys(s0).remove(x) =~= v0.callbacks.remove_keys(
                    s0.insert(x),
                ));
                assert(self@.requests =~= idled.remove_keys(rm.take(j + 1).to_set()));
                assert(self@.tokens =~= v0.tokens.remove_keys(rm.take(j + 1).to_set()));
                assert(self@.callbacks =~= v0.callbacks.remove_keys(rm.take(j + 1).to_set()));
            }
            j = j + 1;
        }
        proof {
            assert(rm.take(m as int) =~= rm);
            // The collected ids are exactly the removable ones.
            lemma_removable_prefix_contains(oks, ovs, n as int, now, t);
            assert(rm.to_set() =~= removed_ids(v0, now)) by {
                assert forall|k: Seq<char>| #[trigger] rm.to_set().contains(k) implies removed_ids(
                    v0,
                    now,
                ).contains(k) by {
                    let jj = choose|jj: int|
                        0 <= jj < n && oks[jj] == k && rec_removable(ovs[jj]@, now, t);
                    assert(v0.requests.contains_key(oks[jj]));
                    assert(v0.requests[oks[jj]] == ovs[jj]@);
                }
                assert forall|k: Seq<char>| #[trigger] removed_ids(v0, now).contains(k) implies rm
                    .to_set().contains(k) by {
                    assert(v0.requests.contains_key(k));
                    assert(oks.contains(k));
                    let jj = choose|jj: int| 0 <= jj < oks.len() && oks[jj] == k;
                    assert(v0.requests[oks[jj]] == ovs[jj]@);
                    assert(rec_removable(ovs[jj]@, now, t));
                    assert(rm.contains(k));
                }
            }
            assert(self@.requests =~= apply_cleanup(v0, now).requests);
            assert(self@.tokens =~= apply_cleanup(v0, now).tokens);
            assert(self@.callbacks =~= apply_cleanup(v0, now).callbacks);
            assert(self@ =~= apply_cleanup(v0, now));
            lemma_cleanup_preserves_inv(v0, now);
        }
    }

    /// Run a cleanup pass if the cleanup interval has elapsed since the
    /// last one; otherwise do nothing.
    pub fn try_cleanup_at(&mut self, now: u64)
        requires
            old(self).wf(),
        ensures
            final(self).wf(),
            final(self)@ == apply_try_cleanup(old(self)@, now),
    {
        let ghost v0 = self@;
        let since = if now >= self.last_cleanup {
            now - self.last_cleanup
        } else {
            0
        };
        if since > self.cleanup_interval {
            self.last_cleanup = now;
            let ghost v1 = self@;
            proof {
                assert(v1 =~= (ManagerView { last_cleanup: now, ..v0 }));
            }
            self.cleanup_idle_requests_at(now);
            proof {
                assert(removed_ids(v1, now) =~= removed_ids(v0, now));
                assert(apply_cleanup(v1, now).requests =~= apply_cleanup(v0, now).requests);
                assert(self@ =~= apply_try_cleanup(v0, now));
            }
        }
    }

    /// Poll the record for an id at the given time.
    ///
    /// Runs the opportunistic cleanup check first.  If the record survives,
    /// its poll time is noted, an in-flight record quiet past the
    /// inactivity limit is moved to `Timeout`, and a full snapshot is
    /// returned; an unknown (or just-reclaimed) id yields `None`.
    pub fn poll_request_at(&mut self, request_id: &str, now: u64) -> (r: Option<RequestInfo>)
        requires
            old(self).wf(),
        ensures
            final(self).wf(),
            final(self)@ == apply_poll(old(self)@, request_id@, now),
            match r {
                Some(info) => apply_try_cleanup(old(self)@, now).requests.contains_key(request_id@)
                    && info@ == polled_record(
                    apply_try_cleanup(old(self)@, now).requests[request_id@],
                    now,
                ),
                None => !apply_try_cleanup(old(self)@, now).requests.contains_key(request_id@),
            },
    {
        self.try_cleanup_at(now);
        let ghost c = self@;
        proof {
            self.requests.lemma_view_entries();
        }
        match self.requests.index_of(request_id) {
            Some(i) => {
                let rec = self.requests.value_at_mut(i);
                rec.last_polled = now;
                let in_flight = match rec.state {
                    RequestState::Sending | RequestState::Receiving => true,
                    _ => false,
                };
                let since_update = if now >= rec.updated_at {
                    now - rec.updated_at
                } else {
                    0
                };
                if in_flight && since_update > POLL_INACTIVITY_LIMIT {
                    rec.state = RequestState::Timeout;
                    rec.error = Some("Request timed out".to_owned());
                }
                let snap = self.requests.value_at(i).snapshot();
                proof {
                    assert(self@.requests =~= apply_poll(old(self)@, request_id@, now).requests);
                    assert(self@ =~= apply_poll(old(self)@, request_id@, now));
                    assert(snap@ == polled_record(c.requests[request_id@], now));
                    lemma_poll_preserves_inv(c, request_id@, now);
                }
                Some(snap)
            },
            None => {
                proof {
                    assert(!c.requests.contains_key(request_id@));
                    assert(self@ =~= apply_poll(old(self)@, request_id@, now));
                }
                None
            },
        }
    }

    /// Poll the record for an id at the current wall-clock time.
    pub fn poll_request(&mut self, request_id: &str) -> (r: Option<RequestInfo>)
        requires
            old(self).wf(),
        ensures
            final(self).wf(),
            exists|now: u64|
                {
                    &&& final(self)@ == #[trigger] apply_poll(old(self)@, request_id@, now)
                    &&& ({
                        let c = apply_try_cleanup(old(self)@, now);
                        match r {
                            Some(info) => c.requests.contains_key(request_id@) && info@
                                == polled_record(c.requests[request_id@], now),
                            None => !c.requests.contains_key(request_id@),
                        }
                    })
                },
    {
        let now = clock::timestamp_now();
        let r = self.poll_request_at(request_id, now);
        proof {
            assert(final(self)@ == apply_poll(old(self)@, request_id@, now));
        }
        r
    }
}

/// The denotation of parallel record sequences, at the view level: what
/// the manager's `requests` component is for an `IdMap` with these keys
/// and values.
pub open spec fn kv_rec_view(oks: Seq<Seq<char>>, ovs: Seq<RequestInfo>) -> Map<
    Seq<char>,
    RecordView,
> {
    crate::idmap::kv_map(oks, ovs).map_values(|r: RequestInfo| r@)
}

/// `apply_cleanup` (and hence `apply_try_cleanup`) preserves the manager
/// invariant.
pub proof fn lemma_cleanup_preserves_inv(v: ManagerView, now: u64)
    requires
        v.inv(),
    ensures
        apply_cleanup(v, now).inv(),
        apply_try_cleanup(v, now).inv(),
{
    let v2 = apply_cleanup(v, now);
    assert forall|k: Seq<char>| #[trigger] v2.requests.contains_key(k) implies v2.requests[k].wf()
        && v2.requests[k].request_id == k by {
        assert(v.requests.contains_key(k));
    }
    assert forall|k: Seq<char>| #[trigger] v2.tokens.contains_key(k) implies v2.tokens[k].token_id
        < v2.next_token by {
        assert(v.tokens.contains_key(k));
    }
    let v3 = apply_try_cleanup(v, now);
    if cleanup_due(v, now) {
        assert forall|k: Seq<char>| #[trigger] v3.requests.contains_key(k) implies v3.requests[k].wf()
            && v3.requests[k].request_id == k by {
            assert(v2.requests.contains_key(k));
        }
        assert forall|k: Seq<char>|
            #[trigger] v3.tokens.contains_key(k) implies v3.tokens[k].token_id < v3.next_token by {
            assert(v2.tokens.contains_key(k));
        }
    }
}

/// `apply_poll`'s record update preserves the manager invariant.
pub proof fn lemma_poll_preserves_inv(c: ManagerView, id: Seq<char>, now: u64)
    requires
        c.inv(),
    ensures
        (if c.requests.contains_key(id) {
            ManagerView { requests: c.requests.insert(id, polled_record(c.requests[id], now)), ..c }
        } else {
            c
        }).inv(),
{
    if c.requests.contains_key(id) {
        let v2 = ManagerView {
            requests: c.requests.insert(id, polled_record(c.requests[id], now)),
            ..c
        };
        assert forall|k: Seq<char>| #[trigger] v2.requests.contains_key(k) implies v2.requests[k].wf()
            && v2.requests[k].request_id == k by {
            if k != id {
                assert(c.requests.contains_key(k));
            }
        }
    }
}

} // verus!
