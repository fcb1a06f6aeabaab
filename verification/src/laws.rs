//! The library's laws: properties of the manager's transitions, stated and
//! proved once over the mathematical views that every operation's contract
//! is phrased in.

use vstd::prelude::*;

use crate::events::EventView;
use crate::manager::{
    ack_allowed, apply_ack, apply_cancel, apply_chunk, apply_cleanup, apply_completed,
    apply_init, apply_try_cleanup, bump_time, cb_chunk, cb_complete, chunk_body,
    completed_record, init_allowed, over_idle, spec_should_cancel, ManagerView,
};
use crate::session::{not_found_msg, not_found_record};
use crate::state::{is_active, is_terminal, RequestState};

verus! {

/// Polling an id that was never initialized cannot find a record — the
/// cleanup check removes entries but never adds any — so `get_response`
/// returns its synthesized snapshot: state `Error`, a "not found" message,
/// and no status, headers or body.
pub proof fn lemma_poll_before_init(v: ManagerView, id: Seq<char>, now: u64)
    requires
        !v.requests.contains_key(id),
    ensures
        !apply_try_cleanup(v, now).requests.contains_key(id),
        not_found_record(id, now).state == RequestState::Error,
        not_found_record(id, now).error == Some(not_found_msg(id)),
        not_found_record(id, now).status is None,
        not_found_record(id, now).headers is None,
        not_found_record(id, now).body is None,
{
}

/// Initializing a fresh id always succeeds and yields a record in `Init`
/// with empty status, headers, body and error.
pub proof fn lemma_init_fresh(v: ManagerView, id: Seq<char>, now: u64)
    requires
        !v.requests.contains_key(id),
    ensures
        init_allowed(v, id),
        ({
            let r = apply_init(v, id, now).requests[id];
            &&& r.state == RequestState::Init
            &&& r.status is None
            &&& r.headers is None
            &&& r.body is None
            &&& r.error is None
        }),
        !spec_should_cancel(apply_init(v, id, now), id),
{
}

/// Initializing an id whose request is still active is refused; the
/// operation's contract then guarantees the manager is left untouched.
pub proof fn lemma_init_active_refused(v: ManagerView, id: Seq<char>)
    requires
        v.requests.contains_key(id),
        is_active(v.requests[id].state),
    ensures
        !init_allowed(v, id),
{
}

/// Initializing a terminal-state id succeeds, fully clears the prior
/// status, headers, body and error, and issues a token distinct from the
/// id's prior one.
pub proof fn lemma_init_reset(v: ManagerView, id: Seq<char>, now: u64)
    requires
        v.inv(),
        v.requests.contains_key(id),
        is_terminal(v.requests[id].state),
    ensures
        init_allowed(v, id),
        ({
            let r = apply_init(v, id, now).requests[id];
            &&& r.state == RequestState::Init
            &&& r.status is None
            &&& r.headers is None
            &&& r.body is None
            &&& r.error is None
            &&& r.created_at == v.requests[id].created_at
            &&& r.last_polled == now
            &&& (now >= v.requests[id].created_at ==> r.updated_at == now)
        }),
        apply_init(v, id, now).tokens[id].token_id == v.next_token,
        !spec_should_cancel(apply_init(v, id, now), id),
        v.tokens.contains_key(id) ==> apply_init(v, id, now).tokens[id].token_id != v.tokens[
            id
        ].token_id,
{
    assert(v.tokens.contains_key(id) ==> v.tokens[id].token_id < v.next_token);
}

/// Cancellation is idempotent: a second cancellation, at any later time,
/// changes nothing at all, and after the first one `should_cancel` is true
/// whenever the id has a token.
pub proof fn lemma_cancel_idempotent(v: ManagerView, id: Seq<char>, now1: u64, now2: u64)
    ensures
        apply_cancel(apply_cancel(v, id, now1), id, now2) == apply_cancel(v, id, now1),
        spec_should_cancel(apply_cancel(v, id, now1), id) == v.tokens.contains_key(id),
{
    let v1 = apply_cancel(v, id, now1);
    let v2 = apply_cancel(v1, id, now2);
    assert(v2.tokens =~= v1.tokens);
    assert(v2.requests =~= v1.requests);
    assert(v2 =~= v1);
}

/// Cancellation never overwrites a finished outcome: on a record already
/// in a terminal state only the token is set; every record is unchanged.
pub proof fn lemma_cancel_keeps_terminal(v: ManagerView, id: Seq<char>, now: u64)
    requires
        v.requests.contains_key(id),
        is_terminal(v.requests[id].state),
    ensures
        apply_cancel(v, id, now).requests == v.requests,
        apply_cancel(v, id, now).events == v.events,
        spec_should_cancel(apply_cancel(v, id, now), id) == v.tokens.contains_key(id),
{
}

/// `handle_chunk` appends rather than replaces: two chunks in a row leave
/// the body holding both, in order, and — when an `on_chunk` handler is
/// registered — record exactly two chunk events, in delivery order.
pub proof fn lemma_chunks_append(
    v: ManagerView,
    id: Seq<char>,
    d1: Seq<char>,
    d2: Seq<char>,
    n1: u64,
    n2: u64,
)
    requires
        v.requests.contains_key(id),
    ensures
        ({
            let v2 = apply_chunk(apply_chunk(v, id, d1, n1), id, d2, n2);
            &&& v2.requests[id].body == Some(chunk_body(v.requests[id].body, d1) + d2)
            &&& v2.requests[id].state == RequestState::Receiving
            &&& v2.requests[id].status == v.requests[id].status
            &&& v2.requests[id].headers == v.requests[id].headers
            &&& v2.requests[id].created_at == v.requests[id].created_at
            &&& (cb_chunk(v, id) ==> v2.events == v.events.push(EventView::Chunk(id, d1)).push(
                EventView::Chunk(id, d2),
            ))
            &&& (!cb_chunk(v, id) ==> v2.events == v.events)
        }),
{
    let v1 = apply_chunk(v, id, d1, n1);
    assert(v1.requests[id].body == Some(chunk_body(v.requests[id].body, d1)));
    assert(cb_chunk(v1, id) == cb_chunk(v, id));
}

/// `set_completed` after chunks preserves the accumulated body, moves the
/// record to `Complete` (so the outbound snapshot's `completed` flag is
/// true), and — when an `on_complete` handler is registered — records
/// exactly one completion event whose snapshot carries that same body.
pub proof fn lemma_complete_preserves_body(v: ManagerView, id: Seq<char>, now: u64)
    requires
        v.requests.contains_key(id),
    ensures
        ({
            let v2 = apply_completed(v, id, now);
            &&& v2.requests[id].body == v.requests[id].body
            &&& v2.requests[id].state == RequestState::Complete
            &&& (cb_complete(v, id) ==> v2.events == v.events.push(
                EventView::Complete(id, completed_record(v.requests[id], now)),
            ))
            &&& (cb_complete(v, id) ==> completed_record(v.requests[id], now).body == v.requests[
                id
            ].body)
            &&& (!cb_complete(v, id) ==> v2.events == v.events)
        }),
{
}

/// `acknowledge_request` fails, and mutates nothing, on an active request;
/// it succeeds on any terminal state, which then moves to `Acknowledged`.
pub proof fn lemma_ack_only_terminal(v: ManagerView, id: Seq<char>, now: u64)
    ensures
        v.requests.contains_key(id) && is_active(v.requests[id].state) ==> !ack_allowed(v, id)
            && apply_ack(v, id, now) == v,
        !v.requests.contains_key(id) ==> !ack_allowed(v, id) && apply_ack(v, id, now) == v,
        ack_allowed(v, id) ==> apply_ack(v, id, now).requests[id].state
            == RequestState::Acknowledged,
{
}

/// Idle reclamation: a cleanup pass forces an active record unpolled past
/// the idle timeout to `Idle`, and removes outright a record that is
/// already terminal (or idle) and unpolled past the idle timeout — a
/// subsequent poll then finds nothing.
pub proof fn lemma_cleanup_reclaims(v: ManagerView, id: Seq<char>, now: u64)
    requires
        v.requests.contains_key(id),
        over_idle(v.requests[id], now, v.idle_timeout),
    ensures
        is_active(v.requests[id].state) ==> ({
            let c = apply_cleanup(v, now);
            &&& c.requests.contains_key(id)
            &&& c.requests[id].state == RequestState::Idle
            &&& c.requests[id].updated_at == bump_time(v.requests[id].created_at, now)
            &&& (v.tokens.contains_key(id) ==> c.tokens.contains_key(id) && c.tokens[id]
                == v.tokens[id])
            &&& (v.callbacks.contains_key(id) ==> c.callbacks.contains_key(id) && c.callbacks[
                id
            ] == v.callbacks[id])
        }),
        is_terminal(v.requests[id].state) || v.requests[id].state == RequestState::Idle
            ==> !apply_cleanup(v, now).requests.contains_key(id),
        v.requests[id].state == RequestState::Acknowledged ==> !apply_cleanup(
            v,
            now,
        ).requests.contains_key(id),
{
}

/// A record untouched by cleanup (polled recently, or not removable)
/// survives a cleanup pass unchanged.
pub proof fn lemma_cleanup_keeps_fresh(v: ManagerView, id: Seq<char>, now: u64)
    requires
        v.requests.contains_key(id),
        !over_idle(v.requests[id], now, v.idle_timeout),
        v.requests[id].state != RequestState::Acknowledged,
    ensures
        apply_cleanup(v, now).requests.contains_key(id),
        apply_cleanup(v, now).requests[id] == v.requests[id],
{
}

} // verus!
