use avante_curl::events::CallbackEvent;
use avante_curl::manager::RequestManager;
use avante_curl::record::ResponseInfo;
use avante_curl::session::Session;
use avante_curl::state::RequestState;

#[test]
fn test_session_creation() {
    let mut session = Session::new();

    let request_id = "test_request_123";
    let cancel_flag = session.init_request(request_id);
    assert!(cancel_flag.is_ok());

    let response = session.get_response(request_id);
    assert_eq!(response.request_id, request_id);
    assert!(!ResponseInfo::of_record(&response).completed);
    assert!(response.error.is_none());

    assert!(!session.should_cancel(request_id));
    session.cancel_request(request_id);
    assert!(session.should_cancel(request_id));

    let headers = vec![("Content-Type".to_string(), "application/json".to_string())];
    session.set_response(request_id, 200, headers, "Test body");

    let response = session.get_response(request_id);
    assert_eq!(response.status, Some(200));
    assert_eq!(response.body, Some("Test body".to_string()));

    session.set_completed(request_id);
    let response = session.get_response(request_id);
    assert!(ResponseInfo::of_record(&response).completed);
}

#[test]
fn test_stream_handler() {
    let mut session = Session::new();
    let request_id = "test_stream_123";
    session.init_request(request_id).unwrap();

    session.set_callbacks(request_id, true, false, false);

    assert!(session.handle_stream_event(request_id, "chunk1"));
    assert!(session.handle_stream_event(request_id, "chunk2"));
    assert!(session.handle_stream_event(request_id, "chunk3"));

    let received = session.take_events();
    assert_eq!(received.len(), 3);
    let expected = ["chunk1", "chunk2", "chunk3"];
    for (event, want) in received.iter().zip(expected.iter()) {
        match event {
            CallbackEvent::Chunk(id, data) => {
                assert_eq!(id, request_id);
                assert_eq!(data, want);
            }
            _ => panic!("expected a chunk event"),
        }
    }
}

#[test]
fn poll_before_init_returns_not_found_error() {
    let mut session = Session::new();
    let response = session.get_response("never_created");
    assert_eq!(response.state, RequestState::Error);
    assert_eq!(response.error, Some("Request 'never_created' not found".to_string()));
    assert!(response.status.is_none());
    assert!(response.headers.is_none());
    assert!(response.body.is_none());
    assert!(!ResponseInfo::of_record(&response).completed);
}

#[test]
fn init_fresh_id_yields_empty_init_record() {
    let mut mgr = RequestManager::new();
    mgr.init_request_at("r1", 7).unwrap();
    let info = mgr.poll_request_at("r1", 8).unwrap();
    assert_eq!(info.state, RequestState::Init);
    assert!(info.status.is_none());
    assert!(info.headers.is_none());
    assert!(info.body.is_none());
    assert!(info.error.is_none());
    assert_eq!(info.created_at, 7);
}

#[test]
fn init_while_active_fails_and_leaves_record_untouched() {
    let mut mgr = RequestManager::new();
    mgr.init_request_at("r1", 7).unwrap();
    mgr.handle_chunk_at("r1", "partial", 8);

    let err = mgr.init_request_at("r1", 9).unwrap_err();
    assert_eq!(
        err,
        "Request 'r1' is already in progress with state: receiving".to_string()
    );

    let info = mgr.poll_request_at("r1", 9).unwrap();
    assert_eq!(info.state, RequestState::Receiving);
    assert_eq!(info.body, Some("partial".to_string()));
    assert_eq!(info.updated_at, 8);
}

#[test]
fn init_on_terminal_id_resets_and_issues_distinct_token() {
    let mut mgr = RequestManager::new();
    let tok1 = mgr.init_request_at("r1", 1).unwrap();
    mgr.set_response_at("r1", 200, vec![("k".to_string(), "v".to_string())], "body", 2);
    mgr.set_error_at("r1", "boom", 3);

    let tok2 = mgr.init_request_at("r1", 4).unwrap();
    assert_ne!(tok1.token_id, tok2.token_id);

    let info = mgr.poll_request_at("r1", 5).unwrap();
    assert_eq!(info.state, RequestState::Init);
    assert!(info.status.is_none());
    assert!(info.headers.is_none());
    assert!(info.body.is_none());
    assert!(info.error.is_none());
    assert_eq!(info.created_at, 1);
}

#[test]
fn cancel_request_is_idempotent() {
    let mut mgr = RequestManager::new();
    mgr.init_request_at("r1", 1).unwrap();

    mgr.cancel_request_at("r1", 2);
    let once = mgr.poll_request_at("r1", 3).unwrap();
    mgr.cancel_request_at("r1", 2);
    let twice = mgr.poll_request_at("r1", 3).unwrap();

    assert_eq!(once.state, twice.state);
    assert_eq!(once.error, twice.error);
    assert_eq!(once.updated_at, twice.updated_at);
    assert_eq!(once.state, RequestState::Cancelled);
    assert_eq!(once.error, Some("cancelled".to_string()));
    assert!(mgr.should_cancel("r1"));
}

#[test]
fn cancel_never_overwrites_a_finished_outcome() {
    let mut mgr = RequestManager::new();
    mgr.init_request_at("r1", 1).unwrap();
    mgr.handle_chunk_at("r1", "done", 2);
    mgr.set_completed_at("r1", 3);

    mgr.cancel_request_at("r1", 4);

    let info = mgr.poll_request_at("r1", 5).unwrap();
    assert_eq!(info.state, RequestState::Complete);
    assert!(info.error.is_none());
    assert_eq!(info.body, Some("done".to_string()));
    // The token is still set, so a stale executor stops cooperating.
    assert!(mgr.should_cancel("r1"));
}

#[test]
fn init_on_idle_id_is_refused_until_reclaimed() {
    let mut mgr = RequestManager::with_config(2, 1);
    mgr.init_request_at("r1", 1).unwrap();

    // Unpolled past the idle timeout: the cleanup pass forces it to Idle.
    let info = mgr.poll_request_at("r1", 10).unwrap();
    assert_eq!(info.state, RequestState::Idle);

    // An idle record is not terminal, so re-initialization is refused.
    let err = mgr.init_request_at("r1", 11).unwrap_err();
    assert_eq!(
        err,
        "Request 'r1' is already in progress with state: idle".to_string()
    );

    // The next cleanup pass removes the idle record, freeing the id.
    assert!(mgr.poll_request_at("r1", 20).is_none());
    assert!(mgr.init_request_at("r1", 21).is_ok());
}

#[test]
fn handle_chunk_appends_and_fires_handlers_in_order() {
    let mut mgr = RequestManager::new();
    mgr.init_request_at("r1", 1).unwrap();
    mgr.set_callbacks("r1", true, false, false);

    assert!(mgr.handle_chunk_at("r1", "a", 2));
    assert!(mgr.handle_chunk_at("r1", "b", 3));

    let info = mgr.poll_request_at("r1", 4).unwrap();
    assert_eq!(info.body, Some("ab".to_string()));

    let events = mgr.take_events();
    assert_eq!(events.len(), 2);
    match &events[0] {
        CallbackEvent::Chunk(_, data) => assert_eq!(data, "a"),
        _ => panic!("expected a chunk event"),
    }
    match &events[1] {
        CallbackEvent::Chunk(_, data) => assert_eq!(data, "b"),
        _ => panic!("expected a chunk event"),
    }
}

#[test]
fn handle_chunk_unknown_id_returns_false() {
    let mut mgr = RequestManager::new();
    assert!(!mgr.handle_chunk_at("missing", "a", 1));
}

#[test]
fn set_completed_preserves_body_and_snapshots_once() {
    let mut mgr = RequestManager::new();
    mgr.init_request_at("r1", 1).unwrap();
    mgr.set_callbacks("r1", false, true, false);
    mgr.handle_chunk_at("r1", "hello", 2);
    mgr.handle_chunk_at("r1", " world", 3);
    mgr.set_completed_at("r1", 4);

    let info = mgr.poll_request_at("r1", 5).unwrap();
    assert_eq!(info.state, RequestState::Complete);
    assert_eq!(info.body, Some("hello world".to_string()));
    assert!(ResponseInfo::of_record(&info).completed);

    let events = mgr.take_events();
    assert_eq!(events.len(), 1);
    match &events[0] {
        CallbackEvent::Complete(id, snap) => {
            assert_eq!(id, "r1");
            assert_eq!(snap.body, Some("hello world".to_string()));
            assert_eq!(snap.state, RequestState::Complete);
        }
        _ => panic!("expected a completion event"),
    }
}

#[test]
fn acknowledge_fails_on_active_and_succeeds_on_terminal() {
    let mut mgr = RequestManager::new();
    mgr.init_request_at("r1", 1).unwrap();
    assert!(!mgr.acknowledge_request_at("r1", 2));
    let info = mgr.poll_request_at("r1", 2).unwrap();
    assert_eq!(info.state, RequestState::Init);

    mgr.set_error_at("r1", "boom", 3);
    assert!(mgr.acknowledge_request_at("r1", 4));
    let info = mgr.poll_request_at("r1", 5).unwrap();
    assert_eq!(info.state, RequestState::Acknowledged);

    assert!(!mgr.acknowledge_request_at("missing", 6));
}

#[test]
fn poll_marks_quiet_in_flight_request_timed_out() {
    let mut mgr = RequestManager::new();
    mgr.init_request_at("r1", 1).unwrap();
    mgr.handle_chunk_at("r1", "x", 10);

    let info = mgr.poll_request_at("r1", 40).unwrap();
    assert_eq!(info.state, RequestState::Receiving);

    let info = mgr.poll_request_at("r1", 72).unwrap();
    assert_eq!(info.state, RequestState::Timeout);
    assert_eq!(info.error, Some("Request timed out".to_string()));
}

#[test]
fn cleanup_idles_abandoned_and_removes_terminal_records() {
    let mut mgr = RequestManager::with_config(5, 2);
    mgr.init_request_at("active", 1).unwrap();
    mgr.init_request_at("finished", 1).unwrap();
    mgr.set_completed_at("finished", 2);

    // Both records were last polled at time 1; at time 10 the cleanup pass
    // runs: the active one is forced to Idle, the terminal one is removed.
    let info = mgr.poll_request_at("active", 10).unwrap();
    assert_eq!(info.state, RequestState::Idle);
    assert!(mgr.poll_request_at("finished", 10).is_none());
}

#[test]
fn set_error_on_unknown_id_is_a_no_op() {
    let mut mgr = RequestManager::new();
    mgr.set_callbacks("ghost", false, false, true);
    mgr.set_error_at("ghost", "boom", 1);

    assert!(mgr.poll_request_at("ghost", 2).is_none());
    assert!(mgr.take_events().is_empty());
}

#[test]
fn set_error_records_message_and_event() {
    let mut mgr = RequestManager::new();
    mgr.init_request_at("r1", 1).unwrap();
    mgr.set_callbacks("r1", false, false, true);
    mgr.set_error_at("r1", "connection refused", 2);

    let info = mgr.poll_request_at("r1", 3).unwrap();
    assert_eq!(info.state, RequestState::Error);
    assert_eq!(info.error, Some("connection refused".to_string()));

    let events = mgr.take_events();
    assert_eq!(events.len(), 1);
    match &events[0] {
        CallbackEvent::ErrorMsg(id, msg) => {
            assert_eq!(id, "r1");
            assert_eq!(msg, "connection refused");
        }
        _ => panic!("expected an error event"),
    }
}

#[test]
fn end_to_end_request_lifecycle() {
    let mut session = Session::new();
    session.init_request("r1").unwrap();
    session.set_response(
        "r1",
        200,
        vec![("content-type".to_string(), "text/plain".to_string())],
        "",
    );
    session.handle_stream_event("r1", "hello");
    session.handle_stream_event("r1", " world");
    session.set_completed("r1");

    let info = session.get_response("r1");
    let snapshot = ResponseInfo::of_record(&info);
    assert_eq!(snapshot.status, Some(200));
    assert_eq!(snapshot.body, Some("hello world".to_string()));
    assert!(snapshot.completed);
    assert!(snapshot.error.is_none());
    assert_eq!(
        snapshot.headers,
        Some(vec![("content-type".to_string(), "text/plain".to_string())])
    );
}

#[test]
fn sessions_are_isolated() {
    let mut a = Session::new();
    let mut b = Session::new();
    a.init_request("shared_id").unwrap();
    a.set_completed("shared_id");

    let in_b = b.get_response("shared_id");
    assert_eq!(in_b.state, RequestState::Error);

    // The same id value is free in the other session.
    assert!(b.init_request("shared_id").is_ok());
}
