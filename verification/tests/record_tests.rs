use avante_curl::record::{RequestInfo, ResponseInfo};
use avante_curl::state::RequestState;

#[test]
fn state_labels_are_lower_case_names() {
    let cases = [
        (RequestState::Init, "init"),
        (RequestState::Sending, "sending"),
        (RequestState::Receiving, "receiving"),
        (RequestState::Complete, "complete"),
        (RequestState::Error, "error"),
        (RequestState::Timeout, "timeout"),
        (RequestState::Cancelled, "cancelled"),
        (RequestState::Idle, "idle"),
        (RequestState::Acknowledged, "acknowledged"),
    ];
    for (state, want) in cases.iter() {
        assert_eq!(state.label(), want.to_string());
    }
}

#[test]
fn state_classification() {
    assert!(RequestState::Init.active());
    assert!(RequestState::Sending.active());
    assert!(RequestState::Receiving.active());
    assert!(!RequestState::Complete.active());

    assert!(RequestState::Complete.terminal());
    assert!(RequestState::Error.terminal());
    assert!(RequestState::Timeout.terminal());
    assert!(RequestState::Cancelled.terminal());
    assert!(!RequestState::Idle.terminal());
    assert!(!RequestState::Acknowledged.terminal());

    assert!(RequestState::Idle.terminal_or_idle());
    assert!(RequestState::Complete.terminal_or_idle());
    assert!(!RequestState::Acknowledged.terminal_or_idle());
    assert!(!RequestState::Receiving.terminal_or_idle());
}

#[test]
fn snapshot_copies_every_field() {
    let info = RequestInfo {
        request_id: "r1".to_string(),
        state: RequestState::Receiving,
        status: Some(206),
        headers: Some(vec![("a".to_string(), "b".to_string())]),
        body: Some("partial".to_string()),
        error: None,
        last_polled: 3,
        created_at: 1,
        updated_at: 2,
    };
    let copy = info.snapshot();
    assert_eq!(copy.request_id, info.request_id);
    assert_eq!(copy.state, info.state);
    assert_eq!(copy.status, info.status);
    assert_eq!(copy.headers, info.headers);
    assert_eq!(copy.body, info.body);
    assert_eq!(copy.error, info.error);
    assert_eq!(copy.last_polled, info.last_polled);
    assert_eq!(copy.created_at, info.created_at);
    assert_eq!(copy.updated_at, info.updated_at);
}

#[test]
fn of_record_sets_completed_only_for_complete() {
    let mut info = RequestInfo::fresh("r1".to_string(), 5);
    assert!(!ResponseInfo::of_record(&info).completed);
    info.state = RequestState::Complete;
    assert!(ResponseInfo::of_record(&info).completed);
    info.state = RequestState::Error;
    assert!(!ResponseInfo::of_record(&info).completed);
}

#[test]
fn fresh_record_has_empty_fields_and_matching_timestamps() {
    let info = RequestInfo::fresh("fresh".to_string(), 42);
    assert_eq!(info.request_id, "fresh");
    assert_eq!(info.state, RequestState::Init);
    assert!(info.status.is_none());
    assert!(info.headers.is_none());
    assert!(info.body.is_none());
    assert!(info.error.is_none());
    assert_eq!(info.created_at, 42);
    assert_eq!(info.updated_at, 42);
    assert_eq!(info.last_polled, 42);
}
