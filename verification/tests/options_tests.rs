use avante_curl::error::AvanteCurlError;
use avante_curl::options::{
    resolve_client_config, resolve_method, scan_raw_args, HttpMethod, HttpVersionChoice,
    RedirectPolicy, RequestOptions,
};

#[test]
fn resolve_method_accepts_all_supported_methods() {
    let cases = [
        ("GET", HttpMethod::Get),
        ("POST", HttpMethod::Post),
        ("PUT", HttpMethod::Put),
        ("DELETE", HttpMethod::Delete),
        ("HEAD", HttpMethod::Head),
        ("OPTIONS", HttpMethod::Options),
        ("PATCH", HttpMethod::Patch),
    ];
    for (name, want) in cases.iter() {
        let got = resolve_method(&Some(name.to_string())).unwrap();
        assert_eq!(got, *want);
    }
    assert_eq!(resolve_method(&None).unwrap(), HttpMethod::Get);
}

#[test]
fn resolve_method_rejects_unknown_method() {
    let err = resolve_method(&Some("FETCH".to_string())).unwrap_err();
    assert_eq!(
        err,
        AvanteCurlError::InvalidConfig("Unsupported HTTP method: FETCH".to_string())
    );
    assert_eq!(
        err.message(),
        "Invalid configuration: Unsupported HTTP method: FETCH".to_string()
    );
}

#[test]
fn resolve_client_config_defaults() {
    let options = RequestOptions::default();
    let c = resolve_client_config(&options).unwrap();
    assert_eq!(c.timeout_secs, 60);
    assert_eq!(c.redirect, RedirectPolicy::Automatic);
    assert!(!c.accept_invalid_certs);
    assert!(c.compression);
    assert!(c.proxy.is_none());
    assert_eq!(c.http_version, HttpVersionChoice::Automatic);
}

#[test]
fn resolve_client_config_honours_options() {
    let mut options = RequestOptions::default();
    options.timeout = Some(30);
    options.follow_redirects = Some(true);
    options.insecure = Some(true);
    options.compressed = Some(false);
    options.proxy = Some("http://proxy.example:8080".to_string());
    options.http_version = Some("2".to_string());

    let c = resolve_client_config(&options).unwrap();
    assert_eq!(c.timeout_secs, 30);
    assert_eq!(c.redirect, RedirectPolicy::Limited(10));
    assert!(c.accept_invalid_certs);
    assert!(!c.compression);
    assert_eq!(c.proxy, Some("http://proxy.example:8080".to_string()));
    assert_eq!(c.http_version, HttpVersionChoice::Http2PriorKnowledge);

    options.follow_redirects = Some(false);
    options.http_version = Some("1.1".to_string());
    let c = resolve_client_config(&options).unwrap();
    assert_eq!(c.redirect, RedirectPolicy::NoFollow);
    assert_eq!(c.http_version, HttpVersionChoice::Http1Only);
}

#[test]
fn resolve_client_config_rejects_unknown_http_version() {
    let mut options = RequestOptions::default();
    options.http_version = Some("3".to_string());
    let err = resolve_client_config(&options).unwrap_err();
    assert_eq!(
        err,
        AvanteCurlError::InvalidConfig("Unsupported HTTP version: 3".to_string())
    );
}

#[test]
fn scan_raw_args_collects_headers_and_data() {
    let args = vec![
        "-H".to_string(),
        "X-Test: value".to_string(),
        "--silent".to_string(),
        "-d".to_string(),
        "payload".to_string(),
    ];
    let r = scan_raw_args(&args);
    assert_eq!(r.headers, vec![("X-Test".to_string(), "value".to_string())]);
    assert_eq!(r.body, Some("payload".to_string()));
}

#[test]
fn scan_raw_args_last_data_wins_and_bad_headers_are_skipped() {
    let args = vec![
        "-d".to_string(),
        "first".to_string(),
        "--data".to_string(),
        "second".to_string(),
        "--header".to_string(),
        "no-colon-here".to_string(),
        "-H".to_string(),
        " : empty-name".to_string(),
    ];
    let r = scan_raw_args(&args);
    assert!(r.headers.is_empty());
    assert_eq!(r.body, Some("second".to_string()));
}

#[test]
fn scan_raw_args_ignores_trailing_flag_without_value() {
    let args = vec!["-H".to_string()];
    let r = scan_raw_args(&args);
    assert!(r.headers.is_empty());
    assert!(r.body.is_none());
}

#[test]
fn error_messages_render_each_variant() {
    assert_eq!(
        AvanteCurlError::HttpError("refused".to_string()).message(),
        "HTTP error: refused"
    );
    assert_eq!(
        AvanteCurlError::IoError("missing".to_string()).message(),
        "I/O error: missing"
    );
    assert_eq!(
        AvanteCurlError::JsonError("bad token".to_string()).message(),
        "JSON error: bad token"
    );
    assert_eq!(AvanteCurlError::Cancelled.message(), "Request was cancelled");
    assert_eq!(AvanteCurlError::Timeout.message(), "Request timed out");
    assert_eq!(
        AvanteCurlError::SessionError("gone".to_string()).message(),
        "Session error: gone"
    );
    assert_eq!(AvanteCurlError::Other("misc".to_string()).message(), "misc");
}
