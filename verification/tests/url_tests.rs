use avante_curl::error::AvanteCurlError;
use avante_curl::urlq::add_query_params;

#[test]
fn add_query_params_appends_pairs() {
    let params = vec![
        ("param1".to_string(), "value1".to_string()),
        ("param2".to_string(), "value2".to_string()),
    ];
    let url = add_query_params("https://example.com/get", &params).unwrap();
    assert_eq!(url, "https://example.com/get?param1=value1&param2=value2");
}

#[test]
fn add_query_params_keeps_existing_query() {
    let params = vec![("lang".to_string(), "rust".to_string())];
    let url = add_query_params("https://example.com/?keep=me", &params).unwrap();
    assert_eq!(url, "https://example.com/?keep=me&lang=rust");
}

#[test]
fn add_query_params_normalizes_the_url() {
    let params = vec![("a".to_string(), "b".to_string())];
    let url = add_query_params("HTTPS://EXAMPLE.com", &params).unwrap();
    assert_eq!(url, "https://example.com/?a=b");
}

#[test]
fn add_query_params_percent_encodes_values() {
    let params = vec![("q".to_string(), "a b&c".to_string())];
    let url = add_query_params("https://example.com/", &params).unwrap();
    assert_eq!(url, "https://example.com/?q=a+b%26c");
}

#[test]
fn add_query_params_rejects_invalid_url() {
    let err = add_query_params("not a url", &Vec::new()).unwrap_err();
    match err {
        AvanteCurlError::InvalidConfig(msg) => {
            assert!(msg.starts_with("Invalid URL: "));
        }
        _ => panic!("expected an invalid-configuration error"),
    }
}
