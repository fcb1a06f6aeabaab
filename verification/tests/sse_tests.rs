use avante_curl::sse::{parse_event, SseDecoder};

#[test]
fn parse_event_extracts_type_and_data() {
    let r = parse_event("event: message\ndata: hello");
    assert_eq!(r, Some(("message".to_string(), "hello".to_string())));
}

#[test]
fn parse_event_joins_multiple_data_lines() {
    let r = parse_event("data: one\ndata: two\ndata: three");
    assert_eq!(r, Some(("".to_string(), "one\ntwo\nthree".to_string())));
}

#[test]
fn parse_event_without_data_yields_nothing() {
    assert_eq!(parse_event("event: ping"), None);
    assert_eq!(parse_event(""), None);
    assert_eq!(parse_event("\n\n"), None);
    assert_eq!(parse_event("comment line"), None);
}

#[test]
fn parse_event_trims_whitespace() {
    let r = parse_event("  event:  typed  \n  data:   padded  ");
    assert_eq!(r, Some(("typed".to_string(), "padded".to_string())));
}

#[test]
fn decoder_yields_one_event_for_complete_message() {
    let mut d = SseDecoder::new();
    let events = d.feed(b"data: foo\n\n");
    assert_eq!(events, vec!["foo".to_string()]);
}

#[test]
fn decoder_buffers_boundary_spanning_reads() {
    let mut d = SseDecoder::new();
    let first = d.feed(b"data: f");
    assert!(first.is_empty());
    let second = d.feed(b"oo\n\n");
    assert_eq!(second, vec!["foo".to_string()]);
}

#[test]
fn decoder_handles_data_lines_and_blank_line_flushes() {
    let mut d = SseDecoder::new();
    let events = d.feed(b"data: a\ndata: b\n\n");
    assert_eq!(events, vec!["a".to_string(), "b".to_string()]);
}

#[test]
fn decoder_flushes_plain_span_on_blank_line() {
    let mut d = SseDecoder::new();
    let events = d.feed(b"hello\n\n");
    assert_eq!(events, vec!["hello".to_string()]);
}

#[test]
fn decoder_keeps_remainder_for_next_read() {
    let mut d = SseDecoder::new();
    let events = d.feed(b"data: one\n\ndata: tw");
    assert_eq!(events, vec!["one".to_string()]);
    let events = d.feed(b"o\n\n");
    assert_eq!(events, vec!["two".to_string()]);
}

#[test]
fn decoder_ignores_non_data_single_lines() {
    let mut d = SseDecoder::new();
    let events = d.feed(b"event: ping\ndata: pong\n\n");
    assert_eq!(events, vec!["pong".to_string()]);
}

#[test]
fn decode_text_chunk_accepts_utf8_and_drops_invalid() {
    let decoded = SseDecoder::decode_text_chunk("caf\u{e9}".as_bytes());
    assert_eq!(decoded, Some("caf\u{e9}".to_string()));
    assert_eq!(SseDecoder::decode_text_chunk(&[0xff, 0xfe]), None);
}

#[test]
fn decoder_split_at_a_blank_line_differs_from_one_read() {
    // The scanner decides boundaries per read: a blank line whose two
    // newlines arrive in different reads is not seen as a flush, because
    // the first read already consumed its final newline as a line ending.
    let mut combined = SseDecoder::new();
    assert_eq!(combined.feed(b"a\n\nx"), vec!["a".to_string()]);

    let mut split = SseDecoder::new();
    assert!(split.feed(b"a\n").is_empty());
    assert!(split.feed(b"\nx").is_empty());
}

#[test]
fn decoder_split_mid_line_matches_one_read() {
    let mut combined = SseDecoder::new();
    let all = combined.feed(b"data: one\ndata: two\n\n");

    let mut split = SseDecoder::new();
    let mut events = split.feed(b"data: one\ndata: t");
    events.extend(split.feed(b"wo\n\n"));
    assert_eq!(events, all);
    assert_eq!(all, vec!["one".to_string(), "two".to_string()]);
}
