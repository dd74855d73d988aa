use tiny_http_response::common::{Header, HTTPVersion, StatusCode};
use tiny_http_response::response::Response;
use tiny_http_response::stream::VecSink;

fn serialize<R: tiny_http_response::stream::BodySource>(
    response: Response<R>,
    version: HTTPVersion,
    request_headers: &[Header],
    do_not_send_body: bool,
    upgrade: Option<&str>,
) -> Vec<u8> {
    let mut sink = VecSink::new();
    response
        .raw_print(&mut sink, version, request_headers, do_not_send_body, upgrade)
        .unwrap();
    sink.into_bytes()
}

fn find_sub(haystack: &[u8], needle: &[u8]) -> Option<usize> {
    if needle.is_empty() || haystack.len() < needle.len() {
        return None;
    }
    (0..=haystack.len() - needle.len()).find(|&i| &haystack[i..i + needle.len()] == needle)
}

fn count_occurrences(haystack: &[u8], needle: &[u8]) -> usize {
    if needle.is_empty() || haystack.len() < needle.len() {
        return 0;
    }
    (0..=haystack.len() - needle.len()).filter(|&i| &haystack[i..i + needle.len()] == needle).count()
}

/// The body: everything after the first blank line.
fn body_of(output: &[u8]) -> &[u8] {
    let i = find_sub(output, b"\r\n\r\n").expect("no blank line");
    &output[i + 4..]
}

#[test]
fn string_response_end_to_end() {
    let response = Response::from_string("ok".to_string());
    let out = serialize(response, HTTPVersion(1, 1), &[], false, None);
    assert!(out.starts_with(b"HTTP/1.1 200 OK\r\n"));
    assert!(find_sub(&out, b"Content-Type: text/plain; charset=UTF-8\r\n").is_some());
    assert!(find_sub(&out, b"Content-Length: 2\r\n").is_some());
    assert!(find_sub(&out, b"Date: ").is_some());
    assert!(find_sub(&out, b"Server: ").is_some());
    assert_eq!(body_of(&out), b"ok");
}

#[test]
fn duplicate_headers_kept_in_order() {
    let response = Response::from_data(b"x".to_vec())
        .with_header(Header::new(b"X-Count".to_vec(), b"one".to_vec()))
        .with_header(Header::new(b"X-Count".to_vec(), b"one".to_vec()));
    let out = serialize(response, HTTPVersion(1, 1), &[], false, None);
    assert_eq!(count_occurrences(&out, b"X-Count: one\r\n"), 2);
}

#[test]
fn forbidden_connection_header_never_appears() {
    let response = Response::from_data(b"x".to_vec())
        .with_header(Header::new(b"Connection".to_vec(), b"close".to_vec()));
    let out = serialize(response, HTTPVersion(1, 1), &[], false, None);
    assert_eq!(find_sub(&out, b"Connection"), None);
    assert_eq!(find_sub(&out, b"close"), None);
}

#[test]
fn forbidden_headers_dropped_whatever_the_case() {
    let response = Response::from_data(b"x".to_vec())
        .with_header(Header::new(b"transfer-encoding".to_vec(), b"gzip".to_vec()))
        .with_header(Header::new(b"UPGRADE".to_vec(), b"h2c".to_vec()))
        .with_header(Header::new(b"Trailer".to_vec(), b"Expires".to_vec()));
    let out = serialize(response, HTTPVersion(1, 1), &[], false, None);
    assert_eq!(find_sub(&out, b"gzip"), None);
    assert_eq!(find_sub(&out, b"h2c"), None);
    assert_eq!(find_sub(&out, b"Expires"), None);
}

#[test]
fn content_length_header_sets_declared_length() {
    // The header is folded into the declared length: only the synthesized
    // Content-Length remains, and the body is cut to the declared length.
    let response = Response::from_data(b"hello world".to_vec())
        .with_header(Header::new(b"Content-Length".to_vec(), b"5".to_vec()));
    let out = serialize(response, HTTPVersion(1, 1), &[], false, None);
    assert_eq!(count_occurrences(&out, b"Content-Length:"), 1);
    assert!(find_sub(&out, b"Content-Length: 5\r\n").is_some());
    assert_eq!(body_of(&out), b"hello");
}

#[test]
fn malformed_content_length_is_ignored() {
    let response = Response::from_data(b"hi".to_vec())
        .with_header(Header::new(b"Content-Length".to_vec(), b"12abc".to_vec()));
    let out = serialize(response, HTTPVersion(1, 1), &[], false, None);
    assert!(find_sub(&out, b"Content-Length: 2\r\n").is_some());
    assert_eq!(body_of(&out), b"hi");
}

#[test]
fn suppressing_statuses_emit_no_body() {
    for status in [100u16, 101, 150, 199, 204, 304] {
        let response = Response::from_data(b"should not appear".to_vec())
            .with_status_code(StatusCode(status));
        let out = serialize(response, HTTPVersion(1, 1), &[], false, None);
        assert_eq!(body_of(&out), b"", "status {status} leaked a body");
        assert_eq!(find_sub(&out, b"appear"), None);
    }
}

#[test]
fn force_no_body_suppresses_the_body() {
    let response = Response::from_data(b"head request".to_vec());
    let out = serialize(response, HTTPVersion(1, 1), &[], true, None);
    assert!(find_sub(&out, b"Content-Length: 12\r\n").is_some());
    assert_eq!(body_of(&out), b"");
}

#[test]
fn upgrade_emits_switching_headers_and_no_framing() {
    let response = Response::new_empty(StatusCode(101));
    let out = serialize(response, HTTPVersion(1, 1), &[], false, Some("websocket"));
    assert!(out.starts_with(b"HTTP/1.1 101 Switching Protocols\r\n"));
    let connection = find_sub(&out, b"Connection: upgrade\r\n").expect("no Connection header");
    let upgrade = find_sub(&out, b"Upgrade: websocket\r\n").expect("no Upgrade header");
    assert!(connection < upgrade, "Connection must come before Upgrade");
    assert_eq!(find_sub(&out, b"Content-Length"), None);
    assert_eq!(find_sub(&out, b"Transfer-Encoding"), None);
    assert_eq!(body_of(&out), b"");
}

#[test]
fn large_body_is_chunked() {
    let body: Vec<u8> = vec![b'a'; 40_000];
    let response = Response::from_data(body);
    let out = serialize(response, HTTPVersion(1, 1), &[], false, None);
    assert!(find_sub(&out, b"Transfer-Encoding: chunked\r\n").is_some());
    assert_eq!(find_sub(&out, b"Content-Length"), None);
    assert!(out.ends_with(b"0\r\n\r\n"));
}

#[test]
fn client_preference_chunked_is_honoured() {
    let te = Header::new(b"TE".to_vec(), b"chunked".to_vec());
    let response = Response::from_data(b"tiny".to_vec());
    let out = serialize(response, HTTPVersion(1, 1), &[te], false, None);
    assert!(find_sub(&out, b"Transfer-Encoding: chunked\r\n").is_some());
    assert!(out.ends_with(b"4\r\ntiny\r\n0\r\n\r\n"));
}

#[test]
fn http_1_0_request_gets_identity() {
    let te = Header::new(b"TE".to_vec(), b"chunked".to_vec());
    let response = Response::from_data(b"tiny".to_vec());
    let out = serialize(response, HTTPVersion(1, 0), &[te], false, None);
    assert!(out.starts_with(b"HTTP/1.0 200 OK\r\n"));
    assert!(find_sub(&out, b"Content-Length: 4\r\n").is_some());
    assert_eq!(body_of(&out), b"tiny");
}

#[test]
fn caller_date_header_is_kept() {
    let response = Response::from_data(b"x".to_vec())
        .with_header(Header::new(b"Date".to_vec(), b"yesterday".to_vec()));
    let out = serialize(response, HTTPVersion(1, 1), &[], false, None);
    assert_eq!(count_occurrences(&out, b"Date:"), 1);
    assert!(find_sub(&out, b"Date: yesterday\r\n").is_some());
}

#[test]
fn empty_response_clone_matches() {
    let original = Response::new_empty(StatusCode(404))
        .with_header(Header::new(b"X-Reason".to_vec(), b"missing".to_vec()));
    let copy = original.clone();
    let out1 = serialize(original, HTTPVersion(1, 1), &[], false, None);
    let out2 = serialize(copy, HTTPVersion(1, 1), &[], false, None);
    // Identical but possibly for the Date stamp.
    assert_eq!(out1.len(), out2.len());
    assert!(out1.starts_with(b"HTTP/1.1 404 Not Found\r\n"));
    assert!(find_sub(&out2, b"X-Reason: missing\r\n").is_some());
}

#[test]
fn new_applies_policy_to_given_and_additional_headers() {
    let headers = vec![
        Header::new(b"X-One".to_vec(), b"1".to_vec()),
        Header::new(b"Connection".to_vec(), b"close".to_vec()),
    ];
    let additional = vec![Header::new(b"X-Two".to_vec(), b"2".to_vec())];
    let response = Response::new(
        StatusCode(200),
        headers,
        tiny_http_response::stream::MemSource::new(b"ab".to_vec()),
        Some(2),
        Some(additional),
    );
    let out = serialize(response, HTTPVersion(1, 1), &[], false, None);
    let one = find_sub(&out, b"X-One: 1\r\n").expect("missing X-One");
    let two = find_sub(&out, b"X-Two: 2\r\n").expect("missing X-Two");
    assert!(one < two);
    assert_eq!(find_sub(&out, b"close"), None);
    assert_eq!(body_of(&out), b"ab");
}

#[test]
fn with_data_replaces_the_body() {
    let response = Response::from_string("old".to_string());
    let response =
        response.with_data(tiny_http_response::stream::MemSource::new(b"newer".to_vec()), Some(5));
    let out = serialize(response, HTTPVersion(1, 1), &[], false, None);
    assert!(find_sub(&out, b"Content-Length: 5\r\n").is_some());
    assert_eq!(body_of(&out), b"newer");
}
