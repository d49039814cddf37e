use std::io::Read;

use blitzortung_srv::http::{
    accept, bad_request, build_response, choose_body, encode_body, header_value, percent_decode,
    percent_decode_bytes, query_param, raw_query_param, respond, wants_keep_alive, Handling,
    HttpError, HttpRequest, RequestHead, COMPRESSION_THRESHOLD, MAX_HEADER_BYTES,
};
use blitzortung_srv::request::Request;

fn gunzip(bytes: &[u8]) -> Vec<u8> {
    let mut decoder = flate2::read::GzDecoder::new(bytes);
    let mut decoded = Vec::new();
    decoder.read_to_end(&mut decoded).unwrap();
    decoded
}

fn text(bytes: Vec<u8>) -> String {
    String::from_utf8(bytes).unwrap()
}

fn read(lines: &[&str], body: &[u8]) -> Result<HttpRequest, HttpError> {
    let mut head = RequestHead::start(lines[0])?;
    for line in &lines[1..] {
        if head.push_line(line)? {
            break;
        }
    }
    head.content_length()?;
    Ok(head.finish(body.to_vec()))
}

#[test]
fn decodes_percent_encoded_query() {
    assert_eq!(percent_decode("a%20b+c"), "a b c");
    assert_eq!(percent_decode("no-encoding"), "no-encoding");
    assert_eq!(percent_decode("%7B%22x%22%3A1%7D"), "{\"x\":1}");
}

#[test]
fn extracts_query_parameters() {
    let q = "request=%7B%7D&callback=cb";
    assert_eq!(query_param(q, "request").as_deref(), Some("{}"));
    assert_eq!(query_param(q, "callback").as_deref(), Some("cb"));
    assert_eq!(query_param(q, "missing"), None);
}

#[test]
fn keep_alive_follows_http_version_and_connection_header() {
    let base = |version: &str, connection: Option<&str>| HttpRequest {
        method: "POST".into(),
        path: "/".into(),
        version: version.into(),
        headers: connection.map(|c| format!("Connection: {c}\r\n")).unwrap_or_default(),
        query: String::new(),
        body: Vec::new(),
    };
    assert!(wants_keep_alive(&base("HTTP/1.1", None)));
    assert!(!wants_keep_alive(&base("HTTP/1.0", None)));
    assert!(!wants_keep_alive(&base("HTTP/1.1", Some("close"))));
    assert!(wants_keep_alive(&base("HTTP/1.0", Some("keep-alive"))));
}

#[test]
fn response_has_valid_http_status_and_headers() {
    let body = br#"{"jsonrpc":"2.0","id":1,"result":null}"#;
    let response = build_response("200 OK", "application/json", body, None, true, true);
    let text = String::from_utf8(response).unwrap();
    assert!(text.starts_with("HTTP/1.1 200 OK\r\n"), "{text}");
    assert!(text.contains("Content-Type: application/json\r\n"));
    assert!(!text.contains("Content-Encoding"));
    assert!(text.contains(&format!("Content-Length: {}\r\n", body.len())));
    assert!(text.contains("Connection: keep-alive\r\n"));
    assert!(text.ends_with("result\":null}"));
}

#[test]
fn head_response_omits_body_but_keeps_length() {
    let body = b"12345";
    let response = build_response("200 OK", "application/json", body, None, true, false);
    let text = String::from_utf8(response).unwrap();
    assert!(text.contains("Content-Length: 5\r\n"));
    assert!(text.ends_with("\r\n\r\n"));
}

#[test]
fn encode_body_applies_gzip_only_when_requested_and_large() {
    let large = vec![b'x'; COMPRESSION_THRESHOLD];
    let (encoding, body) = encode_body(large.clone(), true);
    assert_eq!(encoding, Some("gzip"));
    assert!(body.len() < large.len());

    // Small bodies stay uncompressed even when gzip is accepted.
    let (encoding, body) = encode_body(b"{}".to_vec(), true);
    assert_eq!(encoding, None);
    assert_eq!(body, b"{}");

    // Clients that did not advertise gzip never get it.
    let (encoding, body) = encode_body(large.clone(), false);
    assert_eq!(encoding, None);
    assert_eq!(body, large);
}

#[test]
fn gzip_payload_round_trips() {
    let large = vec![b'a'; 4096];
    let (encoding, compressed) = encode_body(large.clone(), true);
    assert_eq!(encoding, Some("gzip"));
    assert_eq!(gunzip(&compressed), large);
}

#[test]
fn response_declares_content_encoding_when_compressed() {
    let body = b"compressed";
    let response = build_response("200 OK", "application/json", body, Some("gzip"), true, true);
    let text = String::from_utf8(response).unwrap();
    assert!(text.contains("Content-Encoding: gzip\r\n"), "{text}");
    assert!(text.contains(&format!("Content-Length: {}\r\n", body.len())));
}

#[test]
fn a_head_response_is_the_start_of_the_full_response() {
    let full = build_response("200 OK", "text/plain", b"12345", None, false, true);
    let head = build_response("200 OK", "text/plain", b"12345", None, false, false);
    assert_eq!(full[..head.len()], head[..]);
    assert_eq!(&full[head.len()..], b"12345");
    assert!(text(full).contains("Connection: close\r\n"));
}

#[test]
fn every_byte_survives_percent_encoding() {
    let bytes: Vec<u8> = (0u8..=255).collect();
    let encoded: String = bytes.iter().map(|b| format!("%{b:02X}")).collect();
    assert_eq!(percent_decode_bytes(encoded.as_bytes()), bytes);
}

#[test]
fn broken_escapes_stay() {
    assert_eq!(percent_decode("100%"), "100%");
    assert_eq!(percent_decode("%zz"), "%zz");
    assert_eq!(percent_decode("%4"), "%4");
    assert_eq!(percent_decode("%+A"), "% A");
    assert_eq!(percent_decode("%-A"), "%-A");
    assert_eq!(raw_query_param("a=%20&b", "a").as_deref(), Some("%20"));
}

#[test]
fn bytes_that_are_no_text_are_replaced() {
    assert_eq!(percent_decode("%FF"), "\u{FFFD}");
}

#[test]
fn headers_are_found_in_any_case() {
    let headers = "Host: a\r\ncontent-TYPE:  text/json \r\n";
    assert_eq!(header_value(headers, "Content-Type").as_deref(), Some("text/json"));
    assert_eq!(header_value(headers, "Accept"), None);
}

#[test]
fn requests_are_read_line_by_line() {
    let request = read(
        &["POST /rpc?x=1 HTTP/1.1\r\n", "Host: a\r\n", "Content-Length: 2\r\n", "\r\n"],
        b"{}",
    )
    .unwrap();
    assert_eq!(request.method, "POST");
    assert_eq!(request.path, "/rpc");
    assert_eq!(request.query, "x=1");
    assert_eq!(request.version, "HTTP/1.1");
    assert_eq!(request.body, b"{}");
}

#[test]
fn unreadable_requests_have_an_error() {
    assert!(matches!(RequestHead::start(""), Err(HttpError::Eof)));
    assert!(matches!(RequestHead::start("\r\n"), Err(HttpError::Bad(_))));
    assert!(matches!(RequestHead::start("GET\r\n"), Err(HttpError::Bad(_))));
    let mut head = RequestHead::start("GET / HTTP/1.1\r\n").unwrap();
    let long = format!("X: {}\r\n", "a".repeat(MAX_HEADER_BYTES));
    assert!(matches!(head.push_line(&long), Err(HttpError::Bad(_))));
    let bad = read(&["POST / HTTP/1.1\r\n", "Content-Length: x\r\n", "\r\n"], b"");
    assert!(matches!(bad, Err(HttpError::Bad(_))));
}

#[test]
fn a_posted_body_is_dispatched_and_answered() {
    let request = read(
        &[
            "POST / HTTP/1.1\r\n",
            "User-Agent: bo-android-190\r\n",
            "Content-Type: text/json\r\n",
            "Content-Length: 2\r\n",
            "\r\n",
        ],
        b"{}",
    )
    .unwrap();
    match accept(&request, Some("5.6.7.8".to_string())) {
        Handling::Dispatch(exchange, request) => {
            assert_eq!(exchange.content, "{}");
            assert!(exchange.keep_alive);
            assert_eq!(request.user_agent.as_deref(), Some("bo-android-190"));
            assert_eq!(request.client_ip.as_deref(), Some("5.6.7.8"));
            let response = text(respond(&exchange, "[1]", &request));
            assert!(response.starts_with("HTTP/1.1 200 OK\r\n"));
            assert!(response.ends_with("\r\n\r\n[1]"));
        }
        Handling::Reject { .. } => panic!("rejected"),
    }
}

#[test]
fn a_callback_wraps_the_answer() {
    let request = read(
        &["GET /?request=%7B%7D&callback=cb HTTP/1.1\r\n", "\r\n"],
        b"",
    )
    .unwrap();
    match accept(&request, None) {
        Handling::Dispatch(exchange, request) => {
            assert_eq!(exchange.content, "{}");
            assert_eq!(exchange.callback.as_deref(), Some("cb"));
            let response = text(respond(&exchange, "[1]", &request));
            assert!(response.contains("cb([1])"), "{response}");
        }
        Handling::Reject { .. } => panic!("rejected"),
    }
}

#[test]
fn other_methods_are_rejected() {
    let request = read(&["DELETE / HTTP/1.1\r\n", "\r\n"], b"").unwrap();
    match accept(&request, None) {
        Handling::Reject { response, .. } => {
            assert!(text(response).starts_with("HTTP/1.1 405 "));
        }
        Handling::Dispatch(_, _) => panic!("dispatched"),
    }
}

#[test]
fn a_bad_request_closes_the_connection() {
    let response = text(bad_request("broken"));
    assert!(response.starts_with("HTTP/1.1 400 Bad Request\r\n"));
    assert!(response.contains("Connection: close\r\n"));
    assert!(response.contains("broken"));
}

#[test]
fn a_compressed_body_is_used_where_there_is_one() {
    assert_eq!(choose_body(vec![1], None), (None, vec![1]));
    assert_eq!(choose_body(vec![1], Some(vec![2])), (Some("gzip"), vec![2]));
}

#[test]
fn large_answers_are_compressed_for_those_who_accept_it() {
    let request = read(
        &["POST / HTTP/1.1\r\n", "Accept-Encoding: gzip\r\n", "Content-Length: 2\r\n", "\r\n"],
        b"{}",
    )
    .unwrap();
    let Handling::Dispatch(exchange, request) = accept(&request, None) else {
        panic!("rejected");
    };
    let document = "x".repeat(5000);
    let response = respond(&exchange, &document, &request);
    let end = response.windows(4).position(|w| w == b"\r\n\r\n").unwrap() + 4;
    assert!(String::from_utf8_lossy(&response[..end]).contains("Content-Encoding: gzip\r\n"));
    assert_eq!(gunzip(&response[end..]), document.as_bytes());
    let plain = Request { accept_encoding_removed: true, ..request };
    let response = respond(&exchange, &document, &plain);
    assert!(response.ends_with(document.as_bytes()));
}
