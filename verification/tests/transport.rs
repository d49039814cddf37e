use blitzortung_srv::transport::{
    decode_frame, decode_frame_sync, encode_frame, find_headers_end, parse_content_length,
    request_from_headers, HeaderReader, HeaderStep, MAX_BODY_BYTES, MAX_HEADER_BYTES,
};

#[test]
fn encode_round_trip() {
    let body = br#"{"jsonrpc":"2.0","id":1,"result":[]}"#;
    let frame = encode_frame(body);
    let decoded = decode_frame(&frame).expect("complete frame");
    assert_eq!(decoded.unwrap(), body);
}

#[test]
fn decode_requires_full_frame() {
    let frame = encode_frame(b"{}");
    // Cut off the last byte: not complete yet.
    assert!(decode_frame(&frame[..frame.len() - 1]).is_none());
}

#[test]
fn decode_partial_frames_accumulate() {
    let frame = encode_frame(b"hello");
    // Only the header arrives first: not complete.
    let header_len = frame.windows(4).position(|w| w == b"\r\n\r\n").unwrap() + 4;
    assert!(decode_frame(&frame[..header_len + 2]).is_none());
    // Remaining bytes complete the body.
    assert!(decode_frame(&frame).is_some());
}

#[test]
fn missing_content_length_is_error() {
    let buf = b"Foo: bar\r\n\r\n{}";
    let decoded = decode_frame(buf).expect("treated as complete for parse attempt");
    assert!(decoded.is_err());
}

#[test]
fn request_from_headers_maps_service_fields() {
    let headers = "Content-Length: 2\r\nUser-Agent: bo-android-190\r\nContent-Type: text/json\r\n\
                   X-Forwarded-For: 203.0.113.7, 10.0.0.1\r\nReferer: http://spam.example\r\n\r\n";
    let request = request_from_headers(headers, Some("10.0.0.9".to_string()));
    assert_eq!(request.user_agent.as_deref(), Some("bo-android-190"));
    assert_eq!(request.content_type.as_deref(), Some("text/json"));
    assert_eq!(request.x_forwarded_for.as_deref(), Some("203.0.113.7, 10.0.0.1"));
    assert_eq!(request.referer.as_deref(), Some("http://spam.example"));
    assert_eq!(request.client_ip.as_deref(), Some("10.0.0.9"));
}

#[test]
fn request_from_headers_without_headers_is_default() {
    let request = request_from_headers("Content-Length: 2\r\n\r\n", None);
    assert_eq!(request.user_agent, None);
    assert_eq!(request.content_type, None);
    assert_eq!(request.client_ip, None);
}

#[test]
fn a_frame_has_its_length_in_front() {
    assert_eq!(encode_frame(b"{}"), b"Content-Length: 2\r\n\r\n{}".to_vec());
    assert_eq!(encode_frame(b""), b"Content-Length: 0\r\n\r\n".to_vec());
}

#[test]
fn bytes_behind_a_frame_do_not_matter() {
    let mut buf = encode_frame(b"one");
    buf.extend_from_slice(&encode_frame(b"two"));
    assert_eq!(decode_frame_sync(&buf), Some(Ok(b"one".to_vec())));
}

#[test]
fn a_length_has_to_be_a_number_within_bounds() {
    assert_eq!(parse_content_length("content-length: 17\r\n\r\n"), Ok(17));
    assert!(parse_content_length("Content-Length: x\r\n\r\n").is_err());
    assert!(parse_content_length("Content-Length: -1\r\n\r\n").is_err());
    assert!(parse_content_length("\r\n\r\n").is_err());
    let too_large = format!("Content-Length: {}\r\n\r\n", MAX_BODY_BYTES + 1);
    assert!(matches!(decode_frame(too_large.as_bytes()), Some(Err(_))));
}

#[test]
fn headers_end_at_the_first_empty_line() {
    assert_eq!(find_headers_end(b"a: b\r\n\r\nrest\r\n\r\n"), Some(4));
    assert_eq!(find_headers_end(b"a: b\r\n"), None);
}

#[test]
fn header_reader_takes_bytes_up_to_the_empty_line() {
    let mut reader = HeaderReader::new();
    assert!(reader.end_of_stream().is_ok());
    let head = b"Content-Length: 5\r\n\r\n";
    for byte in &head[..head.len() - 1] {
        assert!(matches!(reader.push(*byte), HeaderStep::More));
    }
    assert!(reader.end_of_stream().is_err());
    assert!(matches!(reader.push(b'\n'), HeaderStep::Complete));
    let (text, length) = reader.finish().unwrap();
    assert!(text.contains("Content-Length: 5"));
    assert_eq!(length, 5);
}

#[test]
fn header_reader_refuses_endless_headers() {
    let mut reader = HeaderReader::new();
    let mut refused = false;
    for _ in 0..MAX_HEADER_BYTES + 1 {
        if matches!(reader.push(b'a'), HeaderStep::TooLarge) {
            refused = true;
        }
    }
    assert!(refused);
}
