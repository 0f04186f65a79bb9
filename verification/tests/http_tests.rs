use http_server::{
    BufSource, EchoHandler, Headers, Method, QueryParam, QueryString, Response, Server,
    StatusCode, URL,
};
use http_server::strutil::{parse_u64_str, u64_to_string};

#[test]
fn header_names_are_case_insensitive_and_last_write_wins() {
    let mut h = Headers::new();
    h.add("Content-Type".to_string(), "a".to_string());
    h.add("content-type".to_string(), "b".to_string());
    assert_eq!(h.get("content-type"), Some("b"));
    // exactly one entry remains
    let mut out = String::new();
    h.send(&mut out);
    assert_eq!(out, "content-type: b");
}

#[test]
fn header_get_expects_lower_case_names() {
    let mut h = Headers::new();
    h.insert("X-Token", "t");
    assert_eq!(h.get("x-token"), Some("t"));
    assert_eq!(h.get("X-Token"), None);
    assert!(h.has("x-token"));
    assert!(!h.has("nothing"));
}

#[test]
fn content_length_parses_or_fails_soft() {
    let mut h = Headers::new();
    assert_eq!(h.content_length(), None);
    h.insert("Content-Length", "42");
    assert_eq!(h.content_length(), Some(42));
    h.insert("content-length", "abc");
    assert_eq!(h.content_length(), None);
    h.insert("content-length", "+7");
    assert_eq!(h.content_length(), Some(7));
    h.insert("content-length", "99999999999999999999999999");
    assert_eq!(h.content_length(), None);
}

#[test]
fn set_content_length_clears_chunked_marker() {
    let mut h = Headers::new();
    h.insert("Transfer-Encoding", "chunked");
    h.set_content_length(3);
    assert!(!h.has("transfer-encoding"));
    assert_eq!(h.get("content-length"), Some("3"));
}

#[test]
fn header_block_parsing_drops_bad_lines() {
    let h = Headers::from("\r\nHost: example\r\nno-separator-line\r\n: empty-key\r\nA: b: c");
    assert_eq!(h.get("host"), Some("example"));
    assert_eq!(h.get("a"), Some("b: c"));
    assert!(!h.has("no-separator-line"));
    assert!(!h.has(""));
}

#[test]
fn query_promotes_repeated_keys_in_order() {
    let q = QueryString::from("a=1&a=2&b=3");
    assert_eq!(
        q.get("a"),
        Some(&QueryParam::Multiple(vec!["1".to_string(), "2".to_string()]))
    );
    assert_eq!(q.get("b"), Some(&QueryParam::Single("3".to_string())));
    assert_eq!(q.get("c"), None);
}

#[test]
fn query_key_without_value_is_empty_single() {
    let q = QueryString::from("flag");
    assert_eq!(q.get("flag"), Some(&QueryParam::Single(String::new())));
}

#[test]
fn query_triple_repeat_keeps_order() {
    let q = QueryString::from("k=x&k=y&k=z");
    assert_eq!(
        q.get("k"),
        Some(&QueryParam::Multiple(vec![
            "x".to_string(),
            "y".to_string(),
            "z".to_string()
        ]))
    );
}

#[test]
fn query_to_string_renders_every_value() {
    let q = QueryString::from("a=1&a=2&b=3");
    let s = q.to_string();
    assert!(s.starts_with('?'));
    assert!(s.contains("a=1&"));
    assert!(s.contains("a=2&"));
    assert!(s.contains("b=3&"));
}

#[test]
fn url_splits_at_first_question_mark() {
    let url = URL::from("/path?a=1&b=2");
    assert_eq!(url.path, "/path");
    assert!(url.query.is_some());

    let plain = URL::from("/plain");
    assert_eq!(plain.path, "/plain");
    assert!(plain.query.is_none());

    let tricky = URL::from("/p?a=1?b=2");
    assert_eq!(tricky.path, "/p");
    let q = tricky.query.unwrap();
    assert_eq!(q.get("a"), Some(&QueryParam::Single("1?b=2".to_string())));
}

#[test]
fn status_codes_and_phrases() {
    assert_eq!(StatusCode::OK.code(), 200);
    assert_eq!(StatusCode::OK.phrase(), "OK");
    assert_eq!(StatusCode::NotFound.code(), 404);
    assert_eq!(StatusCode::NotFound.phrase(), "Not Found");
    assert_eq!(StatusCode::IAmATeapot.code(), 418);
    assert_eq!(StatusCode::GatewayTimeout.phrase(), "Gateway Time-out");
}

#[test]
fn decimal_round_trip() {
    assert_eq!(u64_to_string(0), "0");
    assert_eq!(u64_to_string(1024), "1024");
    assert_eq!(u64_to_string(u64::MAX), "18446744073709551615");
    assert_eq!(parse_u64_str("18446744073709551615"), Some(u64::MAX));
    assert_eq!(parse_u64_str("18446744073709551616"), None);
    assert_eq!(parse_u64_str("+123"), Some(123));
    assert_eq!(parse_u64_str("12a"), None);
    assert_eq!(parse_u64_str(""), None);
    assert_eq!(parse_u64_str("+"), None);
    assert_eq!(parse_u64_str("007"), Some(7));
}

#[test]
fn response_with_explicit_length_serializes_exactly() {
    let mut rsp = Response::string(StatusCode::OK, "hello".to_string());
    let mut out: Vec<u8> = Vec::new();
    rsp.send(&mut out);
    assert_eq!(out, b"HTTP/1.1 200 OK\r\ncontent-length: 5\r\n\r\nhello".to_vec());
}

#[test]
fn response_without_length_falls_back_to_chunked_marker() {
    let mut rsp = Response::new(StatusCode::OK).with_body(b"data".to_vec());
    let mut out: Vec<u8> = Vec::new();
    rsp.send(&mut out);
    assert_eq!(
        out,
        b"HTTP/1.1 200 OK\r\ntransfer-encoding: chunked\r\n\r\ndata\r\n\r\n".to_vec()
    );
}

#[test]
fn response_round_trips_through_a_request_parser() {
    // serialize a response with an explicit length, then reparse its pieces
    // with the same header machinery the request parser uses
    let mut rsp = Response::string(StatusCode::Created, "abc".to_string())
        .with_header("X-Mark", "y");
    let mut out: Vec<u8> = Vec::new();
    rsp.send(&mut out);
    let text = String::from_utf8(out.clone()).unwrap();
    let boundary = text.find("\r\n\r\n").unwrap();
    let (head, body) = text.split_at(boundary + 4);
    assert_eq!(body, "abc");
    let line_end = head.find('\r').unwrap();
    let mut words = head[..line_end].splitn(3, ' ');
    assert_eq!(words.next(), Some("HTTP/1.1"));
    assert_eq!(words.next(), Some("201"));
    assert_eq!(words.next(), Some("Created"));
    let reparsed = Headers::from(&head[line_end..]);
    assert_eq!(reparsed.get("content-length"), Some("3"));
    assert_eq!(reparsed.get("x-mark"), Some("y"));
}

#[test]
fn server_answers_a_get_end_to_end() {
    let srv = Server::new("127.0.0.1:8080".to_string(), EchoHandler::new());
    assert_eq!(srv.address(), "127.0.0.1:8080");
    let out = srv.handle_request(BufSource::new(b"GET /hi HTTP/1.1\r\n\r\n".to_vec()));
    let text = String::from_utf8(out).unwrap();
    assert!(text.starts_with("HTTP/1.1 200 OK\r\n"));
    assert!(text.contains("server: Really bad Rust server"));
    assert!(text.contains("x-powered-by: PHP/5.3.0"));
    assert!(text.ends_with("Echo: GET /hi"));
}

#[test]
fn server_echoes_a_post_body_end_to_end() {
    let srv = Server::new("addr".to_string(), EchoHandler::new());
    let out = srv.handle_request(BufSource::new(
        b"POST /x HTTP/1.1\r\ncontent-length: 5\r\ncontent-type: text/plain\r\n\r\nhelloEXTRA"
            .to_vec(),
    ));
    let text = String::from_utf8(out).unwrap();
    assert!(text.starts_with("HTTP/1.1 200 OK\r\n"));
    assert!(text.contains("content-length: 5"));
    assert!(text.contains("content-type: text/plain"));
    assert!(text.ends_with("\r\n\r\nhello"));
}

#[test]
fn server_answers_bad_requests_end_to_end() {
    let srv = Server::new("addr".to_string(), EchoHandler::new());
    let out = srv.handle_request(BufSource::new(b"FOO / HTTP/1.1\r\n\r\n".to_vec()));
    let text = String::from_utf8(out).unwrap();
    assert!(text.starts_with("HTTP/1.1 400 Bad Request\r\n"));
    assert!(text.ends_with("invalid HTTP method"));
}

#[test]
fn method_tokens_render() {
    assert_eq!(Method::GET.as_str(), "GET");
    assert_eq!(Method::OPTIONS.as_str(), "OPTIONS");
}
