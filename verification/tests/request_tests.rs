use http_server::{BufSource, Method, ParseError, Request};
use std::io::{BufRead, BufReader, Cursor};

#[test]
fn test_name() {
    let cur = Cursor::new(b"GET /index.html HTTP/1.1\r\nfoo");
    let mut reader = BufReader::new(cur);

    let mut buff = String::with_capacity(1024);
    reader.read_line(&mut buff).unwrap();
    println!("Result: {buff:}")
}

fn parse(bytes: &[u8]) -> Result<Request<BufSource>, ParseError> {
    Request::from_reader(BufSource::new(bytes.to_vec()))
}

fn parse_err(bytes: &[u8]) -> ParseError {
    match parse(bytes) {
        Ok(_) => panic!("expected a parse error"),
        Err(e) => e,
    }
}

#[test]
fn boundary_found_when_present() {
    let req = parse(b"GET / HTTP/1.1\r\n\r\n").unwrap();
    assert!(matches!(req.method, Method::GET));
    assert_eq!(req.path(), "/");
    assert!(req.query_string().is_none());
}

#[test]
fn boundary_missing_is_an_error() {
    let err = parse_err(b"GET / HTTP/1.1\r\n");
    assert_eq!(err, ParseError::MissingBody);
}

#[test]
fn boundary_in_empty_stream_is_missing() {
    let err = parse_err(b"");
    assert_eq!(err, ParseError::MissingBody);
}

#[test]
fn body_yields_exactly_content_length() {
    let mut req = parse(b"POST /x HTTP/1.1\r\ncontent-length: 5\r\n\r\nhelloEXTRA").unwrap();
    let body = req.read_to_end().unwrap();
    assert_eq!(body, b"hello".to_vec());
    // past its bound the body never yields more
    let more = req.read(16).unwrap();
    assert!(more.is_empty());
}

#[test]
fn body_reads_are_forward_only_chunks() {
    let mut req = parse(b"POST /x HTTP/1.1\r\ncontent-length: 5\r\n\r\nhello").unwrap();
    assert_eq!(req.read(2).unwrap(), b"he".to_vec());
    assert_eq!(req.read(16).unwrap(), b"llo".to_vec());
    assert!(req.read(16).unwrap().is_empty());
}

#[test]
fn unknown_method_is_invalid_method() {
    let err = parse_err(b"FOO /x HTTP/1.1\r\n\r\n");
    assert_eq!(err, ParseError::InvalidMethod);
}

#[test]
fn wrong_protocol_is_invalid_protocol() {
    let err = parse_err(b"GET /x HTTP/1.0\r\n\r\n");
    assert_eq!(err, ParseError::InvalidProtocol);
}

#[test]
fn two_token_request_line_is_invalid_request() {
    let err = parse_err(b"GET /x\r\n\r\n");
    assert_eq!(err, ParseError::InvalidRequest);
}

#[test]
fn post_without_content_length_is_invalid_request() {
    let err = parse_err(b"POST /x HTTP/1.1\r\n\r\n");
    assert_eq!(err, ParseError::InvalidRequest);
}

#[test]
fn non_utf8_header_block_is_invalid_encoding() {
    let err = parse_err(b"GET / HTTP/1.1\r\nx: \xff\xfe\r\n\r\n");
    assert_eq!(err, ParseError::InvalidEncoding);
}

#[test]
fn oversized_header_block_is_request_too_big() {
    let mut bytes = b"GET / HTTP/1.1\r\nx: ".to_vec();
    bytes.extend(std::iter::repeat(b'a').take(40 * 1024));
    let err = parse_err(&bytes);
    assert_eq!(err, ParseError::RequestTooBig);
}

#[test]
fn boundary_just_under_the_ceiling_parses() {
    // pad the header block so the boundary ends exactly at the ceiling
    let mut bytes = b"GET / HTTP/1.1\r\nx: ".to_vec();
    while bytes.len() < 32 * 1024 - 4 {
        bytes.push(b'a');
    }
    bytes.extend_from_slice(b"\r\n\r\n");
    assert_eq!(bytes.len(), 32 * 1024);
    let req = parse(&bytes).unwrap();
    assert_eq!(req.path(), "/");
}

#[test]
fn method_tokens_parse() {
    assert!(matches!(Method::from_str("GET"), Ok(Method::GET)));
    assert!(matches!(Method::from_str("POST"), Ok(Method::POST)));
    assert!(matches!(Method::from_str("PATCH"), Ok(Method::PATCH)));
    assert!(Method::from_str("get").is_err());
    assert!(Method::from_str("FOO").is_err());
}

#[test]
fn request_line_headers_are_parsed() {
    let req = parse(b"GET /a/b?k=v HTTP/1.1\r\nHost: example\r\nAccept: */*\r\n\r\n").unwrap();
    assert_eq!(req.path(), "/a/b");
    assert!(req.query_string().is_some());
    assert_eq!(req.headers.get("host"), Some("example"));
    assert_eq!(req.headers.get("accept"), Some("*/*"));
}

#[test]
fn parse_error_messages() {
    assert_eq!(ParseError::ReadError.message(), "failed to read request");
    assert_eq!(ParseError::InvalidRequest.message(), "invalid request");
    assert_eq!(ParseError::InvalidMethod.message(), "invalid HTTP method");
    assert_eq!(ParseError::InvalidProtocol.message(), "invalid HTTP protocol");
    assert_eq!(ParseError::InvalidEncoding.message(), "invalid encoding");
    assert_eq!(ParseError::MissingBody.message(), "missing request body");
    assert_eq!(ParseError::RequestTooBig.message(), "request too big");
}
