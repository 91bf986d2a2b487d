use pool_server::conn::{headers_complete, respond};
use pool_server::parser::{parse_request, ParseError};
use pool_server::response::{bad_request_response, response_for};

const BAD: &[u8] = b"HTTP/1.1 400 Bad Request\r\nContent-Length: 0\r\n\r\n";

#[test]
fn parse_basic_request() {
    let input = b"GET /hello HTTP/1.1\r\nHost: x\r\n\r\n".to_vec();
    let req = parse_request(&input).unwrap();
    assert_eq!(req.method, b"GET".to_vec());
    assert_eq!(req.path, b"/hello".to_vec());
    assert_eq!(req.version, b"HTTP/1.1".to_vec());
    assert_eq!(req.headers, vec![(b"Host".to_vec(), b"x".to_vec())]);
    assert!(req.body.is_none());
}

#[test]
fn parse_extra_tokens_ignored() {
    let input = b"GET /x HTTP/1.1 extra junk\r\n\r\n".to_vec();
    let req = parse_request(&input).unwrap();
    assert_eq!(req.method, b"GET".to_vec());
    assert_eq!(req.path, b"/x".to_vec());
    assert_eq!(req.version, b"HTTP/1.1".to_vec());
    assert!(req.headers.is_empty());
}

#[test]
fn parse_short_request_line() {
    let input = b"GET /x\r\n\r\n".to_vec();
    assert_eq!(parse_request(&input), Err(ParseError::InvalidRequestLine));
    assert_eq!(response_for(&input), BAD.to_vec());
}

#[test]
fn parse_single_token_line() {
    let input = b"BADREQUEST\r\n\r\n".to_vec();
    assert_eq!(parse_request(&input), Err(ParseError::InvalidRequestLine));
}

#[test]
fn parse_colonless_header_fails_fast() {
    let input = b"GET / HTTP/1.1\r\nGood: a\r\nAlso-Good: b\r\nbadline\r\n\r\n".to_vec();
    assert_eq!(parse_request(&input), Err(ParseError::InvalidHeader));
    assert_eq!(response_for(&input), BAD.to_vec());
}

#[test]
fn parse_empty_input() {
    let input = Vec::new();
    assert_eq!(parse_request(&input), Err(ParseError::IncompleteRequest));
    assert_eq!(response_for(&input), BAD.to_vec());
}

#[test]
fn parse_header_trimming() {
    let input = b"GET / HTTP/1.1\r\n  Name \t:  v a l  \r\n\r\n".to_vec();
    let req = parse_request(&input).unwrap();
    assert_eq!(req.headers, vec![(b"Name".to_vec(), b"v a l".to_vec())]);
}

#[test]
fn parse_header_splits_at_first_colon() {
    let input = b"GET / HTTP/1.1\r\nHost: a:b:c\r\n\r\n".to_vec();
    let req = parse_request(&input).unwrap();
    assert_eq!(req.headers, vec![(b"Host".to_vec(), b"a:b:c".to_vec())]);
}

#[test]
fn parse_body_rejoined_with_newlines() {
    let input = b"POST /p HTTP/1.1\r\nA: b\r\n\r\nline1\r\nline2".to_vec();
    let req = parse_request(&input).unwrap();
    assert_eq!(req.body, Some(b"line1\nline2".to_vec()));
}

#[test]
fn parse_empty_body_is_absent() {
    let input = b"GET / HTTP/1.1\r\nA: b\r\n\r\n".to_vec();
    let req = parse_request(&input).unwrap();
    assert!(req.body.is_none());
}

#[test]
fn respond_ok_scenario() {
    let input = b"GET /hello HTTP/1.1\r\nHost: x\r\n\r\n".to_vec();
    // Content-Length is the fixed arithmetic len(method) + len(path) + 10,
    // here 3 + 6 + 10, not a recount of the serialized body.
    let expected =
        b"HTTP/1.1 200 OK\r\nContent-Type: text/plain\r\nContent-Length: 19\r\n\r\nMethod: GET, Path: /hello"
            .to_vec();
    assert_eq!(respond(&input), expected);
}

#[test]
fn respond_bad_scenario() {
    let input = b"BADREQUEST\r\n\r\n".to_vec();
    assert_eq!(respond(&input), BAD.to_vec());
}

#[test]
fn respond_three_digit_content_length() {
    let path = vec![b'/'; 90];
    let mut input = b"GET ".to_vec();
    input.extend_from_slice(&path);
    input.extend_from_slice(b" HTTP/1.1\r\n\r\n");
    let mut expected =
        b"HTTP/1.1 200 OK\r\nContent-Type: text/plain\r\nContent-Length: 103\r\n\r\nMethod: GET, Path: "
            .to_vec();
    expected.extend_from_slice(&path);
    assert_eq!(respond(&input), expected);
}

#[test]
fn respond_replaces_invalid_bytes() {
    // 0xff is not valid UTF-8: the lossy decode turns it into the
    // three-byte replacement character, which both the echoed path and
    // the declared Content-Length must reflect.
    let mut input = b"GET /".to_vec();
    input.push(0xff);
    input.extend_from_slice(b"path HTTP/1.1\r\n\r\n");
    let mut expected =
        b"HTTP/1.1 200 OK\r\nContent-Type: text/plain\r\nContent-Length: 21\r\n\r\nMethod: GET, Path: /"
            .to_vec();
    expected.extend_from_slice(&[0xef, 0xbf, 0xbd]);
    expected.extend_from_slice(b"path");
    assert_eq!(respond(&input), expected);
}

#[test]
fn framing_detects_terminator() {
    assert!(!headers_complete(&Vec::new()));
    assert!(!headers_complete(&b"GET / HTTP/1.1\r\nHost".to_vec()));
    assert!(!headers_complete(&b"\r\n\r".to_vec()));
    assert!(headers_complete(&b"\r\n\r\n".to_vec()));
    assert!(headers_complete(&b"GET / HTTP/1.1\r\nHost: x\r\n\r\n".to_vec()));
    assert!(headers_complete(&b"abc\r\n\r\ntrailing".to_vec()));
}

#[test]
fn incomplete_framing_gets_bare_400() {
    // A connection that closes before CRLFCRLF ever arrives is
    // answered with the fixed 400 and nothing else.
    let partial = b"GET / HTTP/1.1\r\nHost: x".to_vec();
    assert!(!headers_complete(&partial));
    assert_eq!(bad_request_response(), BAD.to_vec());
}
