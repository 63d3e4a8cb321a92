//! Tests of the head parser: round trips, incremental feeding, and the
//! error taxonomy.

use hyper::error::HttpError;
use hyper::method::Method;
use hyper::parse::parse_request;
use hyper::parse::parse_response;
use hyper::uri::RequestUri;
use hyper::version::HttpVersion;

#[test]
fn test_parse_incoming() {
    let raw = b"GET /echo HTTP/1.1\r\nHost: hyper.rs\r\n\r\n";
    let (head, consumed) = parse_request(raw).unwrap().unwrap();
    assert_eq!(consumed, raw.len());
    assert_eq!(head.subject.0, Method::Get);
    assert_eq!(head.subject.1, RequestUri::AbsolutePath(b"/echo".to_vec()));
    assert_eq!(head.version, HttpVersion::Http11);
    assert_eq!(head.headers.len(), 1);
    assert_eq!(head.headers.name_at(0).as_slice(), b"Host");
    assert_eq!(head.headers.value_at(0).as_slice(), b"hyper.rs");
}

#[test]
fn test_parse_raw_status() {
    let (head, _) = parse_response(b"HTTP/1.1 200 OK\r\n\r\n").unwrap().unwrap();
    assert_eq!(head.subject.1, b"OK".to_vec());

    let (head, _) = parse_response(b"HTTP/1.1 200 Howdy\r\n\r\n").unwrap().unwrap();
    assert_eq!(head.subject.1, b"Howdy".to_vec());
}

#[test]
fn test_parse_empty_buffer_incomplete() {
    assert!(parse_request(b"").unwrap().is_none());
}

#[test]
fn test_parse_incremental_single_byte_splits() {
    // any split of a valid head parses as incomplete, then completes
    // with the same result as a single parse over the whole head
    let raw = b"POST /echo HTTP/1.1\r\nHost: x\r\nContent-Length: 5\r\n\r\n";
    let (whole, consumed) = parse_request(raw).unwrap().unwrap();
    assert_eq!(consumed, raw.len());
    for cut in 0..raw.len() {
        assert!(
            parse_request(&raw[..cut]).unwrap().is_none(),
            "cut at {} should be incomplete",
            cut
        );
    }
    let (again, n2) = parse_request(raw).unwrap().unwrap();
    assert_eq!(n2, consumed);
    assert_eq!(again.subject.0, whole.subject.0);
    assert_eq!(again.subject.1, whole.subject.1);
}

#[test]
fn test_parse_consumed_is_first_body_byte() {
    let raw = b"PUT /up HTTP/1.0\r\nA: b\r\n\r\nBODYBYTES";
    let (head, consumed) = parse_request(raw).unwrap().unwrap();
    assert_eq!(&raw[consumed..], b"BODYBYTES");
    assert_eq!(head.version, HttpVersion::Http10);
    assert_eq!(head.headers.value_at(0).as_slice(), b"b");
}

#[test]
fn test_parse_method_error() {
    // an unknown method token is rejected once the space is seen
    assert_eq!(parse_request(b"GLORB / HTTP/1.1\r\n\r\n").unwrap_err(), HttpError::Method);
    // a byte no token can hold is rejected at once
    assert_eq!(parse_request(b"G\x01T / HTTP/1.1\r\n\r\n").unwrap_err(), HttpError::Method);
    // an empty method is rejected
    assert_eq!(parse_request(b" / HTTP/1.1\r\n\r\n").unwrap_err(), HttpError::Method);
}

#[test]
fn test_parse_uri_error() {
    assert_eq!(parse_request(b"GET  HTTP/1.1\r\n\r\n").unwrap_err(), HttpError::Uri);
}

#[test]
fn test_parse_version_error() {
    assert_eq!(parse_request(b"GET / HTTP/2.0\r\n\r\n").unwrap_err(), HttpError::Version);
    assert_eq!(parse_request(b"GET / PLAIN\r\n\r\n").unwrap_err(), HttpError::Version);
    assert_eq!(parse_request(b"GET / HTTP/1.1X\r\n\r\n").unwrap_err(), HttpError::Version);
}

#[test]
fn test_parse_header_error() {
    // a stray byte where a header name must stand
    assert_eq!(
        parse_request(b"GET / HTTP/1.1\r\n\x01: x\r\n\r\n").unwrap_err(),
        HttpError::Header
    );
    // an empty header name
    assert_eq!(parse_request(b"GET / HTTP/1.1\r\n: x\r\n\r\n").unwrap_err(), HttpError::Header);
}

#[test]
fn test_parse_too_many_headers() {
    let mut raw: Vec<u8> = b"GET / HTTP/1.1\r\n".to_vec();
    for i in 0..101 {
        raw.extend_from_slice(format!("H{}: v\r\n", i).as_bytes());
    }
    raw.extend_from_slice(b"\r\n");
    assert_eq!(parse_request(&raw).unwrap_err(), HttpError::Header);
}

#[test]
fn test_parse_header_values() {
    // whitespace around values is dropped; duplicates stay in order
    let raw = b"GET / HTTP/1.1\r\nA:  padded value \r\nA: second\r\n\r\n";
    let (head, _) = parse_request(raw).unwrap().unwrap();
    assert_eq!(head.headers.len(), 2);
    assert_eq!(head.headers.value_at(0).as_slice(), b"padded value");
    assert_eq!(head.headers.value_at(1).as_slice(), b"second");
}

#[test]
fn test_parse_uri_forms() {
    let (head, _) = parse_request(b"OPTIONS * HTTP/1.1\r\n\r\n").unwrap().unwrap();
    assert_eq!(head.subject.1, RequestUri::Star);
    let (head, _) =
        parse_request(b"GET http://a/b HTTP/1.1\r\n\r\n").unwrap().unwrap();
    assert_eq!(head.subject.1, RequestUri::AbsoluteUri(b"http://a/b".to_vec()));
    let (head, _) = parse_request(b"CONNECT a:443 HTTP/1.1\r\n\r\n").unwrap().unwrap();
    assert_eq!(head.subject.1, RequestUri::Authority(b"a:443".to_vec()));
}

#[test]
fn test_parse_response_no_reason() {
    let (head, consumed) = parse_response(b"HTTP/1.0 204\r\n\r\n").unwrap().unwrap();
    assert_eq!(head.subject.0, 204);
    assert_eq!(head.subject.1, Vec::<u8>::new());
    assert_eq!(head.version, HttpVersion::Http10);
    assert_eq!(consumed, 16);
}
