//! End-to-end tests: the connection engine, the response lifecycle, and
//! the keep-alive policy.

use std::sync::Arc;
use std::sync::atomic::AtomicUsize;
use std::sync::atomic::Ordering;

use hyper::conn::Conn;
use hyper::conn::State;
use hyper::date::UtcTime;
use hyper::date::format_http_date;
use hyper::date::now_utc;
use hyper::headers::Headers;
use hyper::message::should_keep_alive;
use hyper::message::should_have_response_body;
use hyper::method::Method;
use hyper::request::Request;
use hyper::response::Response;
use hyper::server_conn;
use hyper::transfer::transfer;
use hyper::transport::Lease;
use hyper::transport::Lend;
use hyper::transport::Transport;
use hyper::uri::RequestUri;
use hyper::version::HttpVersion;

/// The scenario handler: answers GETs of `/` and `/echo` with a fixed
/// chunked body, echoes POSTs of `/echo` with a sized body, and hands
/// anything else a 404 with no body.
struct Echo {
    calls: AtomicUsize,
}

impl Echo {
    fn new() -> Echo {
        Echo { calls: AtomicUsize::new(0) }
    }
}

impl server_conn::Handler for Echo {
    fn handle(&self, req: Request, mut res: Response) -> Lease {
        self.calls.fetch_add(1, Ordering::Relaxed);
        match req.uri {
            RequestUri::AbsolutePath(ref path) => {
                match (&req.method, path.as_slice()) {
                    (&Method::Get, b"/") | (&Method::Get, b"/echo") => {
                        let mut s = res.start();
                        s.write(b"Try POST /echo");
                        s.end()
                    }
                    (&Method::Post, b"/echo") => res.send(b"hello").end(),
                    _ => {
                        *res.status_mut() = 404;
                        res.finish()
                    }
                }
            }
            _ => res.finish(),
        }
    }
}

type EchoConn = Conn<server_conn::Conn<Echo>>;

fn echo_conn() -> EchoConn {
    Conn::new(Transport::new(), server_conn::Conn::new(Arc::new(Echo::new())))
}

/// Drains whatever the connection has queued outbound, wherever the
/// transport sits, and says whether it is closed.
fn drain(conn: &mut EchoConn) -> (Vec<u8>, bool) {
    match &mut conn.lend {
        Lend::Owned(t) => (t.take_out(), t.is_closed()),
        Lend::Lent => match conn.handler.returned.as_mut() {
            Some(t) => (t.take_out(), t.is_closed()),
            None => (Vec::new(), false),
        },
    }
}

fn lines(buf: &[u8]) -> Vec<String> {
    let s = String::from_utf8(buf.to_vec()).unwrap();
    s.split_terminator("\r\n").map(|p| p.to_string()).collect()
}

fn is_date_line(line: &str) -> bool {
    // Date: Sun, 06 Nov 1994 08:49:37 GMT
    line.starts_with("Date: ") && line.len() == 6 + 29 && line.ends_with(" GMT")
}

#[test]
fn test_get_echo_chunked() {
    // a GET of /echo comes back 200 with a chunked fixed body
    let mut conn = echo_conn();
    conn.on_data(b"GET /echo HTTP/1.1\r\nHost: x\r\n\r\n");
    let (out, closed) = drain(&mut conn);
    assert!(!closed);
    let text = String::from_utf8(out.clone()).unwrap();
    let head_end = text.find("\r\n\r\n").unwrap();
    let head = lines(&out[..head_end + 4]);
    assert_eq!(head[0], "HTTP/1.1 200 OK");
    assert!(is_date_line(&head[1]), "bad date line: {}", head[1]);
    assert_eq!(head[2], "Transfer-Encoding: chunked");
    assert_eq!(&text[head_end + 4..], "E\r\nTry POST /echo\r\n0\r\n\r\n");
}

#[test]
fn test_unknown_path_not_found() {
    // a GET of an unknown path comes back 404 with an empty sized body
    let mut conn = echo_conn();
    conn.on_data(b"GET /nope HTTP/1.1\r\n\r\n");
    let (out, _) = drain(&mut conn);
    let text = String::from_utf8(out).unwrap();
    assert!(text.starts_with("HTTP/1.1 404 Not Found\r\n"), "got: {}", text);
    assert!(text.contains("\r\nContent-Length: 0\r\n"), "got: {}", text);
    assert!(!text.contains("chunked"), "got: {}", text);
}

#[test]
fn test_post_echo_sized() {
    // a POST with a body comes back sized: exactly the body, no framing
    let mut conn = echo_conn();
    conn.on_data(b"POST /echo HTTP/1.1\r\nContent-Length: 5\r\n\r\nhello");
    let (out, closed) = drain(&mut conn);
    assert!(!closed);
    let text = String::from_utf8(out).unwrap();
    assert!(text.starts_with("HTTP/1.1 200 OK\r\n"), "got: {}", text);
    assert!(text.contains("\r\nContent-Length: 5\r\n"), "got: {}", text);
    assert!(!text.contains("chunked"), "got: {}", text);
    assert!(text.ends_with("\r\n\r\nhello"), "got: {}", text);
}

#[test]
fn test_malformed_request_bad_request() {
    // an unknown method is answered 400 and the connection closes
    let mut conn = echo_conn();
    conn.on_data(b"GLORB / HTTP/1.1\r\n\r\n");
    let (out, closed) = drain(&mut conn);
    assert!(closed);
    let text = String::from_utf8(out).unwrap();
    assert!(text.starts_with("HTTP/1.1 400 Bad Request\r\n"), "got: {}", text);
    assert!(text.contains("\r\nConnection: close\r\n"), "got: {}", text);
    assert!(matches!(conn.state, State::Closed));
}

#[test]
fn test_oversize_head_payload_too_large() {
    // a head past the buffer bound is answered 413 and the connection closes
    let mut conn = echo_conn();
    let mut raw: Vec<u8> = b"GET / HTTP/1.1\r\nX: ".to_vec();
    raw.extend_from_slice(&vec![97u8; 500_000]);
    conn.on_data(&raw);
    let (out, closed) = drain(&mut conn);
    assert!(closed);
    let text = String::from_utf8(out).unwrap();
    assert!(text.starts_with("HTTP/1.1 413 Payload Too Large\r\n"), "got: {}", text);
    assert!(matches!(conn.state, State::Closed));
}

#[test]
fn test_keep_alive_pipeline() {
    // two well-formed GETs back to back on one connection: the second
    // handler runs only after the first response is finished
    let mut conn = echo_conn();
    let first = b"GET /echo HTTP/1.1\r\nHost: x\r\n\r\n".to_vec();
    let mut both = first.clone();
    both.extend_from_slice(b"GET /nope HTTP/1.1\r\nHost: x\r\n\r\n");
    conn.on_data(&both);
    assert_eq!(conn.handler.handler.calls.load(Ordering::Relaxed), 1);
    let (out1, closed1) = drain(&mut conn);
    assert!(!closed1);
    assert!(String::from_utf8(out1).unwrap().starts_with("HTTP/1.1 200 OK\r\n"));
    // the next event claims the finished response and parses the
    // buffered second request
    conn.on_data(b"");
    assert_eq!(conn.handler.handler.calls.load(Ordering::Relaxed), 2);
    let (out2, _) = drain(&mut conn);
    assert!(String::from_utf8(out2).unwrap().starts_with("HTTP/1.1 404 Not Found\r\n"));
}

#[test]
fn test_incremental_delivery() {
    // a head split across many events parses once it is whole
    let mut conn = echo_conn();
    let raw = b"GET /echo HTTP/1.1\r\nHost: x\r\n\r\n";
    for b in raw.iter() {
        conn.on_data(&[*b]);
    }
    assert_eq!(conn.handler.handler.calls.load(Ordering::Relaxed), 1);
    let (out, _) = drain(&mut conn);
    assert!(String::from_utf8(out).unwrap().starts_with("HTTP/1.1 200 OK\r\n"));
}

#[test]
fn test_closed_connection_ignores_events() {
    let mut conn = echo_conn();
    conn.on_data(b"GLORB / HTTP/1.1\r\n\r\n");
    assert!(matches!(conn.state, State::Closed));
    drain(&mut conn);
    conn.on_data(b"GET / HTTP/1.1\r\n\r\n");
    let (out, _) = drain(&mut conn);
    assert_eq!(out, Vec::<u8>::new());
}

struct Accepting;

impl server_conn::Handler for Accepting {
    fn handle(&self, _req: Request, res: Response) -> Lease {
        res.start().end()
    }
}

struct Reject;

impl server_conn::Handler for Reject {
    fn handle(&self, _req: Request, res: Response) -> Lease {
        res.start().end()
    }

    fn check_continue(&self, _: &Method, _: &RequestUri, _: &Headers) -> u16 {
        417
    }
}

#[test]
fn test_check_continue_default() {
    let mut conn = Conn::new(Transport::new(), server_conn::Conn::new(Arc::new(Accepting)));
    conn.on_data(
        b"POST /upload HTTP/1.1\r\nHost: example.domain\r\nExpect: 100-continue\r\nContent-Length: 10\r\n\r\n1234567890",
    );
    let out = match conn.handler.returned.as_mut() {
        Some(t) => t.take_out(),
        None => Vec::new(),
    };
    let cont = b"HTTP/1.1 100 Continue\r\n\r\n";
    assert_eq!(&out[..cont.len()], cont);
    let res = b"HTTP/1.1 200 OK\r\n";
    assert_eq!(&out[cont.len()..cont.len() + res.len()], res);
}

#[test]
fn test_check_continue_reject() {
    let mut conn = Conn::new(Transport::new(), server_conn::Conn::new(Arc::new(Reject)));
    conn.on_data(
        b"POST /upload HTTP/1.1\r\nHost: example.domain\r\nExpect: 100-continue\r\nContent-Length: 10\r\n\r\n1234567890",
    );
    let (out, closed) = match conn.handler.returned.as_mut() {
        Some(t) => (t.take_out(), t.is_closed()),
        None => (Vec::new(), false),
    };
    assert!(closed);
    assert_eq!(&out[..], &b"HTTP/1.1 417 Expectation Failed\r\n\r\n"[..]);
}

fn fresh_response() -> Response {
    Response::new(transfer(Lease::new(Transport::new())))
}

#[test]
fn test_fresh_start() {
    let res = fresh_response();
    let s = res.start();
    // take the head without finishing the body
    let mut t = s.body.body.into_inner().into_lease().release();
    let head = lines(&t.take_out());
    assert_eq!(head.len(), 4);
    assert_eq!(head[0], "HTTP/1.1 200 OK");
    assert!(is_date_line(&head[1]), "bad date line: {}", head[1]);
    assert_eq!(head[2], "Transfer-Encoding: chunked");
    assert_eq!(head[3], "");
}

#[test]
fn test_streaming_end() {
    let res = fresh_response();
    let mut t = res.start().end().release();
    let out = lines(&t.take_out());
    assert_eq!(out.len(), 6);
    assert_eq!(out[0], "HTTP/1.1 200 OK");
    assert!(is_date_line(&out[1]));
    assert_eq!(out[2], "Transfer-Encoding: chunked");
    assert_eq!(out[3], "");
    assert_eq!(out[4], "0");
    assert_eq!(out[5], "");
    assert!(!t.is_closed());
}

#[test]
fn test_fresh_drop() {
    // a response finished while fresh goes out as a well-formed empty
    // response with its status
    let mut res = fresh_response();
    *res.status_mut() = 404;
    let mut t = res.finish().release();
    let out = lines(&t.take_out());
    assert_eq!(out.len(), 4);
    assert_eq!(out[0], "HTTP/1.1 404 Not Found");
    assert_eq!(out[1], "Content-Length: 0");
    assert!(is_date_line(&out[2]), "bad date line: {}", out[2]);
    assert_eq!(out[3], "");
}

#[test]
fn test_streaming_drop() {
    let mut res = fresh_response();
    *res.status_mut() = 404;
    let mut s = res.start();
    s.write(b"foo");
    let mut t = s.end().release();
    let out = lines(&t.take_out());
    assert_eq!(out[0], "HTTP/1.1 404 Not Found");
    assert!(is_date_line(&out[1]));
    assert_eq!(out[2], "Transfer-Encoding: chunked");
    assert_eq!(out[3], "");
    assert_eq!(out[4], "3");
    assert_eq!(out[5], "foo");
    assert_eq!(out[6], "0");
    assert_eq!(out[7], "");
}

#[test]
fn test_should_keep_alive() {
    let mut headers = Headers::new();

    assert!(!should_keep_alive(HttpVersion::Http10, &headers));
    assert!(should_keep_alive(HttpVersion::Http11, &headers));

    headers.set(b"Connection".to_vec(), b"close".to_vec());
    assert!(!should_keep_alive(HttpVersion::Http10, &headers));
    assert!(!should_keep_alive(HttpVersion::Http11, &headers));

    headers.set(b"Connection".to_vec(), b"keep-alive".to_vec());
    assert!(should_keep_alive(HttpVersion::Http10, &headers));
    assert!(should_keep_alive(HttpVersion::Http11, &headers));
}

#[test]
fn test_keep_alive_list_and_case() {
    let mut headers = Headers::new();
    headers.set(b"connection".to_vec(), b"Upgrade, Keep-Alive".to_vec());
    assert!(should_keep_alive(HttpVersion::Http10, &headers));
    headers.set(b"CONNECTION".to_vec(), b" ClOsE ".to_vec());
    assert!(!should_keep_alive(HttpVersion::Http11, &headers));
}

#[test]
fn test_response_closes_without_keep_alive() {
    // an HTTP/1.0 exchange without keep-alive closes the transport
    let mut res = fresh_response();
    res.version = HttpVersion::Http10;
    let mut t = res.start().end().release();
    assert!(t.is_closed());
    assert!(!t.take_out().is_empty());
}

#[test]
fn test_unparseable_content_length_means_chunked() {
    // a length that is no number, or does not fit, chooses chunked framing
    let mut res = fresh_response();
    res.headers.set(b"Content-Length".to_vec(), b"99999999999999999999999".to_vec());
    let mut t = res.start().end().release();
    let text = String::from_utf8(t.take_out()).unwrap();
    assert!(text.contains("\r\nTransfer-Encoding: chunked\r\n"), "got: {}", text);
}

#[test]
fn test_content_length_lookup() {
    let mut headers = Headers::new();
    assert_eq!(headers.content_length(), None);
    headers.append(b"content-LENGTH".to_vec(), b"42".to_vec());
    assert_eq!(headers.content_length(), Some(42));
    headers.set(b"Content-Length".to_vec(), b"nonsense".to_vec());
    assert_eq!(headers.content_length(), None);
}

#[test]
fn test_sized_underrun_closes_connection() {
    // a declared length the body never reaches forces a close
    let mut res = fresh_response();
    res.headers.set(b"Content-Length".to_vec(), b"10".to_vec());
    let mut s = res.start();
    s.write(b"abc");
    let mut t = s.end().release();
    assert!(t.is_closed());
    let text = String::from_utf8(t.take_out()).unwrap();
    assert!(text.ends_with("\r\n\r\nabc"), "got: {}", text);
}

#[test]
fn test_should_have_response_body() {
    assert!(!should_have_response_body(&Method::Head, 200));
    assert!(!should_have_response_body(&Method::Get, 100));
    assert!(!should_have_response_body(&Method::Get, 204));
    assert!(!should_have_response_body(&Method::Get, 304));
    assert!(!should_have_response_body(&Method::Connect, 200));
    assert!(should_have_response_body(&Method::Connect, 404));
    assert!(should_have_response_body(&Method::Get, 200));
    assert!(should_have_response_body(&Method::Post, 500));
}

#[test]
fn test_format_http_date_fixed_form() {
    let t = UtcTime { year: 1994, month: 10, day: 6, hour: 8, minute: 49, second: 37, weekday: 0 };
    assert_eq!(format_http_date(t), b"Sun, 06 Nov 1994 08:49:37 GMT".to_vec());
}

#[test]
fn test_now_utc_in_documented_ranges() {
    let t = now_utc();
    assert!(t.month <= 11);
    assert!(1 <= t.day && t.day <= 31);
    assert!(t.hour <= 23 && t.minute <= 59 && t.second <= 60 && t.weekday <= 6);
    assert!(0 <= t.year && t.year <= 9999);
    // the rendered form is always the fixed 29-byte date
    assert_eq!(format_http_date(t).len(), 29);
}
