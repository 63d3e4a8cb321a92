//! The server-side glue: a per-connection adapter that turns parsed
//! heads into `Request`/`Response` pairs for a shared handler.

use vstd::prelude::*;
use std::sync::Arc;
use crate::ascii::eq_ignore_case;
use crate::ascii::push_crlf;
use crate::ascii::push_dec_u64;
use crate::headers::Headers;
use crate::headers::spec_content_length;
use crate::message::IncomingRequest;
use crate::method::Method;
use crate::request::Request;
use crate::response::Response;
use crate::status::push_reason;
use crate::transfer::transfer;
use crate::transport::Lease;
use crate::transport::Transport;
use crate::uri::RequestUri;
use crate::version::HttpVersion;
use crate::version::push_version;

verus! {

/// A handler that can handle incoming requests for a server. The
/// handler object is shared across connections, so it takes itself by
/// shared reference; it owns each response until it finishes it, and
/// finishing yields the lease back.
pub trait Handler {
    /// Receives a request and a fresh response, and must finish the
    /// response: `Response::finish`, `send` plus `end`, or `start`
    /// plus `end` all yield the lease that travels back here.
    fn handle(&self, req: Request, res: Response) -> Lease;

    /// Called when a request carries `Expect: 100-continue`; the code
    /// returned is sent before the body. Anything but 100 ends the
    /// connection after the code is sent. Accepts by default.
    fn check_continue(&self, method: &Method, uri: &RequestUri, headers: &Headers) -> u16 {
        100
    }

    /// Runs once when a connection opens.
    fn on_connection_start(&self) {
    }

    /// Runs once before a connection closes.
    fn on_connection_end(&self) {
    }
}

/// One connection's adapter: hands each parsed head to the shared
/// handler and keeps the returned transport until the engine claims it.
pub struct Conn<H: Handler> {
    /// The shared handler.
    pub handler: Arc<H>,
    /// A finished response's transport, until the engine claims it.
    pub returned: Option<Transport>,
    /// Body bytes the current request still owes, by its
    /// `Content-Length`; the engine counts them off without surfacing
    /// them, and what follows belongs to the next request.
    pub body_remaining: u64,
}

impl<H: Handler> Conn<H> {
    /// An adapter over a shared handler.
    pub fn new(handler: Arc<H>) -> (r: Conn<H>)
        ensures
            r.returned is None,
            r.body_remaining == 0,
    {
        Conn { handler, returned: None, body_remaining: 0 }
    }
}

/// The status line and empty line of an interim response, as the
/// `Expect` handshake sends: `HTTP/1.1 <code> <reason>`, two line ends.
pub open spec fn interim_response_bytes(code: u16) -> Seq<u8> {
    crate::version::version_bytes(HttpVersion::Http11) + seq![32u8] + crate::ascii::dec_bytes(
        code as nat,
    ) + seq![32u8] + crate::status::reason_phrase(code) + crate::ascii::crlf()
        + crate::ascii::crlf()
}

/// Builds an interim response line for the `Expect` handshake.
pub fn interim_response(code: u16) -> (r: Vec<u8>)
    ensures
        r@ == interim_response_bytes(code),
{
    let mut out: Vec<u8> = Vec::new();
    push_version(&mut out, HttpVersion::Http11);
    out.push(32);
    push_dec_u64(&mut out, code as u64);
    out.push(32);
    push_reason(&mut out, code);
    push_crlf(&mut out);
    push_crlf(&mut out);
    proof {
        assert(out@ =~= interim_response_bytes(code));
    }
    out
}

/// Whether a head asks for a `100 Continue` before its body: an
/// `HTTP/1.1` request whose `Expect` header says `100-continue`.
pub open spec fn expects_continue(version: HttpVersion, hs: Seq<(Seq<u8>, Seq<u8>)>) -> bool {
    version is Http11 && match crate::headers::first_value(hs, expect_name()) {
        Some(v) => crate::ascii::lower(v) == continue_token(),
        None => false,
    }
}

/// The lower-case name of the `Expect` header.
pub open spec fn expect_name() -> Seq<u8> {
    seq![101u8, 120u8, 112u8, 101u8, 99u8, 116u8]
}

/// The `100-continue` expectation token.
pub open spec fn continue_token() -> Seq<u8> {
    seq![49u8, 48u8, 48u8, 45u8, 99u8, 111u8, 110u8, 116u8, 105u8, 110u8, 117u8, 101u8]
}

/// The smaller of two counters.
pub open spec fn min_u64(a: u64, b: u64) -> u64 {
    if a <= b {
        a
    } else {
        b
    }
}

/// The body bytes a head declares: its `Content-Length`, or none.
pub open spec fn declared_body_len(hs: Seq<(Seq<u8>, Seq<u8>)>) -> u64 {
    match spec_content_length(hs) {
        Some(n) => n,
        None => 0,
    }
}

/// Tests a head for the `100-continue` expectation.
pub fn head_expects_continue(version: HttpVersion, headers: &Headers) -> (r: bool)
    ensures
        r == expects_continue(version, headers@),
{
    if !matches!(version, HttpVersion::Http11) {
        return false;
    }
    let name: [u8; 6] = [101, 120, 112, 101, 99, 116];
    proof {
        assert(name@ =~= expect_name());
    }
    match headers.get_first(name.as_slice()) {
        Some(v) => {
            let tok: [u8; 12] = [49, 48, 48, 45, 99, 111, 110, 116, 105, 110, 117, 101];
            proof {
                assert(tok@ =~= continue_token());
                assert(crate::ascii::lower(tok@) =~= continue_token());
            }
            eq_ignore_case(v.as_slice(), tok.as_slice())
        },
        None => false,
    }
}

impl<H: Handler> crate::conn::Handler for Conn<H> {
    /// One request: answer the `Expect` handshake if the head asks for
    /// it, then hand the request and a fresh response to the handler
    /// and keep the transport it gives back. Whatever the handler did,
    /// a transport is waiting afterwards, and the body counter carries
    /// the length the head declared.
    fn on_incoming(&mut self, incoming: IncomingRequest, lease: Lease)
        ensures
            final(self).returned is Some,
            final(self).body_remaining == declared_body_len(incoming.headers@),
    {
        let mut lease = lease;
        self.body_remaining = match incoming.headers.content_length() {
            Some(n) => n,
            None => 0,
        };
        if head_expects_continue(incoming.version, &incoming.headers) {
            let code = self.handler.check_continue(
                &incoming.subject.0,
                &incoming.subject.1,
                &incoming.headers,
            );
            let line = interim_response(code);
            lease.write(line.as_slice());
            if code != 100 {
                lease.close();
                self.returned = Some(lease.release());
                return ;
            }
        }
        let request = Request::new(incoming);
        let response = Response::new(transfer(lease));
        let done = self.handler.handle(request, response);
        self.returned = Some(done.release());
    }

    /// The core reads and counts body bytes without surfacing them:
    /// exactly what the current request's length still covers is
    /// consumed, and what it does not belongs to the next request.
    fn on_body(&mut self, data: &[u8]) -> (used: usize)
        ensures
            used as u64 == min_u64(old(self).body_remaining, data@.len() as u64),
            final(self).body_remaining == old(self).body_remaining - used as u64,
            final(self).returned == old(self).returned,
    {
        let len = data.len();
        let used: usize = if self.body_remaining >= len as u64 {
            len
        } else {
            self.body_remaining as usize
        };
        self.body_remaining = self.body_remaining - used as u64;
        used
    }

    /// Hands a finished response's transport back, once.
    fn poll_release(&mut self) -> (r: Option<Transport>)
        ensures
            r == old(self).returned,
            final(self).returned is None,
            final(self).body_remaining == old(self).body_remaining,
    {
        self.returned.take()
    }
}

} // verus!
