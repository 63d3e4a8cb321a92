//! Message heads and connection-level header policy.

use vstd::prelude::*;
use crate::headers::Headers;
use crate::headers::has_token;
use crate::method::Method;
use crate::uri::RequestUri;
use crate::version::HttpVersion;

verus! {

/// An incoming message head: version, subject (the request line or the
/// status line), and the headers. Immutable once parsed.
#[derive(Debug)]
pub struct Incoming<S> {
    /// HTTP version of the message.
    pub version: HttpVersion,
    /// Subject of the message: request line or status line.
    pub subject: S,
    /// Headers of the message.
    pub headers: Headers,
}

/// Specification view of a message head.
pub struct IncomingView<SV> {
    pub version: HttpVersion,
    pub subject: SV,
    pub headers: Seq<(Seq<u8>, Seq<u8>)>,
}

impl<S: View> View for Incoming<S> {
    type V = IncomingView<S::V>;

    open spec fn view(&self) -> IncomingView<S::V> {
        IncomingView { version: self.version, subject: self.subject@, headers: self.headers@ }
    }
}

/// An incoming request head.
pub type IncomingRequest = Incoming<(Method, RequestUri)>;

/// An incoming response head.
pub type IncomingResponse = Incoming<RawStatus>;

/// The raw status code and reason phrase of a response head.
#[derive(Clone, Debug, PartialEq, Eq)]
pub struct RawStatus(pub u16, pub Vec<u8>);

impl View for RawStatus {
    type V = (u16, Seq<u8>);

    open spec fn view(&self) -> (u16, Seq<u8>) {
        (self.0, self.1@)
    }
}

/// The lower-case name of the `Connection` header.
pub open spec fn connection_name() -> Seq<u8> {
    seq![99u8, 111u8, 110u8, 110u8, 101u8, 99u8, 116u8, 105u8, 111u8, 110u8]
}

/// The `keep-alive` connection token.
pub open spec fn keep_alive_token() -> Seq<u8> {
    seq![107u8, 101u8, 101u8, 112u8, 45u8, 97u8, 108u8, 105u8, 118u8, 101u8]
}

/// The `close` connection token.
pub open spec fn close_token() -> Seq<u8> {
    seq![99u8, 108u8, 111u8, 115u8, 101u8]
}

/// Whether the connection survives the response: an HTTP/1.0 exchange
/// only with an explicit `keep-alive`, an HTTP/1.1 exchange unless an
/// explicit `close`.
pub open spec fn spec_should_keep_alive(v: HttpVersion, hs: Seq<(Seq<u8>, Seq<u8>)>) -> bool {
    match v {
        HttpVersion::Http10 => has_token(hs, connection_name(), keep_alive_token()),
        HttpVersion::Http11 => !has_token(hs, connection_name(), close_token()),
    }
}

/// Checks if a connection should be kept alive after this exchange.
pub fn should_keep_alive(version: HttpVersion, headers: &Headers) -> (r: bool)
    ensures
        r == spec_should_keep_alive(version, headers@),
{
    // "connection", "keep-alive", "close"
    let conn: [u8; 10] = [99, 111, 110, 110, 101, 99, 116, 105, 111, 110];
    proof {
        assert(conn@ =~= connection_name());
    }
    match version {
        HttpVersion::Http10 => {
            let ka: [u8; 10] = [107, 101, 101, 112, 45, 97, 108, 105, 118, 101];
            proof {
                assert(ka@ =~= keep_alive_token());
            }
            headers.has_list_token(conn.as_slice(), ka.as_slice())
        },
        HttpVersion::Http11 => {
            let cl: [u8; 5] = [99, 108, 111, 115, 101];
            proof {
                assert(cl@ =~= close_token());
            }
            !headers.has_list_token(conn.as_slice(), cl.as_slice())
        },
    }
}

/// The keep-alive predicate, as a truth table: the connection stays
/// open unless the exchange was HTTP/1.0 without a `keep-alive` token,
/// or HTTP/1.1 with a `close` token.
pub proof fn lemma_keep_alive_truth_table(v: HttpVersion, hs: Seq<(Seq<u8>, Seq<u8>)>)
    ensures
        spec_should_keep_alive(v, hs) == !((v is Http10 && !has_token(
            hs,
            connection_name(),
            keep_alive_token(),
        )) || (v is Http11 && has_token(hs, connection_name(), close_token()))),
{
}

/// Whether a response to `method` with status `status` may carry a
/// body: `HEAD` responses, informational statuses, 204, 304, and
/// successful `CONNECT` responses may not.
pub open spec fn spec_should_have_response_body(method: Method, status: u16) -> bool {
    if method is Head {
        false
    } else if 100 <= status <= 199 || status == 204 || status == 304 {
        false
    } else if method is Connect && 200 <= status <= 299 {
        false
    } else {
        true
    }
}

/// Decides whether a response may carry a body.
pub fn should_have_response_body(method: &Method, status: u16) -> (r: bool)
    ensures
        r == spec_should_have_response_body(*method, status),
{
    match (method, status) {
        (Method::Head, _) => false,
        (_, 100..=199) => false,
        (_, 204) => false,
        (_, 304) => false,
        (Method::Connect, 200..=299) => false,
        _ => true,
    }
}

} // verus!
