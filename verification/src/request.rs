//! The request a server handler receives: the parsed head, immediately
//! useful.

use vstd::prelude::*;
use crate::headers::Headers;
use crate::message::IncomingRequest;
use crate::method::Method;
use crate::uri::RequestUri;
use crate::version::HttpVersion;

verus! {

/// A parsed request head, as the handler sees it.
#[derive(Debug)]
pub struct Request {
    /// The method, such as `GET` or `POST`.
    pub method: Method,
    /// The headers of the incoming request.
    pub headers: Headers,
    /// The target of the request.
    pub uri: RequestUri,
    /// The version of the request.
    pub version: HttpVersion,
}

impl Request {
    /// Unpacks an incoming head into a request.
    pub fn new(incoming: IncomingRequest) -> (r: Request)
        ensures
            r.method == incoming.subject.0,
            r.uri == incoming.subject.1,
            r.version == incoming.version,
            r.headers@ == incoming.headers@,
    {
        let IncomingRequest { version, subject: (method, uri), headers } = incoming;
        Request { method, uri, headers, version }
    }
}

} // verus!
