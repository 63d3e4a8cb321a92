//! The error taxonomy of the connection core.

use vstd::prelude::*;

verus! {

/// A fatal defect in an incoming message, or a buffer-bound violation.
///
/// `Incomplete` is not an error: the parser reports it as `Ok(None)`.
#[derive(Clone, Copy, Debug, PartialEq, Eq, Structural)]
pub enum HttpError {
    /// The request method token is missing, malformed, or unknown.
    Method,
    /// The request-URI is missing or holds a byte a URI cannot hold.
    Uri,
    /// The version token is neither `HTTP/1.0` nor `HTTP/1.1`.
    Version,
    /// A header line is malformed, or there are more than the parser accepts.
    Header,
    /// The parse buffer grew past its bound while a head was incomplete.
    TooLarge,
}

impl HttpError {
    /// The HTTP status code with which the connection answers before
    /// closing: 413 for an oversize head, 400 for any other defect.
    pub fn status(&self) -> (code: u16)
        ensures
            code == self.spec_status(),
    {
        match self {
            HttpError::TooLarge => 413,
            _ => 400,
        }
    }

    /// Specification twin of [`HttpError::status`].
    pub open spec fn spec_status(self) -> u16 {
        match self {
            HttpError::TooLarge => 413,
            _ => 400,
        }
    }
}

} // verus!
