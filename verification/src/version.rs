//! The two protocol versions the engine speaks.

use vstd::prelude::*;
use crate::ascii::push_str_bytes;
use crate::ascii::ascii_bytes;

verus! {

/// An HTTP/1.x protocol version.
#[derive(Clone, Copy, Debug, PartialEq, Eq, Structural)]
pub enum HttpVersion {
    /// `HTTP/1.0`
    Http10,
    /// `HTTP/1.1`
    Http11,
}

/// The wire form of a version token: `HTTP/1.` followed by `0` or `1`.
pub open spec fn version_bytes(v: HttpVersion) -> Seq<u8> {
    // "HTTP/1." is 72 84 84 80 47 49 46
    seq![72u8, 84u8, 84u8, 80u8, 47u8, 49u8, 46u8].push(
        match v {
            HttpVersion::Http10 => 48u8,
            HttpVersion::Http11 => 49u8,
        },
    )
}

/// Appends the version token.
pub fn push_version(out: &mut Vec<u8>, v: HttpVersion)
    ensures
        final(out)@ == old(out)@ + version_bytes(v),
{
    match v {
        HttpVersion::Http10 => {
            proof {
                reveal_strlit("HTTP/1.0");
            }
            push_str_bytes(out, "HTTP/1.0");
            proof {
                assert(out@ =~= old(out)@ + version_bytes(v)) by {
                    assert(ascii_bytes("HTTP/1.0"@) =~= version_bytes(HttpVersion::Http10));
                }
            }
        },
        HttpVersion::Http11 => {
            proof {
                reveal_strlit("HTTP/1.1");
            }
            push_str_bytes(out, "HTTP/1.1");
            proof {
                assert(out@ =~= old(out)@ + version_bytes(v)) by {
                    assert(ascii_bytes("HTTP/1.1"@) =~= version_bytes(HttpVersion::Http11));
                }
            }
        },
    }
}

} // verus!
