//! Status codes and their canonical reason phrases.

use vstd::prelude::*;
use crate::ascii::ascii_bytes;
use crate::ascii::push_str_bytes;

verus! {

/// The canonical reason phrase registered for a status code, if any.
pub open spec fn spec_reason(code: u16) -> Option<Seq<u8>> {
    if code == 100 {
        Some(ascii_bytes("Continue"@))
    } else if code == 101 {
        Some(ascii_bytes("Switching Protocols"@))
    } else if code == 102 {
        Some(ascii_bytes("Processing"@))
    } else if code == 200 {
        Some(ascii_bytes("OK"@))
    } else if code == 201 {
        Some(ascii_bytes("Created"@))
    } else if code == 202 {
        Some(ascii_bytes("Accepted"@))
    } else if code == 203 {
        Some(ascii_bytes("Non-Authoritative Information"@))
    } else if code == 204 {
        Some(ascii_bytes("No Content"@))
    } else if code == 205 {
        Some(ascii_bytes("Reset Content"@))
    } else if code == 206 {
        Some(ascii_bytes("Partial Content"@))
    } else if code == 207 {
        Some(ascii_bytes("Multi-Status"@))
    } else if code == 208 {
        Some(ascii_bytes("Already Reported"@))
    } else if code == 226 {
        Some(ascii_bytes("IM Used"@))
    } else if code == 300 {
        Some(ascii_bytes("Multiple Choices"@))
    } else if code == 301 {
        Some(ascii_bytes("Moved Permanently"@))
    } else if code == 302 {
        Some(ascii_bytes("Found"@))
    } else if code == 303 {
        Some(ascii_bytes("See Other"@))
    } else if code == 304 {
        Some(ascii_bytes("Not Modified"@))
    } else if code == 305 {
        Some(ascii_bytes("Use Proxy"@))
    } else if code == 307 {
        Some(ascii_bytes("Temporary Redirect"@))
    } else if code == 308 {
        Some(ascii_bytes("Permanent Redirect"@))
    } else if code == 400 {
        Some(ascii_bytes("Bad Request"@))
    } else if code == 401 {
        Some(ascii_bytes("Unauthorized"@))
    } else if code == 402 {
        Some(ascii_bytes("Payment Required"@))
    } else if code == 403 {
        Some(ascii_bytes("Forbidden"@))
    } else if code == 404 {
        Some(ascii_bytes("Not Found"@))
    } else if code == 405 {
        Some(ascii_bytes("Method Not Allowed"@))
    } else if code == 406 {
        Some(ascii_bytes("Not Acceptable"@))
    } else if code == 407 {
        Some(ascii_bytes("Proxy Authentication Required"@))
    } else if code == 408 {
        Some(ascii_bytes("Request Timeout"@))
    } else if code == 409 {
        Some(ascii_bytes("Conflict"@))
    } else if code == 410 {
        Some(ascii_bytes("Gone"@))
    } else if code == 411 {
        Some(ascii_bytes("Length Required"@))
    } else if code == 412 {
        Some(ascii_bytes("Precondition Failed"@))
    } else if code == 413 {
        Some(ascii_bytes("Payload Too Large"@))
    } else if code == 414 {
        Some(ascii_bytes("URI Too Long"@))
    } else if code == 415 {
        Some(ascii_bytes("Unsupported Media Type"@))
    } else if code == 416 {
        Some(ascii_bytes("Range Not Satisfiable"@))
    } else if code == 417 {
        Some(ascii_bytes("Expectation Failed"@))
    } else if code == 418 {
        Some(ascii_bytes("I'm a teapot"@))
    } else if code == 421 {
        Some(ascii_bytes("Misdirected Request"@))
    } else if code == 422 {
        Some(ascii_bytes("Unprocessable Entity"@))
    } else if code == 423 {
        Some(ascii_bytes("Locked"@))
    } else if code == 424 {
        Some(ascii_bytes("Failed Dependency"@))
    } else if code == 426 {
        Some(ascii_bytes("Upgrade Required"@))
    } else if code == 428 {
        Some(ascii_bytes("Precondition Required"@))
    } else if code == 429 {
        Some(ascii_bytes("Too Many Requests"@))
    } else if code == 431 {
        Some(ascii_bytes("Request Header Fields Too Large"@))
    } else if code == 451 {
        Some(ascii_bytes("Unavailable For Legal Reasons"@))
    } else if code == 500 {
        Some(ascii_bytes("Internal Server Error"@))
    } else if code == 501 {
        Some(ascii_bytes("Not Implemented"@))
    } else if code == 502 {
        Some(ascii_bytes("Bad Gateway"@))
    } else if code == 503 {
        Some(ascii_bytes("Service Unavailable"@))
    } else if code == 504 {
        Some(ascii_bytes("Gateway Timeout"@))
    } else if code == 505 {
        Some(ascii_bytes("HTTP Version Not Supported"@))
    } else if code == 506 {
        Some(ascii_bytes("Variant Also Negotiates"@))
    } else if code == 507 {
        Some(ascii_bytes("Insufficient Storage"@))
    } else if code == 508 {
        Some(ascii_bytes("Loop Detected"@))
    } else if code == 510 {
        Some(ascii_bytes("Not Extended"@))
    } else if code == 511 {
        Some(ascii_bytes("Network Authentication Required"@))
    } else {
        None
    }
}

/// The reason phrase a status line carries: the canonical phrase, or a
/// fixed marker for a code outside the registry.
pub open spec fn reason_phrase(code: u16) -> Seq<u8> {
    match spec_reason(code) {
        Some(r) => r,
        None => ascii_bytes("<unknown status code>"@),
    }
}

/// The canonical reason phrase for a status code.
pub fn canonical_reason(code: u16) -> (r: Option<&'static str>)
    ensures
        match r {
            Some(s) => spec_reason(code) == Some(ascii_bytes(s@)) && s.is_ascii(),
            None => spec_reason(code) is None,
        },
{
    match code {
        100 => {
            proof {
                reveal_strlit("Continue");
            }
            Some("Continue")
        },
        101 => {
            proof {
                reveal_strlit("Switching Protocols");
            }
            Some("Switching Protocols")
        },
        102 => {
            proof {
                reveal_strlit("Processing");
            }
            Some("Processing")
        },
        200 => {
            proof {
                reveal_strlit("OK");
            }
            Some("OK")
        },
        201 => {
            proof {
                reveal_strlit("Created");
            }
            Some("Created")
        },
        202 => {
            proof {
                reveal_strlit("Accepted");
            }
            Some("Accepted")
        },
        203 => {
            proof {
                reveal_strlit("Non-Authoritative Information");
            }
            Some("Non-Authoritative Information")
        },
        204 => {
            proof {
                reveal_strlit("No Content");
            }
            Some("No Content")
        },
        205 => {
            proof {
                reveal_strlit("Reset Content");
            }
            Some("Reset Content")
        },
        206 => {
            proof {
                reveal_strlit("Partial Content");
            }
            Some("Partial Content")
        },
        207 => {
            proof {
                reveal_strlit("Multi-Status");
            }
            Some("Multi-Status")
        },
        208 => {
            proof {
                reveal_strlit("Already Reported");
            }
            Some("Already Reported")
        },
        226 => {
            proof {
                reveal_strlit("IM Used");
            }
            Some("IM Used")
        },
        300 => {
            proof {
                reveal_strlit("Multiple Choices");
            }
            Some("Multiple Choices")
        },
        301 => {
            proof {
                reveal_strlit("Moved Permanently");
            }
            Some("Moved Permanently")
        },
        302 => {
            proof {
                reveal_strlit("Found");
            }
            Some("Found")
        },
        303 => {
            proof {
                reveal_strlit("See Other");
            }
            Some("See Other")
        },
        304 => {
            proof {
                reveal_strlit("Not Modified");
            }
            Some("Not Modified")
        },
        305 => {
            proof {
                reveal_strlit("Use Proxy");
            }
            Some("Use Proxy")
        },
        307 => {
            proof {
                reveal_strlit("Temporary Redirect");
            }
            Some("Temporary Redirect")
        },
        308 => {
            proof {
                reveal_strlit("Permanent Redirect");
            }
            Some("Permanent Redirect")
        },
        400 => {
            proof {
                reveal_strlit("Bad Request");
            }
            Some("Bad Request")
        },
        401 => {
            proof {
                reveal_strlit("Unauthorized");
            }
            Some("Unauthorized")
        },
        402 => {
            proof {
                reveal_strlit("Payment Required");
            }
            Some("Payment Required")
        },
        403 => {
            proof {
                reveal_strlit("Forbidden");
            }
            Some("Forbidden")
        },
        404 => {
            proof {
                reveal_strlit("Not Found");
            }
            Some("Not Found")
        },
        405 => {
            proof {
                reveal_strlit("Method Not Allowed");
            }
            Some("Method Not Allowed")
        },
        406 => {
            proof {
                reveal_strlit("Not Acceptable");
            }
            Some("Not Acceptable")
        },
        407 => {
            proof {
                reveal_strlit("Proxy Authentication Required");
            }
            Some("Proxy Authentication Required")
        },
        408 => {
            proof {
                reveal_strlit("Request Timeout");
            }
            Some("Request Timeout")
        },
        409 => {
            proof {
                reveal_strlit("Conflict");
            }
            Some("Conflict")
        },
        410 => {
            proof {
                reveal_strlit("Gone");
            }
            Some("Gone")
        },
        411 => {
            proof {
                reveal_strlit("Length Required");
            }
            Some("Length Required")
        },
        412 => {
            proof {
                reveal_strlit("Precondition Failed");
            }
            Some("Precondition Failed")
        },
        413 => {
            proof {
                reveal_strlit("Payload Too Large");
            }
            Some("Payload Too Large")
        },
        414 => {
            proof {
                reveal_strlit("URI Too Long");
            }
            Some("URI Too Long")
        },
        415 => {
            proof {
                reveal_strlit("Unsupported Media Type");
            }
            Some("Unsupported Media Type")
        },
        416 => {
            proof {
                reveal_strlit("Range Not Satisfiable");
            }
            Some("Range Not Satisfiable")
        },
        417 => {
            proof {
                reveal_strlit("Expectation Failed");
            }
            Some("Expectation Failed")
        },
        418 => {
            proof {
                reveal_strlit("I'm a teapot");
            }
            Some("I'm a teapot")
        },
        421 => {
            proof {
                reveal_strlit("Misdirected Request");
            }
            Some("Misdirected Request")
        },
        422 => {
            proof {
                reveal_strlit("Unprocessable Entity");
            }
            Some("Unprocessable Entity")
        },
        423 => {
            proof {
                reveal_strlit("Locked");
            }
            Some("Locked")
        },
        424 => {
            proof {
                reveal_strlit("Failed Dependency");
            }
            Some("Failed Dependency")
        },
        426 => {
            proof {
                reveal_strlit("Upgrade Required");
            }
            Some("Upgrade Required")
        },
        428 => {
            proof {
                reveal_strlit("Precondition Required");
            }
            Some("Precondition Required")
        },
        429 => {
            proof {
                reveal_strlit("Too Many Requests");
            }
            Some("Too Many Requests")
        },
        431 => {
            proof {
                reveal_strlit("Request Header Fields Too Large");
            }
            Some("Request Header Fields Too Large")
        },
        451 => {
            proof {
                reveal_strlit("Unavailable For Legal Reasons");
            }
            Some("Unavailable For Legal Reasons")
        },
        500 => {
            proof {
                reveal_strlit("Internal Server Error");
            }
            Some("Internal Server Error")
        },
        501 => {
            proof {
                reveal_strlit("Not Implemented");
            }
            Some("Not Implemented")
        },
        502 => {
            proof {
                reveal_strlit("Bad Gateway");
            }
            Some("Bad Gateway")
        },
        503 => {
            proof {
                reveal_strlit("Service Unavailable");
            }
            Some("Service Unavailable")
        },
        504 => {
            proof {
                reveal_strlit("Gateway Timeout");
            }
            Some("Gateway Timeout")
        },
        505 => {
            proof {
                reveal_strlit("HTTP Version Not Supported");
            }
            Some("HTTP Version Not Supported")
        },
        506 => {
            proof {
                reveal_strlit("Variant Also Negotiates");
            }
            Some("Variant Also Negotiates")
        },
        507 => {
            proof {
                reveal_strlit("Insufficient Storage");
            }
            Some("Insufficient Storage")
        },
        508 => {
            proof {
                reveal_strlit("Loop Detected");
            }
            Some("Loop Detected")
        },
        510 => {
            proof {
                reveal_strlit("Not Extended");
            }
            Some("Not Extended")
        },
        511 => {
            proof {
                reveal_strlit("Network Authentication Required");
            }
            Some("Network Authentication Required")
        },
        _ => None,
    }
}

/// Appends the reason phrase for a status line.
pub fn push_reason(out: &mut Vec<u8>, code: u16)
    ensures
        final(out)@ == old(out)@ + reason_phrase(code),
{
    match canonical_reason(code) {
        Some(s) => push_str_bytes(out, s),
        None => {
            proof {
                reveal_strlit("<unknown status code>");
            }
            push_str_bytes(out, "<unknown status code>");
        },
    }
}

} // verus!
