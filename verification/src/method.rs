//! Request methods.

use vstd::prelude::*;

verus! {

/// The request methods the engine accepts. Any other token in the
/// request line is rejected as a `Method` error.
#[derive(Clone, Copy, Debug, PartialEq, Eq, Structural)]
pub enum Method {
    Options,
    Get,
    Post,
    Put,
    Delete,
    Head,
    Trace,
    Connect,
    Patch,
}

impl View for Method {
    type V = Method;

    open spec fn view(&self) -> Method {
        *self
    }
}

/// The wire form of each method token.
pub open spec fn method_bytes(m: Method) -> Seq<u8> {
    match m {
        Method::Options => seq![79u8, 80u8, 84u8, 73u8, 79u8, 78u8, 83u8],  // OPTIONS
        Method::Get => seq![71u8, 69u8, 84u8],  // GET
        Method::Post => seq![80u8, 79u8, 83u8, 84u8],  // POST
        Method::Put => seq![80u8, 85u8, 84u8],  // PUT
        Method::Delete => seq![68u8, 69u8, 76u8, 69u8, 84u8, 69u8],  // DELETE
        Method::Head => seq![72u8, 69u8, 65u8, 68u8],  // HEAD
        Method::Trace => seq![84u8, 82u8, 65u8, 67u8, 69u8],  // TRACE
        Method::Connect => seq![67u8, 79u8, 78u8, 78u8, 69u8, 67u8, 84u8],  // CONNECT
        Method::Patch => seq![80u8, 65u8, 84u8, 67u8, 72u8],  // PATCH
    }
}

/// The method a token names, if any.
pub open spec fn method_of(s: Seq<u8>) -> Option<Method> {
    if s == method_bytes(Method::Options) {
        Some(Method::Options)
    } else if s == method_bytes(Method::Get) {
        Some(Method::Get)
    } else if s == method_bytes(Method::Post) {
        Some(Method::Post)
    } else if s == method_bytes(Method::Put) {
        Some(Method::Put)
    } else if s == method_bytes(Method::Delete) {
        Some(Method::Delete)
    } else if s == method_bytes(Method::Head) {
        Some(Method::Head)
    } else if s == method_bytes(Method::Trace) {
        Some(Method::Trace)
    } else if s == method_bytes(Method::Connect) {
        Some(Method::Connect)
    } else if s == method_bytes(Method::Patch) {
        Some(Method::Patch)
    } else {
        None
    }
}

/// Recognizing a token and writing a method out are mutually inverse.
pub proof fn lemma_method_of_bytes(m: Method)
    ensures
        method_of(method_bytes(m)) == Some(m),
{
    match m {
        Method::Options => {
            assert(method_bytes(Method::Options).len() == 7);
        },
        _ => {
            assert(method_of(method_bytes(m)) == Some(m)) by {
                assert(method_bytes(m).len() < 8);
            };
        },
    }
}

/// Names the method a token spells; the byte values are spelled out,
/// one arm per token.
pub fn method_from_bytes(s: &[u8]) -> (r: Option<Method>)
    ensures
        r == method_of(s@),
{
    let n = s.len();
    if n == 3 {
        if s[0] == 71 && s[1] == 69 && s[2] == 84 {
            proof {
                assert(s@ =~= method_bytes(Method::Get));
            }
            return Some(Method::Get);
        }
        if s[0] == 80 && s[1] == 85 && s[2] == 84 {
            proof {
                assert(s@ =~= method_bytes(Method::Put));
            }
            return Some(Method::Put);
        }
    } else if n == 4 {
        if s[0] == 80 && s[1] == 79 && s[2] == 83 && s[3] == 84 {
            proof {
                assert(s@ =~= method_bytes(Method::Post));
            }
            return Some(Method::Post);
        }
        if s[0] == 72 && s[1] == 69 && s[2] == 65 && s[3] == 68 {
            proof {
                assert(s@ =~= method_bytes(Method::Head));
            }
            return Some(Method::Head);
        }
    } else if n == 5 {
        if s[0] == 84 && s[1] == 82 && s[2] == 65 && s[3] == 67 && s[4] == 69 {
            proof {
                assert(s@ =~= method_bytes(Method::Trace));
            }
            return Some(Method::Trace);
        }
        if s[0] == 80 && s[1] == 65 && s[2] == 84 && s[3] == 67 && s[4] == 72 {
            proof {
                assert(s@ =~= method_bytes(Method::Patch));
            }
            return Some(Method::Patch);
        }
    } else if n == 6 {
        if s[0] == 68 && s[1] == 69 && s[2] == 76 && s[3] == 69 && s[4] == 84 && s[5] == 69 {
            proof {
                assert(s@ =~= method_bytes(Method::Delete));
            }
            return Some(Method::Delete);
        }
    } else if n == 7 {
        if s[0] == 79 && s[1] == 80 && s[2] == 84 && s[3] == 73 && s[4] == 79 && s[5] == 78 && s[6]
            == 83 {
            proof {
                assert(s@ =~= method_bytes(Method::Options));
            }
            return Some(Method::Options);
        }
        if s[0] == 67 && s[1] == 79 && s[2] == 78 && s[3] == 78 && s[4] == 69 && s[5] == 67 && s[6]
            == 84 {
            proof {
                assert(s@ =~= method_bytes(Method::Connect));
            }
            return Some(Method::Connect);
        }
    }
    proof {
        lemma_method_table(s@);
        assert(method_of(s@) is None) by {
            assert forall|m: Method| s@ != method_bytes(m) by {
                match m {
                    Method::Options => assert(s@ != method_bytes(Method::Options)),
                    Method::Get => assert(s@ != method_bytes(Method::Get)),
                    Method::Post => assert(s@ != method_bytes(Method::Post)),
                    Method::Put => assert(s@ != method_bytes(Method::Put)),
                    Method::Delete => assert(s@ != method_bytes(Method::Delete)),
                    Method::Head => assert(s@ != method_bytes(Method::Head)),
                    Method::Trace => assert(s@ != method_bytes(Method::Trace)),
                    Method::Connect => assert(s@ != method_bytes(Method::Connect)),
                    Method::Patch => assert(s@ != method_bytes(Method::Patch)),
                }
            }
        }
    }
    None
}

/// Each token names only its own method.
proof fn lemma_method_table(s: Seq<u8>)
    ensures
        forall|m: Method| s == method_bytes(m) ==> method_of(s) == Some(m),
{
    assert forall|m: Method| s == method_bytes(m) implies method_of(s) == Some(m) by {
        lemma_method_of_bytes(m);
    }
}

} // verus!
