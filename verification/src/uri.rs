//! Request-URI forms: origin, absolute, authority, and asterisk.

use vstd::prelude::*;

verus! {

/// The target of a request, classified by its form.
#[derive(Clone, Debug, PartialEq, Eq)]
pub enum RequestUri {
    /// An origin form: a path beginning with `/`, with any query attached.
    AbsolutePath(Vec<u8>),
    /// An absolute form: the URI carries its scheme, marked by `://`.
    AbsoluteUri(Vec<u8>),
    /// An authority form: a bare host and port, as `CONNECT` uses.
    Authority(Vec<u8>),
    /// The asterisk form `*`, as `OPTIONS` uses.
    Star,
}

/// Specification view of a request-URI.
pub enum ReqUriView {
    AbsolutePath(Seq<u8>),
    AbsoluteUri(Seq<u8>),
    Authority(Seq<u8>),
    Star,
}

impl View for RequestUri {
    type V = ReqUriView;

    open spec fn view(&self) -> ReqUriView {
        match self {
            RequestUri::AbsolutePath(p) => ReqUriView::AbsolutePath(p@),
            RequestUri::AbsoluteUri(u) => ReqUriView::AbsoluteUri(u@),
            RequestUri::Authority(a) => ReqUriView::Authority(a@),
            RequestUri::Star => ReqUriView::Star,
        }
    }
}

/// Whether `s` holds `://` starting at index `i`.
pub open spec fn scheme_mark_at(s: Seq<u8>, i: int) -> bool {
    0 <= i && i + 3 <= s.len() && s[i] == 58 && s[i + 1] == 47 && s[i + 2] == 47
}

/// How a URI token is classified: `*` alone is the asterisk form, a
/// leading `/` is the origin form, a `://` anywhere marks the absolute
/// form, and anything else is an authority.
pub open spec fn classify_uri(s: Seq<u8>) -> ReqUriView
    recommends
        s.len() > 0,
{
    if s == seq![42u8] {
        ReqUriView::Star
    } else if s.len() > 0 && s[0] == 47 {
        ReqUriView::AbsolutePath(s)
    } else if exists|i: int| scheme_mark_at(s, i) {
        ReqUriView::AbsoluteUri(s)
    } else {
        ReqUriView::Authority(s)
    }
}

/// Classifies a URI token, consuming it.
pub fn uri_from_bytes(s: Vec<u8>) -> (r: RequestUri)
    requires
        s@.len() > 0,
    ensures
        r@ == classify_uri(s@),
{
    if s.len() == 1 && s[0] == 42 {
        proof {
            assert(s@ =~= seq![42u8]);
        }
        return RequestUri::Star;
    }
    proof {
        assert(s@ != seq![42u8]) by {
            if s@ == seq![42u8] {
                assert(s@.len() == 1 && s@[0] == 42);
            }
        }
    }
    if s[0] == 47 {
        return RequestUri::AbsolutePath(s);
    }
    let n = s.len();
    let mut i: usize = 0;
    while i < n
        invariant
            n == s@.len(),
            i <= n,
            s@.len() > 0,
            s@ != seq![42u8],
            s@[0] != 47,
            forall|j: int| 0 <= j < i ==> !scheme_mark_at(s@, j),
        decreases n - i,
    {
        if s[i] == 58 && n - i > 2 {
            if s[i + 1] == 47 && s[i + 2] == 47 {
                proof {
                    assert(scheme_mark_at(s@, i as int));
                    assert(exists|j: int| scheme_mark_at(s@, j));
                }
                return RequestUri::AbsoluteUri(s);
            }
        }
        proof {
            assert(!scheme_mark_at(s@, i as int));
        }
        i = i + 1;
    }
    proof {
        assert(!(exists|j: int| scheme_mark_at(s@, j))) by {
            if exists|j: int| scheme_mark_at(s@, j) {
                let j = choose|j: int| scheme_mark_at(s@, j);
                assert(0 <= j < n);
            }
        }
    }
    RequestUri::Authority(s)
}

} // verus!
