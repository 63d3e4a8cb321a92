//! The incremental HTTP/1.x head parser.
//!
//! A parse consumes a prefix of a byte buffer and yields either the
//! head and how many bytes it took, "incomplete" (retry with the same
//! bytes plus continuation), or a parse error. The functional model
//! [`spec_parse_request`] pins the parser down byte for byte.

use vstd::prelude::*;
use crate::ascii::is_ows;
use crate::ascii::trim_end_ows;
use crate::error::HttpError;
use crate::headers::Headers;
use crate::message::Incoming;
use crate::message::RawStatus;
use crate::method::Method;
use crate::method::method_of;
use crate::method::method_from_bytes;
use crate::uri::RequestUri;
use crate::uri::ReqUriView;
use crate::uri::classify_uri;
use crate::uri::uri_from_bytes;
use crate::version::HttpVersion;

verus! {

/// What a parse yields: more bytes needed, a defect, or a value plus
/// the number of bytes consumed.
pub enum Parsed<T> {
    /// The buffer holds no complete head yet.
    Incomplete,
    /// The head is malformed; the error names the defective part.
    Fail(HttpError),
    /// A parsed value and the bytes it took.
    Done(T, int),
}

/// The view of a parsed request head.
pub struct ReqHeadView {
    pub method: Method,
    pub uri: ReqUriView,
    pub version: HttpVersion,
    pub headers: Seq<(Seq<u8>, Seq<u8>)>,
}

/// The view of a parsed response head.
pub struct RespHeadView {
    pub code: u16,
    pub reason: Seq<u8>,
    pub version: HttpVersion,
    pub headers: Seq<(Seq<u8>, Seq<u8>)>,
}

/// A token byte, as a request method or header name may hold.
pub open spec fn is_tchar(b: u8) -> bool {
    (48 <= b && b <= 57) || (65 <= b && b <= 90) || (97 <= b && b <= 122) || b == 33 || b == 35
        || b == 36 || b == 37 || b == 38 || b == 39 || b == 42 || b == 43 || b == 45 || b == 46
        || b == 94 || b == 95 || b == 96 || b == 124 || b == 126
}

/// A byte a request-URI may hold: printable ASCII except space.
pub open spec fn is_uri_char(b: u8) -> bool {
    33 <= b && b <= 126
}

/// A byte a header value may hold: tab, printable ASCII, or any byte
/// past ASCII; never a control byte, so never part of a line end.
pub open spec fn is_value_char(b: u8) -> bool {
    b == 9 || (32 <= b && b <= 126) || b >= 128
}

pub open spec fn tchar_pred() -> spec_fn(u8) -> bool {
    |b: u8| is_tchar(b)
}

pub open spec fn uri_char_pred() -> spec_fn(u8) -> bool {
    |b: u8| is_uri_char(b)
}

pub open spec fn value_char_pred() -> spec_fn(u8) -> bool {
    |b: u8| is_value_char(b)
}

pub open spec fn ows_pred() -> spec_fn(u8) -> bool {
    |b: u8| is_ows(b)
}

/// The first index at or past `i` whose byte fails `p`, or the end.
pub open spec fn scan_while(s: Seq<u8>, i: int, p: spec_fn(u8) -> bool) -> int
    recommends
        0 <= i <= s.len(),
    decreases s.len() - i
        when 0 <= i <= s.len()
{
    if i >= s.len() {
        s.len() as int
    } else if p(s[i]) {
        scan_while(s, i + 1, p)
    } else {
        i
    }
}

/// A scan stays in the string: everything before the stop satisfies
/// `p` and the stop byte, if inside, does not.
pub proof fn lemma_scan_while_bounds(s: Seq<u8>, i: int, p: spec_fn(u8) -> bool)
    requires
        0 <= i <= s.len(),
    ensures
        i <= scan_while(s, i, p) <= s.len(),
        forall|j: int| i <= j < scan_while(s, i, p) ==> p(s[j]),
        scan_while(s, i, p) < s.len() ==> !p(s[scan_while(s, i, p)]),
    decreases s.len() - i,
{
    if i < s.len() && p(s[i]) {
        lemma_scan_while_bounds(s, i + 1, p);
    }
}

/// A bounded scan computed by an exec loop equals `scan_while`.
pub proof fn lemma_scan_while_is(s: Seq<u8>, i: int, end: int, p: spec_fn(u8) -> bool)
    requires
        0 <= i <= end <= s.len(),
        forall|j: int| i <= j < end ==> p(s[j]),
        end < s.len() ==> !p(s[end]),
    ensures
        scan_while(s, i, p) == end,
    decreases end - i,
{
    if i < end {
        lemma_scan_while_is(s, i + 1, end, p);
    }
}

/// The outcome of matching a fixed pattern at a position.
pub enum MatchOut {
    /// Every pattern byte stands in the string.
    Matched,
    /// The string ends before the pattern can disagree.
    NeedMore,
    /// A byte of the string contradicts the pattern.
    Mismatch,
}

/// Matches `pat` byte for byte at `i`, reading left to right: the
/// first disagreement decides, and running out of string first means
/// more bytes are needed.
pub open spec fn match_prefix(s: Seq<u8>, i: int, pat: Seq<u8>) -> MatchOut
    decreases pat.len(),
{
    if pat.len() == 0 {
        MatchOut::Matched
    } else if i >= s.len() {
        MatchOut::NeedMore
    } else if s[i] != pat[0] {
        MatchOut::Mismatch
    } else {
        match_prefix(s, i + 1, pat.skip(1))
    }
}

/// A full match means the pattern stands verbatim at `i`.
pub proof fn lemma_match_prefix_matched(s: Seq<u8>, i: int, pat: Seq<u8>)
    requires
        0 <= i <= s.len(),
        match_prefix(s, i, pat) is Matched,
    ensures
        i + pat.len() <= s.len(),
        s.subrange(i, i + pat.len()) == pat,
    decreases pat.len(),
{
    if pat.len() == 0 {
        assert(s.subrange(i, i) =~= pat);
    } else {
        lemma_match_prefix_matched(s, i + 1, pat.skip(1));
        assert(s.subrange(i, i + pat.len()) =~= seq![pat[0]] + pat.skip(1));
        assert(seq![pat[0]] + pat.skip(1) =~= pat);
    }
}

/// The pattern standing verbatim at `i` means a full match.
pub proof fn lemma_match_prefix_of_eq(s: Seq<u8>, i: int, pat: Seq<u8>)
    requires
        0 <= i,
        i + pat.len() <= s.len(),
        s.subrange(i, i + pat.len()) == pat,
    ensures
        match_prefix(s, i, pat) is Matched,
    decreases pat.len(),
{
    if pat.len() > 0 {
        assert(s[i] == s.subrange(i, i + pat.len())[0]);
        assert(s.subrange(i + 1, i + pat.len()) =~= pat.skip(1));
        lemma_match_prefix_of_eq(s, i + 1, pat.skip(1));
    }
}

/// The version token `HTTP/1.` up to its final digit.
pub open spec fn version_template() -> Seq<u8> {
    seq![72u8, 84u8, 84u8, 80u8, 47u8, 49u8, 46u8]
}

/// Reads a version token at `i`: the template, then `0` or `1`. Eight
/// bytes; anything else is a `Version` defect.
pub open spec fn sp_version_token(s: Seq<u8>, i: int) -> Parsed<HttpVersion> {
    match match_prefix(s, i, version_template()) {
        MatchOut::NeedMore => Parsed::Incomplete,
        MatchOut::Mismatch => Parsed::Fail(HttpError::Version),
        MatchOut::Matched => {
            if i + 7 >= s.len() {
                Parsed::Incomplete
            } else if s[i + 7] == 48 {
                Parsed::Done(HttpVersion::Http10, i + 8)
            } else if s[i + 7] == 49 {
                Parsed::Done(HttpVersion::Http11, i + 8)
            } else {
                Parsed::Fail(HttpError::Version)
            }
        },
    }
}

/// Reads a request line: a known method token, a space, a non-empty
/// URI, a space, the version token, and the line end.
pub open spec fn sp_request_line(s: Seq<u8>) -> Parsed<(Method, ReqUriView, HttpVersion)> {
    let mend = scan_while(s, 0, tchar_pred());
    if mend == s.len() {
        Parsed::Incomplete
    } else if s[mend] != 32 {
        Parsed::Fail(HttpError::Method)
    } else if mend == 0 {
        Parsed::Fail(HttpError::Method)
    } else {
        match method_of(s.subrange(0, mend)) {
            None => Parsed::Fail(HttpError::Method),
            Some(m) => {
                let ustart = mend + 1;
                let uend = scan_while(s, ustart, uri_char_pred());
                if uend == s.len() {
                    Parsed::Incomplete
                } else if s[uend] != 32 {
                    Parsed::Fail(HttpError::Uri)
                } else if uend == ustart {
                    Parsed::Fail(HttpError::Uri)
                } else {
                    match sp_version_token(s, uend + 1) {
                        Parsed::Incomplete => Parsed::Incomplete,
                        Parsed::Fail(e) => Parsed::Fail(e),
                        Parsed::Done(v, k) => {
                            match match_prefix(s, k, crate::ascii::crlf()) {
                                MatchOut::NeedMore => Parsed::Incomplete,
                                MatchOut::Mismatch => Parsed::Fail(HttpError::Version),
                                MatchOut::Matched => Parsed::Done(
                                    (m, classify_uri(s.subrange(ustart, uend)), v),
                                    k + 2,
                                ),
                            }
                        },
                    }
                }
            },
        }
    }
}

/// How many header lines a head may hold.
pub const MAX_HEADERS: usize = 100;

/// Reads header lines from `i` until the empty line: each is a
/// non-empty token name, a colon, optional whitespace, a value up to
/// the line end with trailing whitespace dropped. More than 100 lines,
/// or any stray byte, is a `Header` defect.
pub open spec fn sp_headers(s: Seq<u8>, i: int, acc: Seq<(Seq<u8>, Seq<u8>)>) -> Parsed<
    Seq<(Seq<u8>, Seq<u8>)>,
>
    recommends
        0 <= i <= s.len(),
    decreases s.len() - i
        when 0 <= i <= s.len()
        via check_sp_headers_decreases
{
    if i == s.len() {
        Parsed::Incomplete
    } else if s[i] == 13 {
        if i + 1 >= s.len() {
            Parsed::Incomplete
        } else if s[i + 1] == 10 {
            Parsed::Done(acc, i + 2)
        } else {
            Parsed::Fail(HttpError::Header)
        }
    } else if acc.len() >= MAX_HEADERS {
        Parsed::Fail(HttpError::Header)
    } else {
        let nend = scan_while(s, i, tchar_pred());
        if nend == s.len() {
            Parsed::Incomplete
        } else if s[nend] != 58 {
            Parsed::Fail(HttpError::Header)
        } else if nend == i {
            Parsed::Fail(HttpError::Header)
        } else {
            let vstart = scan_while(s, nend + 1, ows_pred());
            if vstart == s.len() {
                Parsed::Incomplete
            } else {
                let vend = scan_while(s, vstart, value_char_pred());
                if vend == s.len() {
                    Parsed::Incomplete
                } else if s[vend] != 13 {
                    Parsed::Fail(HttpError::Header)
                } else if vend + 1 >= s.len() {
                    Parsed::Incomplete
                } else if s[vend + 1] != 10 {
                    Parsed::Fail(HttpError::Header)
                } else {
                    sp_headers(
                        s,
                        vend + 2,
                        acc.push((s.subrange(i, nend), trim_end_ows(s.subrange(vstart, vend)))),
                    )
                }
            }
        }
    }
}

#[via_fn]
proof fn check_sp_headers_decreases(s: Seq<u8>, i: int, acc: Seq<(Seq<u8>, Seq<u8>)>) {
    if 0 <= i <= s.len() {
        lemma_scan_while_bounds(s, i, tchar_pred());
        let nend = scan_while(s, i, tchar_pred());
        if nend < s.len() {
            lemma_scan_while_bounds(s, nend + 1, ows_pred());
            let vstart = scan_while(s, nend + 1, ows_pred());
            lemma_scan_while_bounds(s, vstart, value_char_pred());
        }
    }
}

/// The functional model of request-head parsing. An empty buffer is
/// incomplete, not an error.
pub open spec fn spec_parse_request(s: Seq<u8>) -> Parsed<ReqHeadView> {
    if s.len() == 0 {
        Parsed::Incomplete
    } else {
        match sp_request_line(s) {
            Parsed::Incomplete => Parsed::Incomplete,
            Parsed::Fail(e) => Parsed::Fail(e),
            Parsed::Done((m, u, v), k) => {
                match sp_headers(s, k, Seq::empty()) {
                    Parsed::Incomplete => Parsed::Incomplete,
                    Parsed::Fail(e) => Parsed::Fail(e),
                    Parsed::Done(hs, end) => Parsed::Done(
                        ReqHeadView { method: m, uri: u, version: v, headers: hs },
                        end,
                    ),
                }
            },
        }
    }
}

/// Reads a status line: the version token, a space, three digits, and
/// either the line end or a space, a reason phrase, and the line end.
pub open spec fn sp_status_line(s: Seq<u8>) -> Parsed<(u16, Seq<u8>, HttpVersion)> {
    match sp_version_token(s, 0) {
        Parsed::Incomplete => Parsed::Incomplete,
        Parsed::Fail(e) => Parsed::Fail(e),
        Parsed::Done(v, k) => {
            if k >= s.len() {
                Parsed::Incomplete
            } else if s[k] != 32 {
                Parsed::Fail(HttpError::Version)
            } else if k + 1 >= s.len() || k + 2 >= s.len() || k + 3 >= s.len() {
                if scan_while(s, k + 1, digit_pred()) == s.len() && s.len() - k <= 4 {
                    Parsed::Incomplete
                } else {
                    Parsed::Fail(HttpError::Header)
                }
            } else if !crate::ascii::is_digit(s[k + 1]) || !crate::ascii::is_digit(s[k + 2])
                || !crate::ascii::is_digit(s[k + 3]) {
                Parsed::Fail(HttpError::Header)
            } else {
                let code = ((s[k + 1] - 48) * 100 + (s[k + 2] - 48) * 10 + (s[k + 3] - 48)) as u16;
                if k + 4 >= s.len() {
                    Parsed::Incomplete
                } else if s[k + 4] == 13 {
                    match match_prefix(s, k + 4, crate::ascii::crlf()) {
                        MatchOut::NeedMore => Parsed::Incomplete,
                        MatchOut::Mismatch => Parsed::Fail(HttpError::Header),
                        MatchOut::Matched => Parsed::Done((code, Seq::empty(), v), k + 6),
                    }
                } else if s[k + 4] == 32 {
                    let rend = scan_while(s, k + 5, value_char_pred());
                    if rend == s.len() {
                        Parsed::Incomplete
                    } else if s[rend] != 13 {
                        Parsed::Fail(HttpError::Header)
                    } else if rend + 1 >= s.len() {
                        Parsed::Incomplete
                    } else if s[rend + 1] != 10 {
                        Parsed::Fail(HttpError::Header)
                    } else {
                        Parsed::Done((code, s.subrange(k + 5, rend), v), rend + 2)
                    }
                } else {
                    Parsed::Fail(HttpError::Header)
                }
            }
        },
    }
}

pub open spec fn digit_pred() -> spec_fn(u8) -> bool {
    |b: u8| crate::ascii::is_digit(b)
}

/// The functional model of response-head parsing.
pub open spec fn spec_parse_response(s: Seq<u8>) -> Parsed<RespHeadView> {
    if s.len() == 0 {
        Parsed::Incomplete
    } else {
        match sp_status_line(s) {
            Parsed::Incomplete => Parsed::Incomplete,
            Parsed::Fail(e) => Parsed::Fail(e),
            Parsed::Done((code, reason, v), k) => {
                match sp_headers(s, k, Seq::empty()) {
                    Parsed::Incomplete => Parsed::Incomplete,
                    Parsed::Fail(e) => Parsed::Fail(e),
                    Parsed::Done(hs, end) => Parsed::Done(
                        RespHeadView { code: code, reason: reason, version: v, headers: hs },
                        end,
                    ),
                }
            },
        }
    }
}

/// A parse yields the head and its length, nothing yet, or an error.
pub type ParseResult<T> = Result<Option<(Incoming<T>, usize)>, HttpError>;

/// Tests a byte for tokenhood.
pub fn is_tchar_byte(b: u8) -> (r: bool)
    ensures
        r == is_tchar(b),
{
    (48 <= b && b <= 57) || (65 <= b && b <= 90) || (97 <= b && b <= 122) || b == 33 || b == 35
        || b == 36 || b == 37 || b == 38 || b == 39 || b == 42 || b == 43 || b == 45 || b == 46
        || b == 94 || b == 95 || b == 96 || b == 124 || b == 126
}

/// Tests a byte for URI membership.
pub fn is_uri_char_byte(b: u8) -> (r: bool)
    ensures
        r == is_uri_char(b),
{
    33 <= b && b <= 126
}

/// Tests a byte for header-value membership.
pub fn is_value_char_byte(b: u8) -> (r: bool)
    ensures
        r == is_value_char(b),
{
    b == 9 || (32 <= b && b <= 126) || b >= 128
}

/// Scans the run of token bytes from `from`.
fn scan_tchars(buf: &[u8], from: usize) -> (end: usize)
    requires
        from <= buf@.len(),
    ensures
        from <= end <= buf@.len(),
        end == scan_while(buf@, from as int, tchar_pred()),
{
    let n = buf.len();
    let mut i: usize = from;
    while i < n && is_tchar_byte(buf[i])
        invariant
            from <= i <= n,
            n == buf@.len(),
            forall|j: int| from <= j < i ==> tchar_pred()(buf@[j]),
        decreases n - i,
    {
        i = i + 1;
    }
    proof {
        lemma_scan_while_is(buf@, from as int, i as int, tchar_pred());
    }
    i
}

/// Scans the run of URI bytes from `from`.
fn scan_uri_chars(buf: &[u8], from: usize) -> (end: usize)
    requires
        from <= buf@.len(),
    ensures
        from <= end <= buf@.len(),
        end == scan_while(buf@, from as int, uri_char_pred()),
{
    let n = buf.len();
    let mut i: usize = from;
    while i < n && is_uri_char_byte(buf[i])
        invariant
            from <= i <= n,
            n == buf@.len(),
            forall|j: int| from <= j < i ==> uri_char_pred()(buf@[j]),
        decreases n - i,
    {
        i = i + 1;
    }
    proof {
        lemma_scan_while_is(buf@, from as int, i as int, uri_char_pred());
    }
    i
}

/// Scans the run of value bytes from `from`.
fn scan_value_chars(buf: &[u8], from: usize) -> (end: usize)
    requires
        from <= buf@.len(),
    ensures
        from <= end <= buf@.len(),
        end == scan_while(buf@, from as int, value_char_pred()),
{
    let n = buf.len();
    let mut i: usize = from;
    while i < n && is_value_char_byte(buf[i])
        invariant
            from <= i <= n,
            n == buf@.len(),
            forall|j: int| from <= j < i ==> value_char_pred()(buf@[j]),
        decreases n - i,
    {
        i = i + 1;
    }
    proof {
        lemma_scan_while_is(buf@, from as int, i as int, value_char_pred());
    }
    i
}

/// Scans the run of optional whitespace from `from`.
fn scan_ows(buf: &[u8], from: usize) -> (end: usize)
    requires
        from <= buf@.len(),
    ensures
        from <= end <= buf@.len(),
        end == scan_while(buf@, from as int, ows_pred()),
{
    let n = buf.len();
    let mut i: usize = from;
    while i < n && crate::ascii::is_ows_byte(buf[i])
        invariant
            from <= i <= n,
            n == buf@.len(),
            forall|j: int| from <= j < i ==> ows_pred()(buf@[j]),
        decreases n - i,
    {
        i = i + 1;
    }
    proof {
        lemma_scan_while_is(buf@, from as int, i as int, ows_pred());
    }
    i
}

/// Matches a fixed pattern at `i`, byte by byte.
fn match_prefix_exec(buf: &[u8], i: usize, pat: &[u8]) -> (r: MatchOut)
    requires
        i <= buf@.len(),
    ensures
        r == match_prefix(buf@, i as int, pat@),
{
    let n = buf.len();
    let m = pat.len();
    let mut k: usize = 0;
    proof {
        assert(pat@.skip(0int) =~= pat@);
    }
    while k < m
        invariant
            k <= m,
            m == pat@.len(),
            n == buf@.len(),
            i <= n,
            i + k <= n,
            forall|j: int| 0 <= j < k ==> buf@[i + j] == pat@[j],
            match_prefix(buf@, i as int, pat@) == match_prefix(buf@, i + k, pat@.skip(k as int)),
        decreases m - k,
    {
        proof {
            assert(pat@.skip(k as int)[0] == pat@[k as int]);
            assert(pat@.skip(k as int).skip(1) =~= pat@.skip(k + 1 as int));
        }
        if i + k >= n {
            return MatchOut::NeedMore;
        }
        if buf[i + k] != pat[k] {
            return MatchOut::Mismatch;
        }
        k = k + 1;
    }
    proof {
        assert(pat@.skip(m as int) =~= Seq::<u8>::empty());
    }
    MatchOut::Matched
}

/// Reads the version token at `i`, giving the version and the index
/// just past it.
fn parse_version_token(buf: &[u8], i: usize) -> (r: Result<Option<(HttpVersion, usize)>, HttpError>)
    requires
        i <= buf@.len(),
    ensures
        match sp_version_token(buf@, i as int) {
            Parsed::Incomplete => r == Result::<Option<(HttpVersion, usize)>, HttpError>::Ok(None),
            Parsed::Fail(e) => r == Result::<Option<(HttpVersion, usize)>, HttpError>::Err(e),
            Parsed::Done(v, k) => r == Result::<Option<(HttpVersion, usize)>, HttpError>::Ok(
                Some((v, k as usize)),
            ) && k == i + 8,
        },
{
    let tmpl: [u8; 7] = [72, 84, 84, 80, 47, 49, 46];
    proof {
        assert(tmpl@ =~= version_template());
    }
    match match_prefix_exec(buf, i, tmpl.as_slice()) {
        MatchOut::NeedMore => Ok(None),
        MatchOut::Mismatch => Err(HttpError::Version),
        MatchOut::Matched => {
            proof {
                lemma_match_prefix_matched(buf@, i as int, tmpl@);
            }
            if buf.len() - i <= 7 {
                return Ok(None);
            }
            let b = buf[i + 7];
            if b == 48 {
                Ok(Some((HttpVersion::Http10, i + 8)))
            } else if b == 49 {
                Ok(Some((HttpVersion::Http11, i + 8)))
            } else {
                Err(HttpError::Version)
            }
        },
    }
}

/// Parses the header block from `k` into a collection, giving the
/// index just past the final empty line.
fn parse_header_block(buf: &[u8], k: usize) -> (r: Result<Option<(Headers, usize)>, HttpError>)
    requires
        k <= buf@.len(),
    ensures
        match sp_headers(buf@, k as int, Seq::empty()) {
            Parsed::Incomplete => r == Result::<Option<(Headers, usize)>, HttpError>::Ok(None),
            Parsed::Fail(e) => r == Result::<Option<(Headers, usize)>, HttpError>::Err(e),
            Parsed::Done(hs, end) => r is Ok && r->Ok_0 is Some && r->Ok_0->Some_0.0@ == hs && r
                ->Ok_0->Some_0.1 == end,
        },
{
    let n = buf.len();
    let mut pos: usize = k;
    let mut headers = Headers::new();
    loop
        invariant
            k <= pos <= n,
            n == buf@.len(),
            headers@.len() <= MAX_HEADERS,
            sp_headers(buf@, k as int, Seq::empty()) == sp_headers(buf@, pos as int, headers@),
        decreases n - pos,
    {
        if pos == n {
            return Ok(None);
        }
        if buf[pos] == 13 {
            if pos + 1 >= n {
                return Ok(None);
            }
            if buf[pos + 1] == 10 {
                return Ok(Some((headers, pos + 2)));
            }
            return Err(HttpError::Header);
        }
        if headers.len() >= MAX_HEADERS {
            return Err(HttpError::Header);
        }
        let nend = scan_tchars(buf, pos);
        if nend == n {
            return Ok(None);
        }
        if buf[nend] != 58 {
            return Err(HttpError::Header);
        }
        if nend == pos {
            return Err(HttpError::Header);
        }
        let vstart = scan_ows(buf, nend + 1);
        if vstart == n {
            return Ok(None);
        }
        let vend = scan_value_chars(buf, vstart);
        if vend == n {
            return Ok(None);
        }
        if buf[vend] != 13 {
            return Err(HttpError::Header);
        }
        if vend + 1 >= n {
            return Ok(None);
        }
        if buf[vend + 1] != 10 {
            return Err(HttpError::Header);
        }
        // trim trailing whitespace off the value
        let mut vtrim: usize = vend;
        while vtrim > vstart && crate::ascii::is_ows_byte(buf[vtrim - 1])
            invariant
                vstart <= vtrim <= vend <= n,
                n == buf@.len(),
                trim_end_ows(buf@.subrange(vstart as int, vend as int)) == trim_end_ows(
                    buf@.subrange(vstart as int, vtrim as int),
                ),
            decreases vtrim,
        {
            proof {
                assert(buf@.subrange(vstart as int, vtrim as int).drop_last() =~= buf@.subrange(
                    vstart as int,
                    vtrim - 1 as int,
                ));
            }
            vtrim = vtrim - 1;
        }
        proof {
            let tv = buf@.subrange(vstart as int, vtrim as int);
            if vtrim > vstart {
                assert(!is_ows(tv.last()));
            }
            assert(trim_end_ows(tv) == tv);
        }
        let name = crate::ascii::subvec(buf, pos, nend);
        let value = crate::ascii::subvec(buf, vstart, vtrim);
        let ghost prev = headers@;
        headers.append(name, value);
        proof {
            assert(headers@ =~= prev.push(
                (
                    buf@.subrange(pos as int, nend as int),
                    trim_end_ows(buf@.subrange(vstart as int, vend as int)),
                ),
            ));
        }
        pos = vend + 2;
    }
}

/// Parses a request head out of a buffer: the parsed head and the
/// bytes consumed, nothing if the head is not complete yet, or the
/// defect that makes the buffer unparseable. [`spec_parse_request`]
/// fixes the result exactly.
pub fn parse_request(buf: &[u8]) -> (r: ParseResult<(Method, RequestUri)>)
    ensures
        match spec_parse_request(buf@) {
            Parsed::Incomplete => r == ParseResult::<(Method, RequestUri)>::Ok(None),
            Parsed::Fail(e) => r == ParseResult::<(Method, RequestUri)>::Err(e),
            Parsed::Done(hv, end) => r is Ok && r->Ok_0 is Some && ({
                let (head, consumed) = r->Ok_0->Some_0;
                &&& head@.subject.0 == hv.method
                &&& head@.subject.1 == hv.uri
                &&& head@.version == hv.version
                &&& head@.headers == hv.headers
                &&& consumed == end
            }),
        },
{
    let n = buf.len();
    if n == 0 {
        return Ok(None);
    }
    let mend = scan_tchars(buf, 0);
    if mend == n {
        return Ok(None);
    }
    if buf[mend] != 32 {
        return Err(HttpError::Method);
    }
    if mend == 0 {
        return Err(HttpError::Method);
    }
    let mtok = crate::ascii::subvec(buf, 0, mend);
    let m = match method_from_bytes(mtok.as_slice()) {
        Some(m) => m,
        None => {
            return Err(HttpError::Method);
        },
    };
    let ustart = mend + 1;
    let uend = scan_uri_chars(buf, ustart);
    if uend == n {
        return Ok(None);
    }
    if buf[uend] != 32 {
        return Err(HttpError::Uri);
    }
    if uend == ustart {
        return Err(HttpError::Uri);
    }
    let (v, k) = match parse_version_token(buf, uend + 1) {
        Ok(Some(vk)) => vk,
        Ok(None) => {
            return Ok(None);
        },
        Err(e) => {
            return Err(e);
        },
    };
    let crlf_pat: [u8; 2] = [13, 10];
    proof {
        assert(crlf_pat@ =~= crate::ascii::crlf());
    }
    match match_prefix_exec(buf, k, crlf_pat.as_slice()) {
        MatchOut::NeedMore => {
            return Ok(None);
        },
        MatchOut::Mismatch => {
            return Err(HttpError::Version);
        },
        MatchOut::Matched => {},
    }
    proof {
        lemma_match_prefix_matched(buf@, k as int, crlf_pat@);
    }
    let (headers, end) = match parse_header_block(buf, k + 2) {
        Ok(Some(he)) => he,
        Ok(None) => {
            return Ok(None);
        },
        Err(e) => {
            return Err(e);
        },
    };
    let utok = crate::ascii::subvec(buf, ustart, uend);
    let uri = uri_from_bytes(utok);
    Ok(Some((Incoming { version: v, subject: (m, uri), headers }, end)))
}

/// Parses a response head out of a buffer. [`spec_parse_response`]
/// fixes the result exactly; the reason phrase is kept verbatim.
pub fn parse_response(buf: &[u8]) -> (r: ParseResult<RawStatus>)
    ensures
        match spec_parse_response(buf@) {
            Parsed::Incomplete => r == ParseResult::<RawStatus>::Ok(None),
            Parsed::Fail(e) => r == ParseResult::<RawStatus>::Err(e),
            Parsed::Done(hv, end) => r is Ok && r->Ok_0 is Some && ({
                let (head, consumed) = r->Ok_0->Some_0;
                &&& head@.subject.0 == hv.code
                &&& head@.subject.1 == hv.reason
                &&& head@.version == hv.version
                &&& head@.headers == hv.headers
                &&& consumed == end
            }),
        },
{
    let n = buf.len();
    if n == 0 {
        return Ok(None);
    }
    let (v, k) = match parse_version_token(buf, 0) {
        Ok(Some(vk)) => vk,
        Ok(None) => {
            return Ok(None);
        },
        Err(e) => {
            return Err(e);
        },
    };
    if k >= n {
        return Ok(None);
    }
    if buf[k] != 32 {
        return Err(HttpError::Version);
    }
    if k + 1 >= n || k + 2 >= n || k + 3 >= n {
        // fewer than three digit positions: incomplete while digits
        // keep coming, malformed otherwise
        let dend = scan_digits(buf, k + 1);
        if dend == n && n - k <= 4 {
            return Ok(None);
        }
        return Err(HttpError::Header);
    }
    let d1 = buf[k + 1];
    let d2 = buf[k + 2];
    let d3 = buf[k + 3];
    if !(48 <= d1 && d1 <= 57) || !(48 <= d2 && d2 <= 57) || !(48 <= d3 && d3 <= 57) {
        return Err(HttpError::Header);
    }
    let code: u16 = (d1 - 48) as u16 * 100 + (d2 - 48) as u16 * 10 + (d3 - 48) as u16;
    if k + 4 >= n {
        return Ok(None);
    }
    let crlf_pat: [u8; 2] = [13, 10];
    proof {
        assert(crlf_pat@ =~= crate::ascii::crlf());
    }
    let (reason, after): (Vec<u8>, usize) = if buf[k + 4] == 13 {
        match match_prefix_exec(buf, k + 4, crlf_pat.as_slice()) {
            MatchOut::NeedMore => {
                return Ok(None);
            },
            MatchOut::Mismatch => {
                return Err(HttpError::Header);
            },
            MatchOut::Matched => {
                proof {
                    lemma_match_prefix_matched(buf@, k + 4 as int, crlf_pat@);
                }
                (Vec::new(), k + 6)
            },
        }
    } else if buf[k + 4] == 32 {
        let rend = scan_value_chars(buf, k + 5);
        if rend == n {
            return Ok(None);
        }
        if buf[rend] != 13 {
            return Err(HttpError::Header);
        }
        if rend + 1 >= n {
            return Ok(None);
        }
        if buf[rend + 1] != 10 {
            return Err(HttpError::Header);
        }
        (crate::ascii::subvec(buf, k + 5, rend), rend + 2)
    } else {
        return Err(HttpError::Header);
    };
    let (headers, end) = match parse_header_block(buf, after) {
        Ok(Some(he)) => he,
        Ok(None) => {
            return Ok(None);
        },
        Err(e) => {
            return Err(e);
        },
    };
    Ok(Some((Incoming { version: v, subject: RawStatus(code, reason), headers }, end)))
}

/// Scans the run of decimal digits from `from`.
fn scan_digits(buf: &[u8], from: usize) -> (end: usize)
    requires
        from <= buf@.len(),
    ensures
        from <= end <= buf@.len(),
        end == scan_while(buf@, from as int, digit_pred()),
{
    let n = buf.len();
    let mut i: usize = from;
    while i < n && 48 <= buf[i] && buf[i] <= 57
        invariant
            from <= i <= n,
            n == buf@.len(),
            forall|j: int| from <= j < i ==> digit_pred()(buf@[j]),
        decreases n - i,
    {
        i = i + 1;
    }
    proof {
        lemma_scan_while_is(buf@, from as int, i as int, digit_pred());
    }
    i
}

} // verus!
