//! Laws of the head parser: parsing is incremental, local to the bytes
//! it consumes, and inverts serialization.

use vstd::prelude::*;
use crate::parse::Parsed;
use crate::parse::MatchOut;
use crate::parse::scan_while;
use crate::parse::match_prefix;
use crate::parse::lemma_scan_while_bounds;
use crate::parse::lemma_scan_while_is;
use crate::parse::lemma_match_prefix_matched;
use crate::parse::lemma_match_prefix_of_eq;
use crate::parse::sp_headers;
use crate::parse::tchar_pred;
use crate::parse::ows_pred;
use crate::parse::value_char_pred;
use crate::parse::MAX_HEADERS;
use crate::parse::spec_parse_request;
use crate::parse::sp_request_line;
use crate::parse::sp_version_token;
use crate::parse::version_template;
use crate::parse::uri_char_pred;
use crate::parse::is_tchar;
use crate::parse::is_uri_char;
use crate::parse::is_value_char;
use crate::parse::ReqHeadView;
use crate::method::Method;
use crate::method::method_bytes;
use crate::method::method_of;
use crate::method::lemma_method_of_bytes;
use crate::version::HttpVersion;
use crate::version::version_bytes;
use crate::headers::headers_bytes;
use crate::headers::field_bytes;
use crate::ascii::crlf;
use crate::ascii::is_ows;
use crate::ascii::trim_end_ows;
use crate::uri::classify_uri;

verus! {

/// A scan that stopped at a byte gives the same answer on any string
/// that carries the same bytes up to and including the stop.
pub proof fn lemma_scan_agree(s: Seq<u8>, t: Seq<u8>, i: int, p: spec_fn(u8) -> bool)
    requires
        0 <= i <= s.len(),
        scan_while(s, i, p) < s.len(),
        scan_while(s, i, p) < t.len(),
        forall|j: int| i <= j <= scan_while(s, i, p) ==> t[j] == s[j],
    ensures
        scan_while(t, i, p) == scan_while(s, i, p),
{
    let e = scan_while(s, i, p);
    lemma_scan_while_bounds(s, i, p);
    assert forall|j: int| i <= j < e implies p(t[j]) by {
        assert(t[j] == s[j]);
    }
    lemma_scan_while_is(t, i, e, p);
}

/// A scan of a truncated string stops at the old stop or at the cut,
/// whichever comes first.
pub proof fn lemma_scan_take(s: Seq<u8>, i: int, p: spec_fn(u8) -> bool, m: int)
    requires
        0 <= i <= m <= s.len(),
    ensures
        scan_while(s.take(m), i, p) == if scan_while(s, i, p) <= m {
            scan_while(s, i, p)
        } else {
            m
        },
{
    let e = scan_while(s, i, p);
    lemma_scan_while_bounds(s, i, p);
    let t = s.take(m);
    if e <= m {
        if e < m {
            assert(t[e] == s[e]);
            lemma_scan_while_is(t, i, e, p);
        } else {
            assert forall|j: int| i <= j < e implies p(t[j]) by {
                assert(t[j] == s[j]);
            }
            lemma_scan_while_is(t, i, e, p);
        }
    } else {
        assert forall|j: int| i <= j < m implies p(t[j]) by {
            assert(t[j] == s[j]);
        }
        lemma_scan_while_is(t, i, m, p);
    }
}

/// A matched pattern stays matched on any string carrying the same
/// bytes over its span.
pub proof fn lemma_match_prefix_agree(s: Seq<u8>, t: Seq<u8>, i: int, pat: Seq<u8>)
    requires
        0 <= i <= s.len(),
        match_prefix(s, i, pat) is Matched,
        i + pat.len() <= t.len(),
        forall|j: int| i <= j < i + pat.len() ==> t[j] == s[j],
    ensures
        match_prefix(t, i, pat) is Matched,
{
    lemma_match_prefix_matched(s, i, pat);
    assert(t.subrange(i, i + pat.len()) =~= s.subrange(i, i + pat.len()));
    lemma_match_prefix_of_eq(t, i, pat);
}

/// Cutting a string inside a matched pattern leaves the match waiting
/// for more bytes; cutting past it leaves it matched.
pub proof fn lemma_match_prefix_take(s: Seq<u8>, i: int, pat: Seq<u8>, m: int)
    requires
        0 <= i <= m <= s.len(),
        match_prefix(s, i, pat) is Matched,
    ensures
        match_prefix(s.take(m), i, pat) == if i + pat.len() <= m {
            MatchOut::Matched
        } else {
            MatchOut::NeedMore
        },
    decreases pat.len(),
{
    lemma_match_prefix_matched(s, i, pat);
    if pat.len() == 0 {
    } else if i == m {
        assert(s.take(m).len() == m);
    } else {
        assert(s.take(m)[i] == s[i]);
        assert(match_prefix(s, i + 1, pat.skip(1)) is Matched);
        lemma_match_prefix_take(s, i + 1, pat.skip(1), m);
    }
}

/// A parsed header block ends past its start, within the string.
pub proof fn lemma_headers_done_bounds(s: Seq<u8>, i: int, acc: Seq<(Seq<u8>, Seq<u8>)>)
    requires
        0 <= i <= s.len(),
        sp_headers(s, i, acc) is Done,
    ensures
        i + 2 <= sp_headers(s, i, acc)->Done_1 <= s.len(),
    decreases s.len() - i,
{
    if i < s.len() && s[i] != 13 && acc.len() < MAX_HEADERS {
        let nend = scan_while(s, i, tchar_pred());
        lemma_scan_while_bounds(s, i, tchar_pred());
        if nend < s.len() && s[nend] == 58 && nend != i {
            let vstart = scan_while(s, nend + 1, ows_pred());
            lemma_scan_while_bounds(s, nend + 1, ows_pred());
            if vstart < s.len() {
                let vend = scan_while(s, vstart, value_char_pred());
                lemma_scan_while_bounds(s, vstart, value_char_pred());
                if vend < s.len() && s[vend] == 13 && vend + 1 < s.len() && s[vend + 1] == 10 {
                    lemma_headers_done_bounds(
                        s,
                        vend + 2,
                        acc.push(
                            (
                                s.subrange(i, nend),
                                crate::ascii::trim_end_ows(s.subrange(vstart, vend)),
                            ),
                        ),
                    );
                }
            }
        }
    }
}

/// A parsed header block parses the same on any string that carries
/// the same bytes up to where it ends.
pub proof fn lemma_headers_agree(s: Seq<u8>, t: Seq<u8>, i: int, acc: Seq<(Seq<u8>, Seq<u8>)>)
    requires
        0 <= i <= s.len(),
        sp_headers(s, i, acc) is Done,
        sp_headers(s, i, acc)->Done_1 <= t.len(),
        forall|j: int| i <= j < sp_headers(s, i, acc)->Done_1 ==> t[j] == s[j],
    ensures
        sp_headers(t, i, acc) == sp_headers(s, i, acc),
    decreases s.len() - i,
{
    let n = sp_headers(s, i, acc)->Done_1;
    lemma_headers_done_bounds(s, i, acc);
    if s[i] == 13 {
        assert(t[i] == 13);
        assert(t[i + 1] == 10);
    } else {
        let nend = scan_while(s, i, tchar_pred());
        lemma_scan_while_bounds(s, i, tchar_pred());
        let vstart = scan_while(s, nend + 1, ows_pred());
        lemma_scan_while_bounds(s, nend + 1, ows_pred());
        let vend = scan_while(s, vstart, value_char_pred());
        lemma_scan_while_bounds(s, vstart, value_char_pred());
        let acc2 = acc.push(
            (s.subrange(i, nend), crate::ascii::trim_end_ows(s.subrange(vstart, vend))),
        );
        lemma_headers_done_bounds(s, vend + 2, acc2);
        assert(vend + 4 <= n);
        lemma_scan_agree(s, t, i, tchar_pred());
        lemma_scan_agree(s, t, nend + 1, ows_pred());
        lemma_scan_agree(s, t, vstart, value_char_pred());
        assert(t.subrange(i, nend) =~= s.subrange(i, nend));
        assert(t.subrange(vstart, vend) =~= s.subrange(vstart, vend));
        lemma_headers_agree(s, t, vend + 2, acc2);
    }
}

/// Cutting the string anywhere inside a parsed header block leaves the
/// parse incomplete.
pub proof fn lemma_headers_take(s: Seq<u8>, i: int, acc: Seq<(Seq<u8>, Seq<u8>)>, m: int)
    requires
        0 <= i <= s.len(),
        sp_headers(s, i, acc) is Done,
        i <= m < sp_headers(s, i, acc)->Done_1,
    ensures
        sp_headers(s.take(m), i, acc) is Incomplete,
    decreases s.len() - i,
{
    let n = sp_headers(s, i, acc)->Done_1;
    lemma_headers_done_bounds(s, i, acc);
    let t = s.take(m);
    if s[i] == 13 {
        assert(n == i + 2);
        if m == i {
            assert(t.len() == i);
        } else {
            assert(t[i] == 13);
            assert(i + 1 >= t.len());
        }
    } else {
        let nend = scan_while(s, i, tchar_pred());
        lemma_scan_while_bounds(s, i, tchar_pred());
        let vstart = scan_while(s, nend + 1, ows_pred());
        lemma_scan_while_bounds(s, nend + 1, ows_pred());
        let vend = scan_while(s, vstart, value_char_pred());
        lemma_scan_while_bounds(s, vstart, value_char_pred());
        let acc2 = acc.push(
            (s.subrange(i, nend), crate::ascii::trim_end_ows(s.subrange(vstart, vend))),
        );
        lemma_headers_done_bounds(s, vend + 2, acc2);
        assert(vend + 4 <= n);
        lemma_scan_take(s, i, tchar_pred(), m);
        if m <= nend {
            assert(scan_while(t, i, tchar_pred()) == m);
            assert(t.len() == m);
        } else {
            assert(scan_while(t, i, tchar_pred()) == nend);
            assert(t[nend] == 58);
            lemma_scan_take(s, nend + 1, ows_pred(), m);
            if vstart >= m {
                assert(scan_while(t, nend + 1, ows_pred()) == m);
            } else {
                assert(scan_while(t, nend + 1, ows_pred()) == vstart);
                lemma_scan_take(s, vstart, value_char_pred(), m);
                if vend >= m {
                    assert(scan_while(t, vstart, value_char_pred()) == m);
                } else {
                    assert(scan_while(t, vstart, value_char_pred()) == vend);
                    assert(t[vend] == 13);
                    if m == vend + 1 {
                        assert(vend + 1 >= t.len());
                    } else {
                        assert(t[vend + 1] == 10);
                        assert(t.subrange(i, nend) =~= s.subrange(i, nend));
                        assert(t.subrange(vstart, vend) =~= s.subrange(vstart, vend));
                        lemma_headers_take(s, vend + 2, acc2, m);
                        assert(s.take(m).take(m) =~= s.take(m));
                    }
                }
            }
        }
    }
}

/// Where the pieces of a parsed request head sit in the buffer. A
/// helper that names the request-line positions of a completed parse.
pub proof fn lemma_request_positions(s: Seq<u8>)
    requires
        spec_parse_request(s) is Done,
    ensures
        ({
            let mend = scan_while(s, 0, tchar_pred());
            let uend = scan_while(s, mend + 1, uri_char_pred());
            &&& 0 < mend < s.len()
            &&& s[mend] == 32
            &&& crate::method::method_of(s.subrange(0, mend)) is Some
            &&& mend + 1 < uend < s.len()
            &&& s[uend] == 32
            &&& match_prefix(s, uend + 1, version_template()) is Matched
            &&& uend + 8 < s.len()
            &&& (s[uend + 8] == 48 || s[uend + 8] == 49)
            &&& match_prefix(s, uend + 9, crate::ascii::crlf()) is Matched
            &&& sp_headers(s, uend + 11, Seq::empty()) is Done
            &&& uend + 11 + 2 <= sp_headers(s, uend + 11, Seq::empty())->Done_1
            &&& sp_headers(s, uend + 11, Seq::empty())->Done_1 == spec_parse_request(s)->Done_1
            &&& sp_headers(s, uend + 11, Seq::empty())->Done_1 <= s.len()
        }),
{
    let mend = scan_while(s, 0, tchar_pred());
    lemma_scan_while_bounds(s, 0, tchar_pred());
    let uend = scan_while(s, mend + 1, uri_char_pred());
    lemma_scan_while_bounds(s, mend + 1, uri_char_pred());
    lemma_match_prefix_matched(s, uend + 1, version_template());
    lemma_match_prefix_matched(s, uend + 9, crate::ascii::crlf());
    lemma_headers_done_bounds(s, uend + 11, Seq::empty());
}

/// Locality: a completed parse reads nothing past what it consumes.
/// Any buffer that carries the same consumed bytes — in particular the
/// same head with any body appended — parses to the same head.
pub proof fn lemma_parse_request_extends(s: Seq<u8>, t: Seq<u8>)
    requires
        spec_parse_request(s) is Done,
        spec_parse_request(s)->Done_1 <= t.len(),
        forall|j: int| 0 <= j < spec_parse_request(s)->Done_1 ==> t[j] == s[j],
    ensures
        spec_parse_request(t) == spec_parse_request(s),
{
    let n = spec_parse_request(s)->Done_1;
    lemma_request_positions(s);
    let mend = scan_while(s, 0, tchar_pred());
    let uend = scan_while(s, mend + 1, uri_char_pred());
    let k = uend + 9;
    lemma_headers_done_bounds(s, k + 2, Seq::empty());
    lemma_scan_agree(s, t, 0, tchar_pred());
    assert(t.subrange(0, mend) =~= s.subrange(0, mend));
    lemma_scan_agree(s, t, mend + 1, uri_char_pred());
    assert(t.subrange(mend + 1, uend) =~= s.subrange(mend + 1, uend));
    lemma_match_prefix_agree(s, t, uend + 1, version_template());
    assert(t[uend + 8] == s[uend + 8]);
    lemma_match_prefix_agree(s, t, k, crate::ascii::crlf());
    lemma_headers_agree(s, t, k + 2, Seq::empty());
}

/// Incremental parse: cut a buffer anywhere inside a head it holds,
/// and the cut buffer parses as incomplete. With
/// [`lemma_parse_request_extends`], two sequential parses over a
/// growing buffer yield nothing and then the same head a single parse
/// of the whole buffer yields.
pub proof fn lemma_parse_request_incremental(s: Seq<u8>, m: int)
    requires
        spec_parse_request(s) is Done,
        0 <= m < spec_parse_request(s)->Done_1,
    ensures
        spec_parse_request(s.take(m)) is Incomplete,
{
    let n = spec_parse_request(s)->Done_1;
    lemma_request_positions(s);
    let mend = scan_while(s, 0, tchar_pred());
    let uend = scan_while(s, mend + 1, uri_char_pred());
    let k = uend + 9;
    lemma_headers_done_bounds(s, k + 2, Seq::empty());
    let t = s.take(m);
    if m == 0 {
        assert(t.len() == 0);
    } else {
        lemma_scan_take(s, 0, tchar_pred(), m);
        if m <= mend {
            assert(scan_while(t, 0, tchar_pred()) == m);
            assert(t.len() == m);
        } else {
            assert(scan_while(t, 0, tchar_pred()) == mend);
            assert(t[mend] == 32);
            assert(t.subrange(0, mend) =~= s.subrange(0, mend));
            lemma_scan_take(s, mend + 1, uri_char_pred(), m);
            if m <= uend {
                assert(scan_while(t, mend + 1, uri_char_pred()) == m);
                assert(t.len() == m);
            } else {
                assert(scan_while(t, mend + 1, uri_char_pred()) == uend);
                assert(t[uend] == 32);
                assert(t.subrange(mend + 1, uend) =~= s.subrange(mend + 1, uend));
                lemma_match_prefix_take(s, uend + 1, version_template(), m);
                if uend + 8 > m {
                    assert(match_prefix(t, uend + 1, version_template()) is NeedMore);
                } else if m == uend + 8 {
                    assert(match_prefix(t, uend + 1, version_template()) is Matched);
                    assert(uend + 1 + 7 >= t.len());
                } else {
                    assert(match_prefix(t, uend + 1, version_template()) is Matched);
                    assert(t[uend + 8] == s[uend + 8]);
                    lemma_match_prefix_take(s, k, crate::ascii::crlf(), m);
                    if m < k + 2 {
                        assert(match_prefix(t, k, crate::ascii::crlf()) is NeedMore);
                    } else {
                        assert(match_prefix(t, k, crate::ascii::crlf()) is Matched);
                        lemma_headers_take(s, k + 2, Seq::empty(), m);
                    }
                }
            }
        }
    }
}

/// Every byte of a method token is a token byte.
pub proof fn lemma_method_bytes_tchars(m: Method)
    ensures
        forall|i: int| 0 <= i < method_bytes(m).len() ==> is_tchar(#[trigger] method_bytes(m)[i]),
{
    let mb = method_bytes(m);
    assert forall|i: int| 0 <= i < mb.len() implies is_tchar(mb[i]) by {
        assert(65 <= mb[i] <= 90);
    }
}

/// A serialized header block reads first field first.
pub proof fn lemma_headers_bytes_first(hs: Seq<(Seq<u8>, Seq<u8>)>)
    requires
        hs.len() > 0,
    ensures
        headers_bytes(hs) == field_bytes(hs.first()) + headers_bytes(hs.drop_first()),
    decreases hs.len(),
{
    if hs.len() == 1 {
        assert(hs.drop_last() =~= Seq::<(Seq<u8>, Seq<u8>)>::empty());
        assert(hs.drop_first() =~= Seq::<(Seq<u8>, Seq<u8>)>::empty());
        assert(headers_bytes(hs) =~= field_bytes(hs.first()) + headers_bytes(hs.drop_first()));
    } else {
        let pre = hs.drop_last();
        lemma_headers_bytes_first(pre);
        assert(pre.first() == hs.first());
        assert(pre.drop_first() =~= hs.drop_first().drop_last());
        assert(hs.drop_first().last() == hs.last());
        assert(headers_bytes(hs) == headers_bytes(pre) + field_bytes(hs.last()));
        assert(headers_bytes(hs.drop_first()) == headers_bytes(hs.drop_first().drop_last())
            + field_bytes(hs.last()));
        assert(headers_bytes(pre) + field_bytes(hs.last()) =~= field_bytes(hs.first()) + (
        headers_bytes(hs.drop_first().drop_last()) + field_bytes(hs.last())));
    }
}

/// A URI token fit for serialization: non-empty, URI bytes only.
pub open spec fn wf_uri_bytes(u: Seq<u8>) -> bool {
    u.len() > 0 && forall|i: int| 0 <= i < u.len() ==> is_uri_char(#[trigger] u[i])
}

/// A header field fit for serialization: a non-empty token name, and a
/// value of value bytes that neither starts nor ends with whitespace.
pub open spec fn wf_field(f: (Seq<u8>, Seq<u8>)) -> bool {
    &&& f.0.len() > 0
    &&& forall|i: int| 0 <= i < f.0.len() ==> is_tchar(#[trigger] f.0[i])
    &&& forall|i: int| 0 <= i < f.1.len() ==> is_value_char(#[trigger] f.1[i])
    &&& (f.1.len() > 0 ==> !is_ows(f.1[0]) && !is_ows(f.1.last()))
}

/// A header list fit for serialization.
pub open spec fn wf_fields(hs: Seq<(Seq<u8>, Seq<u8>)>) -> bool {
    forall|k: int| 0 <= k < hs.len() ==> wf_field(#[trigger] hs[k])
}

/// The wire form of a whole request head: the request line, the header
/// block, and the final empty line.
pub open spec fn request_head_bytes(
    m: Method,
    u: Seq<u8>,
    v: HttpVersion,
    hs: Seq<(Seq<u8>, Seq<u8>)>,
) -> Seq<u8> {
    method_bytes(m) + seq![32u8] + u + seq![32u8] + version_bytes(v) + crlf() + headers_bytes(hs)
        + crlf()
}

/// What byte a serialized field holds at offset `j`.
pub open spec fn fb_byte(f: (Seq<u8>, Seq<u8>), j: int) -> bool {
    let nlen = f.0.len() as int;
    let vlen = f.1.len() as int;
    let fb = field_bytes(f);
    if j < nlen {
        fb[j] == f.0[j]
    } else if j == nlen {
        fb[j] == 58
    } else if j == nlen + 1 {
        fb[j] == 32
    } else if j < nlen + 2 + vlen {
        fb[j] == f.1[j - nlen - 2]
    } else if j == nlen + 2 + vlen {
        fb[j] == 13
    } else {
        fb[j] == 10
    }
}

/// A serialized header block, standing at `i` and closed by the empty
/// line, parses back to exactly its fields.
proof fn lemma_headers_round_trip(
    s: Seq<u8>,
    i: int,
    hs: Seq<(Seq<u8>, Seq<u8>)>,
    acc: Seq<(Seq<u8>, Seq<u8>)>,
)
    requires
        0 <= i,
        i + headers_bytes(hs).len() + 2 <= s.len(),
        s.subrange(i, i + headers_bytes(hs).len() + 2) == headers_bytes(hs) + crlf(),
        wf_fields(hs),
        acc.len() + hs.len() <= MAX_HEADERS,
    ensures
        sp_headers(s, i, acc) == Parsed::<Seq<(Seq<u8>, Seq<u8>)>>::Done(
            acc + hs,
            i + headers_bytes(hs).len() + 2,
        ),
    decreases hs.len(),
{
    if hs.len() == 0 {
        assert(headers_bytes(hs).len() == 0);
        assert(s[i] == (headers_bytes(hs) + crlf())[0]);
        assert(s[i] == 13);
        assert(s[i + 1] == (headers_bytes(hs) + crlf())[1]);
        assert(s[i + 1] == 10);
        assert(acc + hs =~= acc);
    } else {
        let f = hs.first();
        let rest = hs.drop_first();
        assert(wf_field(f));
        assert(wf_fields(rest)) by {
            assert(forall|k: int| 0 <= k < rest.len() ==> rest[k] == hs[k + 1]);
        }
        lemma_headers_bytes_first(hs);
        let fb = field_bytes(f);
        let nlen = f.0.len() as int;
        let vlen = f.1.len() as int;
        assert(fb.len() == nlen + 2 + vlen + 2);
        let total = headers_bytes(hs).len() as int;
        // each byte of the field stands at its offset
        assert(headers_bytes(hs).len() == fb.len() + headers_bytes(rest).len());
        assert forall|j: int| i <= j < i + fb.len() implies #[trigger] s[j] == fb[j - i] by {
            assert(s[j] == s.subrange(i, i + total + 2)[j - i]);
            assert((headers_bytes(hs) + crlf())[j - i] == headers_bytes(hs)[j - i]);
            assert(headers_bytes(hs)[j - i] == (fb + headers_bytes(rest))[j - i]);
            assert((fb + headers_bytes(rest))[j - i] == fb[j - i]);
        }
        assert forall|j: int| 0 <= j < fb.len() implies fb_byte(f, j) by {
            if j < nlen {
                assert(fb[j] == f.0[j]);
            } else if j == nlen {
                assert(fb[j] == 58);
            } else if j == nlen + 1 {
                assert(fb[j] == 32);
            } else if j < nlen + 2 + vlen {
                assert(fb[j] == f.1[j - nlen - 2]);
            } else if j == nlen + 2 + vlen {
                assert(fb[j] == 13);
            } else {
                assert(fb[j] == 10);
            }
        }
        // the name scan stops at the colon
        assert forall|j: int| i <= j < i + nlen implies tchar_pred()(#[trigger] s[j]) by {
            assert(s[j] == fb[j - i]);
            assert(fb_byte(f, j - i));
        }
        assert(s[i + nlen] == 58) by {
            assert(fb_byte(f, nlen));
        }
        assert(s[i + nlen + 1] == 32) by {
            assert(fb_byte(f, nlen + 1));
        }
        assert forall|j: int| 0 <= j < vlen implies #[trigger] f.1[j] == s[i + nlen + 2 + j] by {
            assert(s[i + nlen + 2 + j] == fb[nlen + 2 + j]);
            assert(fb_byte(f, nlen + 2 + j));
        }
        assert(s[i + nlen + 2 + vlen] == 13) by {
            assert(fb_byte(f, nlen + 2 + vlen));
        }
        assert(s[i + nlen + 2 + vlen + 1] == 10) by {
            assert(fb_byte(f, nlen + 2 + vlen + 1));
        }
        assert(!tchar_pred()(s[i + nlen]));
        lemma_scan_while_is(s, i, i + nlen, tchar_pred());
        let nend = i + nlen;
        assert(s[i] == f.0[0] && is_tchar(f.0[0]));
        assert(s[i] != 13);
        // the whitespace scan stops after the single space
        assert(is_ows(s[nend + 1]));
        assert(!is_ows(s[nend + 2])) by {
            if vlen > 0 {
                assert(s[nend + 2] == f.1[0]);
            } else {
                assert(s[nend + 2] == 13);
            }
        }
        assert(forall|j: int| nend + 1 <= j < nend + 2 ==> ows_pred()(s[j]));
        lemma_scan_while_is(s, nend + 1, nend + 2, ows_pred());
        let vstart = nend + 2;
        // the value scan stops at the carriage return
        assert(forall|j: int| vstart <= j < vstart + vlen ==> value_char_pred()(s[j]));
        assert(!value_char_pred()(s[vstart + vlen]));
        lemma_scan_while_is(s, vstart, vstart + vlen, value_char_pred());
        let vend = vstart + vlen;
        assert(s.subrange(i, nend) =~= f.0);
        assert(s.subrange(vstart, vend) =~= f.1);
        assert(trim_end_ows(f.1) == f.1);
        let acc2 = acc.push((s.subrange(i, nend), trim_end_ows(s.subrange(vstart, vend))));
        assert(acc2 =~= acc.push(f));
        // the rest of the block stands right after this line
        let rlen = headers_bytes(rest).len() as int;
        assert forall|j: int| vend + 2 <= j < vend + 2 + rlen + 2 implies #[trigger] s[j] == (
        headers_bytes(rest) + crlf())[j - (vend + 2)] by {
            assert(s[j] == s.subrange(i, i + total + 2)[j - i]);
            assert(vend + 2 == i + fb.len());
            if j - i < total {
                assert((headers_bytes(hs) + crlf())[j - i] == headers_bytes(hs)[j - i]);
                assert(headers_bytes(hs)[j - i] == (fb + headers_bytes(rest))[j - i]);
                assert((fb + headers_bytes(rest))[j - i] == headers_bytes(rest)[j - i
                    - fb.len()]);
                assert((headers_bytes(rest) + crlf())[j - (vend + 2)] == headers_bytes(rest)[j
                    - (vend + 2)]);
            } else {
                assert((headers_bytes(hs) + crlf())[j - i] == crlf()[j - i - total]);
                assert((headers_bytes(rest) + crlf())[j - (vend + 2)] == crlf()[j - (vend + 2)
                    - rlen]);
            }
        }
        assert(s.subrange(vend + 2, vend + 2 + rlen + 2) =~= headers_bytes(rest) + crlf());
        lemma_headers_round_trip(s, vend + 2, rest, acc.push(f));
        assert(acc.push(f) + rest =~= acc + hs);
        assert(vend + 2 + headers_bytes(rest).len() + 2 == i + total + 2);
    }
}

/// Parse round-trip: a request head assembled from a known method, a
/// well-formed URI, a version, and well-formed headers — followed by
/// any body — parses back to exactly those parts, consuming exactly
/// the head. The consumed count is the offset of the first body byte.
pub proof fn lemma_parse_round_trip(
    m: Method,
    u: Seq<u8>,
    v: HttpVersion,
    hs: Seq<(Seq<u8>, Seq<u8>)>,
    body: Seq<u8>,
)
    requires
        wf_uri_bytes(u),
        wf_fields(hs),
        hs.len() <= MAX_HEADERS,
    ensures
        spec_parse_request(request_head_bytes(m, u, v, hs) + body) == Parsed::<ReqHeadView>::Done(
            ReqHeadView { method: m, uri: classify_uri(u), version: v, headers: hs },
            request_head_bytes(m, u, v, hs).len() as int,
        ),
{
    let head = request_head_bytes(m, u, v, hs);
    let s = head + body;
    let mb = method_bytes(m);
    let mlen = mb.len() as int;
    let ulen = u.len() as int;
    let hblen = headers_bytes(hs).len() as int;
    lemma_method_bytes_tchars(m);
    assert(forall|j: int| 0 <= j < mlen ==> s[j] == mb[j]);
    assert(s[mlen] == 32);
    assert(forall|j: int| 0 <= j < ulen ==> s[mlen + 1 + j] == u[j]);
    assert(s[mlen + 1 + ulen] == 32);
    let vstart = mlen + 1 + ulen + 1;
    assert(forall|j: int| 0 <= j < 8 ==> s[vstart + j] == version_bytes(v)[j]);
    assert(s[vstart + 8] == 13);
    assert(s[vstart + 9] == 10);
    // the method scan stops at the first space
    assert(forall|j: int| 0 <= j < mlen ==> tchar_pred()(s[j]));
    assert(!tchar_pred()(s[mlen]));
    lemma_scan_while_is(s, 0, mlen, tchar_pred());
    assert(s.subrange(0, mlen) =~= mb);
    lemma_method_of_bytes(m);
    // the URI scan stops at the second space
    assert(forall|j: int| mlen + 1 <= j < mlen + 1 + ulen ==> uri_char_pred()(s[j]));
    assert(!uri_char_pred()(s[mlen + 1 + ulen]));
    lemma_scan_while_is(s, mlen + 1, mlen + 1 + ulen, uri_char_pred());
    assert(s.subrange(mlen + 1, mlen + 1 + ulen) =~= u);
    // the version token stands verbatim
    assert(s.subrange(vstart, vstart + 7) =~= version_template()) by {
        assert(forall|j: int| 0 <= j < 7 ==> version_bytes(v)[j] == version_template()[j]);
    }
    lemma_match_prefix_of_eq(s, vstart, version_template());
    assert(s[vstart + 7] == version_bytes(v)[7]);
    assert(s.subrange(vstart + 8, vstart + 10) =~= crlf());
    lemma_match_prefix_of_eq(s, vstart + 8, crlf());
    // the headers stand right after the request line
    let hstart = vstart + 10;
    assert(s.subrange(hstart, hstart + hblen + 2) =~= headers_bytes(hs) + crlf());
    lemma_headers_round_trip(s, hstart, hs, Seq::empty());
    assert(Seq::<(Seq<u8>, Seq<u8>)>::empty() + hs =~= hs);
    assert(hstart + hblen + 2 == head.len());
    match v {
        HttpVersion::Http10 => {
            assert(s[vstart + 7] == 48);
        },
        HttpVersion::Http11 => {
            assert(s[vstart + 7] == 49);
        },
    }
}

} // verus!
