//! The framing-aware transfer: writes the response head, chooses the
//! body framing, and streams body bytes through it.

use vstd::prelude::*;
use crate::ascii::crlf;
use crate::ascii::dec_bytes;
use crate::ascii::push_crlf;
use crate::ascii::push_dec_u64;
use crate::date::UtcTime;
use crate::date::imf_fixdate_bytes;
use crate::date::format_http_date;
use crate::date::now_utc;
use crate::headers::Headers;
use crate::headers::has_name;
use crate::headers::has_token;
use crate::headers::headers_bytes;
use crate::headers::push_headers;
use crate::headers::spec_content_length;
use crate::status::reason_phrase;
use crate::status::push_reason;
use crate::transport::AsyncWriter;
use crate::transport::Lease;
use crate::version::HttpVersion;
use crate::version::push_version;
use crate::version::version_bytes;
use crate::write::HttpWriter;

verus! {

/// The outgoing half of an exchange while the head is still open: the
/// leased transport, waiting for `start` to commit the head.
#[derive(Debug)]
pub struct Transfer {
    /// The writer over the leased transport.
    pub out: AsyncWriter,
}

/// The outgoing half of an exchange once the head is committed: body
/// bytes flow through the chosen framing.
#[derive(Debug)]
pub struct StreamingTransfer {
    /// The framed body writer; sized or chunked, fixed at `start`.
    pub body: HttpWriter,
}

/// Wraps a leased transport for a fresh exchange.
pub fn transfer(trans: Lease) -> (r: Transfer)
    ensures
        r.out.lease == trans,
{
    Transfer { out: AsyncWriter::new(trans) }
}

/// The lower-case name of the `Date` header.
pub open spec fn date_name() -> Seq<u8> {
    seq![100u8, 97u8, 116u8, 101u8]
}

/// The lower-case name of the `Transfer-Encoding` header.
pub open spec fn te_name() -> Seq<u8> {
    seq![116u8, 114u8, 97u8, 110u8, 115u8, 102u8, 101u8, 114u8, 45u8, 101u8, 110u8, 99u8, 111u8, 100u8, 105u8, 110u8, 103u8]
}

/// The `chunked` transfer-coding token.
pub open spec fn chunked_token() -> Seq<u8> {
    seq![99u8, 104u8, 117u8, 110u8, 107u8, 101u8, 100u8]
}

/// The wire name `Date`.
pub open spec fn date_wire_name() -> Seq<u8> {
    seq![68u8, 97u8, 116u8, 101u8]
}

/// The wire name `Transfer-Encoding`.
pub open spec fn te_wire_name() -> Seq<u8> {
    seq![84u8, 114u8, 97u8, 110u8, 115u8, 102u8, 101u8, 114u8, 45u8, 69u8, 110u8, 99u8, 111u8, 100u8, 105u8, 110u8, 103u8]
}

/// What `start` leaves in the headers: a `Date` header joins unless
/// one is present; and where no `Content-Length` chose sized framing,
/// a `Transfer-Encoding` lists `chunked` unless one already does.
pub open spec fn headers_after_start(hs: Seq<(Seq<u8>, Seq<u8>)>, date: Seq<u8>) -> Seq<
    (Seq<u8>, Seq<u8>),
> {
    let hs1 = if has_name(hs, date_name()) {
        hs
    } else {
        hs.push((date_wire_name(), date))
    };
    if spec_content_length(hs) is Some {
        hs1
    } else if has_token(hs1, te_name(), chunked_token()) {
        hs1
    } else {
        hs1.push((te_wire_name(), chunked_token()))
    }
}

/// What committing the head leaves behind, for the moment `t` at
/// which it happened: the headers as mutated, and the head bytes on
/// the transport queue.
pub open spec fn start_post(
    pre: AsyncWriter,
    version: HttpVersion,
    status: u16,
    hs0: Seq<(Seq<u8>, Seq<u8>)>,
    hs_final: Seq<(Seq<u8>, Seq<u8>)>,
    body: HttpWriter,
    t: UtcTime,
) -> bool {
    &&& t.wf()
    &&& 0 <= t.year <= 9999
    &&& hs_final == headers_after_start(hs0, imf_fixdate_bytes(t))
    &&& crate::write::sink_closed(body) == pre.lease.transport.closed
    &&& crate::write::sink_out(body) == if pre.lease.transport.closed {
        pre.lease.transport.out@
    } else {
        pre.lease.transport.out@ + head_bytes_of(version, status, hs_final)
    }
}

/// The serialized head: the status line, the headers, the empty line.
pub open spec fn head_bytes_of(v: HttpVersion, status: u16, hs: Seq<(Seq<u8>, Seq<u8>)>) -> Seq<
    u8,
> {
    version_bytes(v) + seq![32u8] + dec_bytes(status as nat) + seq![32u8] + reason_phrase(status)
        + crlf() + headers_bytes(hs) + crlf()
}

impl Transfer {
    /// Commits the head: writes the status line, injects a `Date`
    /// header if the handler set none, chooses sized framing when a
    /// `Content-Length` is set and chunked framing otherwise (marking
    /// the transfer encoding), writes the headers and the empty line,
    /// and hands back the streaming half with the chosen writer.
    pub fn start(self, version: HttpVersion, status: u16, headers: &mut Headers) -> (r:
        StreamingTransfer)
        ensures
            exists|t: UtcTime|
                start_post(self.out, version, status, old(headers)@, final(headers)@, r.body, t),
            match spec_content_length(old(headers)@) {
                Some(n) => r.body is SizedWriter && r.body->SizedWriter_1 == n,
                None => r.body is ChunkedWriter,
            },
    {
        let ghost hs0 = headers@;
        // inject a Date header when the handler set none
        let date_probe: [u8; 4] = [100, 97, 116, 101];
        proof {
            assert(date_probe@ =~= date_name());
        }
        let t = now_utc();
        if !headers.has(date_probe.as_slice()) {
            let wire: [u8; 4] = [68, 97, 116, 101];
            proof {
                assert(wire@ =~= date_wire_name());
            }
            let mut wire_vec: Vec<u8> = Vec::new();
            crate::ascii::push_bytes(&mut wire_vec, wire.as_slice());
            headers.append(wire_vec, format_http_date(t));
            proof {
                assert(headers@ =~= hs0.push((date_wire_name(), imf_fixdate_bytes(t))));
            }
        }
        let ghost hs1 = headers@;
        // choose the framing
        let framing: Option<u64> = headers.content_length();
        proof {
            assert(spec_content_length(headers@) == spec_content_length(hs0)) by {
                cl_unaffected_by_date(hs0, imf_fixdate_bytes(t));
            }
        }
        if framing.is_none() {
            // chunked: make sure a Transfer-Encoding says so
            let te_probe: Vec<u8> = te_probe_bytes();
            let chunked: Vec<u8> = chunked_bytes();
            if !headers.has_list_token(te_probe.as_slice(), chunked.as_slice()) {
                let te_wire: Vec<u8> = te_wire_bytes();
                headers.append(te_wire, chunked_bytes());
                proof {
                    assert(headers@ =~= hs1.push((te_wire_name(), chunked_token())));
                }
            }
        }
        proof {
            assert(headers@ =~= headers_after_start(hs0, imf_fixdate_bytes(t)));
        }
        // serialize the head
        let mut head: Vec<u8> = Vec::new();
        push_version(&mut head, version);
        head.push(32);
        push_dec_u64(&mut head, status as u64);
        head.push(32);
        push_reason(&mut head, status);
        push_crlf(&mut head);
        push_headers(&mut head, headers);
        push_crlf(&mut head);
        proof {
            assert(head@ =~= head_bytes_of(version, status, headers@));
        }
        let mut aw = self.out;
        aw.write(head.as_slice());
        let body = match framing {
            Some(n) => HttpWriter::SizedWriter(aw, n),
            None => HttpWriter::ChunkedWriter(aw),
        };
        proof {
            assert(start_post(self.out, version, status, hs0, headers@, body, t));
        }
        StreamingTransfer { body }
    }
}

impl StreamingTransfer {
    /// Writes one body fragment through the chosen framing.
    pub fn write(&mut self, data: &[u8])
        ensures
            crate::write::same_framing_less(
                old(self).body,
                final(self).body,
                crate::write::accepted_of(old(self).body, data@),
            ),
            crate::write::sink_closed(final(self).body) == crate::write::sink_closed(
                old(self).body,
            ),
            crate::write::sink_out(final(self).body) == if crate::write::sink_closed(
                old(self).body,
            ) {
                crate::write::sink_out(old(self).body)
            } else {
                crate::write::sink_out(old(self).body) + crate::write::emitted(
                    old(self).body,
                    data@,
                )
            },
    {
        let _ = self.body.write(data);
    }

    /// Whether the sized framing still owes body bytes.
    pub fn has_pending_length(&self) -> (r: bool)
        ensures
            r == crate::write::sized_pending(self.body),
    {
        match &self.body {
            HttpWriter::SizedWriter(_, rem) => *rem > 0,
            _ => false,
        }
    }

    /// Finishes the body — the chunked framing emits its terminal
    /// zero-chunk — and gives the lease back.
    pub fn finish(self) -> (r: Lease)
        ensures
            r.transport.closed == crate::write::sink_closed(self.body),
            r.transport.out@ == if crate::write::sink_closed(self.body) {
                crate::write::sink_out(self.body)
            } else {
                crate::write::sink_out(self.body) + crate::write::finalizer(self.body)
            },
    {
        self.body.end().into_lease()
    }
}

/// The lower-case transfer-encoding name as a fresh vector.
fn te_probe_bytes() -> (r: Vec<u8>)
    ensures
        r@ == te_name(),
{
    let a: [u8; 17] = [116, 114, 97, 110, 115, 102, 101, 114, 45, 101, 110, 99, 111, 100, 105, 110, 103];
    let mut v: Vec<u8> = Vec::new();
    crate::ascii::push_bytes(&mut v, a.as_slice());
    proof {
        assert(v@ =~= te_name());
    }
    v
}

/// The wire transfer-encoding name as a fresh vector.
fn te_wire_bytes() -> (r: Vec<u8>)
    ensures
        r@ == te_wire_name(),
{
    let a: [u8; 17] = [84, 114, 97, 110, 115, 102, 101, 114, 45, 69, 110, 99, 111, 100, 105, 110, 103];
    let mut v: Vec<u8> = Vec::new();
    crate::ascii::push_bytes(&mut v, a.as_slice());
    proof {
        assert(v@ =~= te_wire_name());
    }
    v
}

/// The chunked token as a fresh vector.
fn chunked_bytes() -> (r: Vec<u8>)
    ensures
        r@ == chunked_token(),
{
    let a: [u8; 7] = [99, 104, 117, 110, 107, 101, 100];
    let mut v: Vec<u8> = Vec::new();
    crate::ascii::push_bytes(&mut v, a.as_slice());
    proof {
        assert(v@ =~= chunked_token());
    }
    v
}

/// Adding a `Date` field does not touch the `Content-Length`.
proof fn cl_unaffected_by_date(hs: Seq<(Seq<u8>, Seq<u8>)>, date: Seq<u8>)
    ensures
        spec_content_length(
            if has_name(hs, date_name()) {
                hs
            } else {
                hs.push((date_wire_name(), date))
            },
        ) == spec_content_length(hs),
{
    if !has_name(hs, date_name()) {
        assert(crate::ascii::lower(date_wire_name()).len() == 4);
        assert(crate::ascii::lower(crate::headers::content_length_name()).len() == 14);
        lemma_first_value_push_other(
            hs,
            crate::headers::content_length_name(),
            date_wire_name(),
            date,
        );
    }
}

/// Appending a field of another name leaves a first-value lookup as it
/// was, unless the name was absent and stays absent.
proof fn lemma_first_value_push_other(
    hs: Seq<(Seq<u8>, Seq<u8>)>,
    name: Seq<u8>,
    other: Seq<u8>,
    val: Seq<u8>,
)
    requires
        crate::ascii::lower(other) != crate::ascii::lower(name),
    ensures
        crate::headers::first_value(hs.push((other, val)), name) == crate::headers::first_value(
            hs,
            name,
        ),
    decreases hs.len(),
{
    let pushed = hs.push((other, val));
    if hs.len() == 0 {
        assert(pushed[0] == (other, val));
        assert(pushed.skip(1) =~= Seq::<(Seq<u8>, Seq<u8>)>::empty());
        assert(crate::headers::first_value(Seq::<(Seq<u8>, Seq<u8>)>::empty(), name) is None);
        assert(crate::headers::first_value(hs, name) is None);
    } else {
        assert(pushed[0] == hs[0]);
        assert(pushed.skip(1) =~= hs.skip(1).push((other, val)));
        lemma_first_value_push_other(hs.skip(1), name, other, val);
    }
}

/// Date header injected: where the handler set no `Date` header, the
/// committed headers carry one, and the value the engine injects is a
/// syntactically valid fixed-form date.
pub proof fn lemma_date_header_injected(hs: Seq<(Seq<u8>, Seq<u8>)>, t: UtcTime)
    requires
        !has_name(hs, date_name()),
        t.wf(),
        0 <= t.year <= 9999,
    ensures
        ({
            let hs2 = headers_after_start(hs, imf_fixdate_bytes(t));
            &&& has_name(hs2, date_name())
            &&& hs2[hs.len() as int] == (date_wire_name(), imf_fixdate_bytes(t))
            &&& crate::date::is_imf_fixdate(hs2[hs.len() as int].1)
        }),
{
    let hs1 = hs.push((date_wire_name(), imf_fixdate_bytes(t)));
    let hs2 = headers_after_start(hs, imf_fixdate_bytes(t));
    let k = hs.len() as int;
    assert(hs1[k] == (date_wire_name(), imf_fixdate_bytes(t)));
    assert(hs2[k] == (date_wire_name(), imf_fixdate_bytes(t)));
    assert(crate::ascii::lower(date_wire_name()) =~= crate::ascii::lower(date_name()));
    assert(has_name(hs2, date_name())) by {
        assert(0 <= k < hs2.len() && crate::ascii::lower(hs2[k].0) == crate::ascii::lower(
            date_name(),
        ));
    }
    crate::date::lemma_injected_date_valid(t);
}

/// Framing chosen: where the handler set a `Content-Length`, the
/// committed head keeps it, sized framing carries the body, and no
/// chunked transfer encoding joins; where none is set, the committed
/// head lists a chunked transfer encoding.
pub proof fn lemma_framing_chosen(hs: Seq<(Seq<u8>, Seq<u8>)>, date: Seq<u8>)
    ensures
        spec_content_length(hs) is Some ==> spec_content_length(
            headers_after_start(hs, date),
        ) == spec_content_length(hs) && has_token(
            headers_after_start(hs, date),
            te_name(),
            chunked_token(),
        ) == has_token(hs, te_name(), chunked_token()),
        spec_content_length(hs) is None ==> has_token(
            headers_after_start(hs, date),
            te_name(),
            chunked_token(),
        ),
{
    let hs1 = if has_name(hs, date_name()) {
        hs
    } else {
        hs.push((date_wire_name(), date))
    };
    let hs2 = headers_after_start(hs, date);
    if spec_content_length(hs) is Some {
        cl_unaffected_by_date(hs, date);
        assert(has_token(hs1, te_name(), chunked_token()) == has_token(
            hs,
            te_name(),
            chunked_token(),
        )) by {
            if !has_name(hs, date_name()) {
                assert(crate::ascii::lower(date_wire_name()).len() == 4);
                assert(crate::ascii::lower(te_name()).len() == 17);
                lemma_has_token_push_other(hs, te_name(), chunked_token(), date_wire_name(), date);
            }
        }
    } else {
        if !has_token(hs1, te_name(), chunked_token()) {
            assert(hs2 == hs1.push((te_wire_name(), chunked_token())));
            let k = hs1.len() as int;
            assert(hs2[k] == (te_wire_name(), chunked_token()));
            assert(crate::ascii::lower(te_wire_name()) =~= crate::ascii::lower(te_name()));
            assert(crate::headers::has_token_from(chunked_token(), 0, chunked_token())) by {
                lemma_token_matches_itself();
            }
        }
    }
}

/// Appending a field of another name adds no connection token under
/// `name` and loses none.
proof fn lemma_has_token_push_other(
    hs: Seq<(Seq<u8>, Seq<u8>)>,
    name: Seq<u8>,
    tok: Seq<u8>,
    other: Seq<u8>,
    val: Seq<u8>,
)
    requires
        crate::ascii::lower(other) != crate::ascii::lower(name),
    ensures
        has_token(hs.push((other, val)), name, tok) == has_token(hs, name, tok),
{
    let pushed = hs.push((other, val));
    if has_token(hs, name, tok) {
        let i = choose|i: int|
            0 <= i < hs.len() && crate::ascii::lower(hs[i].0) == crate::ascii::lower(name)
                && crate::headers::has_token_from(hs[i].1, 0, tok);
        assert(pushed[i] == hs[i]);
    }
    if has_token(pushed, name, tok) {
        let i = choose|i: int|
            0 <= i < pushed.len() && crate::ascii::lower(pushed[i].0) == crate::ascii::lower(name)
                && crate::headers::has_token_from(pushed[i].1, 0, tok);
        assert(i < hs.len());
        assert(pushed[i] == hs[i]);
    }
}

/// A single bare token lists itself.
proof fn lemma_token_matches_itself()
    ensures
        crate::headers::has_token_from(chunked_token(), 0, chunked_token()),
{
    let tok = chunked_token();
    crate::headers::lemma_comma_or_end_bounds(tok, 0);
    assert(crate::headers::comma_or_end(tok, 0) == tok.len()) by {
        assert(forall|j: int| 0 <= j < tok.len() ==> tok[j] != 44);
    }
    assert(tok.subrange(0, tok.len() as int) =~= tok);
    assert(crate::ascii::trim_ows(tok) == tok) by {
        assert(!crate::ascii::is_ows(tok[0]));
        assert(!crate::ascii::is_ows(tok.last()));
        assert(crate::ascii::trim_start_ows(tok) == tok);
        assert(crate::ascii::trim_end_ows(tok) == tok);
    }
}

} // verus!
