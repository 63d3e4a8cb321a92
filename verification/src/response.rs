//! The outgoing response, in two phases that the types keep apart:
//! while `Response` is fresh the status and headers may change and no
//! body byte can be written; once `start` commits the head, the
//! `StreamingResponse` carries body bytes and nothing else.

use vstd::prelude::*;
use crate::ascii::lower;
use crate::date::UtcTime;
use crate::date::imf_fixdate_bytes;
use crate::headers::Headers;
use crate::headers::first_value;
use crate::headers::remove_name;
use crate::headers::content_length_name;
use crate::headers::spec_content_length;
use crate::message::spec_should_keep_alive;
use crate::message::should_keep_alive;
use crate::transfer::Transfer;
use crate::transfer::StreamingTransfer;
use crate::transfer::headers_after_start;
use crate::transfer::head_bytes_of;
use crate::transfer::start_post;
use crate::transport::Lease;
use crate::version::HttpVersion;
use crate::write::sink_out;
use crate::write::sink_closed;
use crate::write::finalizer;
use crate::write::emitted;
use crate::write::accepted_of;
use crate::write::same_framing_less;

verus! {

/// A response whose head is still open: status and headers may change,
/// and nothing has been written.
#[derive(Debug)]
pub struct Response {
    /// The version of the response; `HTTP/1.1` unless set otherwise.
    pub version: HttpVersion,
    /// The status code; 200 unless set otherwise.
    pub status: u16,
    /// The headers, still open to change.
    pub headers: Headers,
    /// The transfer the head will be committed to.
    pub body: Transfer,
}

/// A response whose head is committed: body bytes flow through the
/// chosen framing, and the head is frozen.
#[derive(Debug)]
pub struct StreamingResponse {
    /// The version the head carried.
    pub version: HttpVersion,
    /// The status the head carried.
    pub status: u16,
    /// The headers as committed.
    pub headers: Headers,
    /// The framed transfer.
    pub body: StreamingTransfer,
}

/// The wire name `Content-Length`.
pub open spec fn cl_wire_name() -> Seq<u8> {
    seq![67u8, 111u8, 110u8, 116u8, 101u8, 110u8, 116u8, 45u8, 76u8, 101u8, 110u8, 103u8, 116u8, 104u8]
}

impl Response {
    /// A fresh response over a transfer: 200, `HTTP/1.1`, no headers.
    pub fn new(tx: Transfer) -> (r: Response)
        ensures
            r.status == 200,
            r.version == HttpVersion::Http11,
            r.headers@ == Seq::<(Seq<u8>, Seq<u8>)>::empty(),
            r.body == tx,
    {
        Response {
            version: HttpVersion::Http11,
            status: 200,
            headers: Headers::new(),
            body: tx,
        }
    }

    /// The status of this response.
    pub fn status(&self) -> (r: u16)
        ensures
            r == self.status,
    {
        self.status
    }

    /// The headers of this response.
    pub fn headers(&self) -> (r: &Headers)
        ensures
            r@ == self.headers@,
    {
        &self.headers
    }

    /// A mutable handle on the status.
    pub fn status_mut(&mut self) -> (r: &mut u16)
        ensures
            *r == old(self).status,
            final(self).status == *final(r),
            final(self).version == old(self).version,
            final(self).headers == old(self).headers,
            final(self).body == old(self).body,
    {
        &mut self.status
    }

    /// A mutable handle on the headers.
    pub fn headers_mut(&mut self) -> (r: &mut Headers)
        ensures
            *r == old(self).headers,
            final(self).headers == *final(r),
            final(self).version == old(self).version,
            final(self).status == old(self).status,
            final(self).body == old(self).body,
    {
        &mut self.headers
    }

    /// Takes this response apart into its constituent parts.
    pub fn deconstruct(self) -> (r: (HttpVersion, Transfer, u16, Headers))
        ensures
            r.0 == self.version,
            r.1 == self.body,
            r.2 == self.status,
            r.3 == self.headers,
    {
        (self.version, self.body, self.status, self.headers)
    }

    /// Commits the head, freezing status and headers, and hands back
    /// the streaming phase with the chosen framing.
    pub fn start(self) -> (r: StreamingResponse)
        ensures
            r.version == self.version,
            r.status == self.status,
            exists|t: UtcTime|
                start_post(
                    self.body.out,
                    self.version,
                    self.status,
                    self.headers@,
                    r.headers@,
                    r.body.body,
                    t,
                ),
            match spec_content_length(self.headers@) {
                Some(n) => r.body.body is SizedWriter && r.body.body->SizedWriter_1 == n,
                None => r.body.body is ChunkedWriter,
            },
    {
        let ghost me = self;
        let (version, body, status, mut headers) = self.deconstruct();
        let ghost pre_out = body.out;
        let framed = body.start(version, status, &mut headers);
        let ghost t = choose|t: UtcTime|
            start_post(pre_out, version, status, me.headers@, headers@, framed.body, t);
        let r = StreamingResponse { version, status, headers, body: framed };
        proof {
            assert(start_post(me.body.out, me.version, me.status, me.headers@, r.headers@, r.body.body, t));
        }
        r
    }

    /// Writes a complete body at once: sets `Content-Length` to its
    /// exact length, commits the head with sized framing, and writes
    /// the body through it whole.
    pub fn send(self, data: &[u8]) -> (r: StreamingResponse)
        requires
            data@.len() <= u64::MAX,
        ensures
            r.version == self.version,
            r.status == self.status,
            r.body.body is SizedWriter,
            r.body.body->SizedWriter_1 == 0,
            exists|t: UtcTime|
                #![trigger imf_fixdate_bytes(t)]
                {
                    let hs1 = remove_name(self.headers@, cl_wire_name()) + seq![
                        (cl_wire_name(), crate::ascii::dec_bytes(data@.len())),
                    ];
                    &&& t.wf()
                    &&& 0 <= t.year <= 9999
                    &&& r.headers@ == headers_after_start(hs1, imf_fixdate_bytes(t))
                    &&& sink_closed(r.body.body) == self.body.out.lease.transport.closed
                    &&& sink_out(r.body.body) == if self.body.out.lease.transport.closed {
                        self.body.out.lease.transport.out@
                    } else {
                        self.body.out.lease.transport.out@ + head_bytes_of(
                            self.version,
                            self.status,
                            r.headers@,
                        ) + data@
                    }
                },
    {
        let ghost hs0 = self.headers@;
        let mut this = self;
        let n = data.len();
        let mut len_bytes: Vec<u8> = Vec::new();
        crate::ascii::push_dec_u64(&mut len_bytes, n as u64);
        this.headers.set(cl_wire_vec(), len_bytes);
        proof {
            lemma_set_content_length(hs0, crate::ascii::dec_bytes(n as nat));
            crate::ascii::lemma_dec_bytes_digits(n as nat);
            crate::ascii::lemma_dec_val_dec_bytes(n as nat);
            assert(spec_content_length(this.headers@) == Some(n as u64));
        }
        let ghost pre = this;
        let mut s = this.start();
        let ghost t = choose|t: UtcTime|
            start_post(pre.body.out, pre.version, pre.status, pre.headers@, s.headers@, s.body.body, t);
        s.write(data);
        proof {
            assert(data@.take(crate::write::min_nat(n as nat, n as nat) as int) =~= data@);
            if !pre.body.out.lease.transport.closed {
                assert(sink_out(s.body.body) =~= pre.body.out.lease.transport.out@
                    + head_bytes_of(pre.version, pre.status, s.headers@) + data@);
            }
        }
        s
    }

    /// Finishes a response whose head never opened: sets
    /// `Content-Length: 0`, commits the head, and gives the lease back,
    /// so the client sees a well-formed empty response. The transport
    /// closes unless the exchange keeps the connection alive.
    pub fn finish(self) -> (r: Lease)
        ensures
            exists|t: UtcTime|
                #![trigger imf_fixdate_bytes(t)]
                {
                    let hs1 = remove_name(self.headers@, cl_wire_name()) + seq![
                        (cl_wire_name(), seq![48u8]),
                    ];
                    let hs2 = headers_after_start(hs1, imf_fixdate_bytes(t));
                    &&& t.wf()
                    &&& 0 <= t.year <= 9999
                    &&& t.wf()
                    &&& 0 <= t.year <= 9999
                    &&& r.transport.out@ == if self.body.out.lease.transport.closed {
                        self.body.out.lease.transport.out@
                    } else {
                        self.body.out.lease.transport.out@ + head_bytes_of(
                            self.version,
                            self.status,
                            hs2,
                        )
                    }
                    &&& r.transport.closed == (self.body.out.lease.transport.closed
                        || !spec_should_keep_alive(self.version, hs2))
                },
    {
        let ghost hs0 = self.headers@;
        let mut this = self;
        let mut zero: Vec<u8> = Vec::new();
        zero.push(48);
        proof {
            assert(zero@ =~= seq![48u8]);
        }
        this.headers.set(cl_wire_vec(), zero);
        proof {
            lemma_set_content_length(hs0, seq![48u8]);
            assert(crate::ascii::all_digits(seq![48u8]));
            assert(crate::ascii::dec_val(Seq::<u8>::empty()) == 0);
            assert(seq![48u8].drop_last() =~= Seq::<u8>::empty());
            assert(crate::ascii::dec_val(seq![48u8]) == 0);
            assert(spec_content_length(this.headers@) == Some(0u64));
        }
        let ghost pre = this;
        let s = this.start();
        let ghost t = choose|t: UtcTime|
            start_post(pre.body.out, pre.version, pre.status, pre.headers@, s.headers@, s.body.body, t);
        s.end()
    }
}

impl StreamingResponse {
    /// Writes body bytes through the framing chosen at `start`.
    pub fn write(&mut self, data: &[u8])
        ensures
            final(self).version == old(self).version,
            final(self).status == old(self).status,
            final(self).headers == old(self).headers,
            same_framing_less(
                old(self).body.body,
                final(self).body.body,
                accepted_of(old(self).body.body, data@),
            ),
            sink_closed(final(self).body.body) == sink_closed(old(self).body.body),
            sink_out(final(self).body.body) == if sink_closed(old(self).body.body) {
                sink_out(old(self).body.body)
            } else {
                sink_out(old(self).body.body) + emitted(old(self).body.body, data@)
            },
    {
        self.body.write(data);
    }

    /// Ends the response: the chunked framing emits its terminal
    /// zero-chunk, and the transport closes unless the exchange keeps
    /// the connection alive. A sized body that still owes bytes is a
    /// framing violation, and the transport closes whatever the
    /// keep-alive policy says. The lease travels back to the connection.
    pub fn end(self) -> (r: Lease)
        ensures
            r.transport.out@ == if sink_closed(self.body.body) {
                sink_out(self.body.body)
            } else {
                sink_out(self.body.body) + finalizer(self.body.body)
            },
            r.transport.closed == (sink_closed(self.body.body) || !spec_should_keep_alive(
                self.version,
                self.headers@,
            ) || crate::write::sized_pending(self.body.body)),
    {
        let keep = should_keep_alive(self.version, &self.headers);
        let violated = self.body.has_pending_length();
        let mut lease = self.body.finish();
        if !keep || violated {
            lease.close();
        }
        lease
    }
}

/// The wire content-length name as a fresh vector.
fn cl_wire_vec() -> (r: Vec<u8>)
    ensures
        r@ == cl_wire_name(),
{
    let a: [u8; 14] = [67, 111, 110, 116, 101, 110, 116, 45, 76, 101, 110, 103, 116, 104];
    let mut v: Vec<u8> = Vec::new();
    crate::ascii::push_bytes(&mut v, a.as_slice());
    proof {
        assert(v@ =~= cl_wire_name());
    }
    v
}

/// After `set`, the first `Content-Length` value is the one just set.
pub proof fn lemma_set_content_length(hs: Seq<(Seq<u8>, Seq<u8>)>, v: Seq<u8>)
    ensures
        first_value(
            remove_name(hs, cl_wire_name()) + seq![(cl_wire_name(), v)],
            content_length_name(),
        ) == Some(v),
{
    let name = content_length_name();
    let wire = cl_wire_name();
    let kept = remove_name(hs, wire);
    assert(lower(wire) =~= lower(name));
    assert forall|i: int| 0 <= i < kept.len() implies lower(#[trigger] kept[i].0) != lower(name) by {
        Seq::lemma_filter_pred(hs, |f: (Seq<u8>, Seq<u8>)| lower(f.0) != lower(wire), i);
    }
    lemma_first_value_all_other(kept, name, wire, v);
}

/// Looking up a name in fields that all carry other names walks past
/// them all to a final field of that name.
proof fn lemma_first_value_all_other(
    r: Seq<(Seq<u8>, Seq<u8>)>,
    name: Seq<u8>,
    wire: Seq<u8>,
    v: Seq<u8>,
)
    requires
        forall|i: int| 0 <= i < r.len() ==> lower(#[trigger] r[i].0) != lower(name),
        lower(wire) == lower(name),
    ensures
        first_value(r + seq![(wire, v)], name) == Some(v),
    decreases r.len(),
{
    let whole = r + seq![(wire, v)];
    if r.len() == 0 {
        assert(whole[0] == (wire, v));
    } else {
        assert(whole[0] == r[0]);
        assert(whole.skip(1) =~= r.skip(1) + seq![(wire, v)]);
        assert(forall|i: int|
            0 <= i < r.skip(1).len() ==> lower(#[trigger] r.skip(1)[i].0) != lower(name));
        lemma_first_value_all_other(r.skip(1), name, wire, v);
    }
}

} // verus!
