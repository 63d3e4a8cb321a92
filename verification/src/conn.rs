//! The per-connection state machine: receives byte chunks from the
//! reactor, feeds them to the parser or to the active handler's body
//! sink, and sequences the request and response lifecycle.

use vstd::prelude::*;
use crate::ascii::dec_bytes;
use crate::ascii::crlf;
use crate::ascii::push_crlf;
use crate::ascii::push_dec_u64;
use crate::ascii::push_bytes;
use crate::ascii::ascii_bytes;
use crate::ascii::push_str_bytes;
use crate::headers::field_bytes;
use crate::message::IncomingRequest;
use crate::parse::Parsed;
use crate::parse::spec_parse_request;
use crate::parse::parse_request;
use crate::status::reason_phrase;
use crate::status::push_reason;
use crate::transport::Lend;
use crate::transport::Lease;
use crate::transport::Transport;
use crate::version::HttpVersion;
use crate::version::push_version;
use crate::version::version_bytes;
use crate::MAX_BUFFER_SIZE;

verus! {

/// What a connection is doing: reading a head, waiting on the active
/// handler, or torn down.
#[derive(Clone, Copy, Debug, PartialEq, Eq, Structural)]
pub enum State {
    /// Reading and buffering bytes until a head parses.
    Parsing,
    /// A handler holds the lease; inbound bytes are body bytes.
    Handling,
    /// Terminal: every further event is ignored.
    Closed,
}

/// What a connection's handler is told. The handler owns the response:
/// it receives the head and the transport lease, consumes body bytes,
/// and hands the transport back when its response is done.
pub trait Handler {
    /// One parsed request head arrives, with the transport lease the
    /// response travels on.
    fn on_incoming(&mut self, incoming: IncomingRequest, lease: Lease);

    /// Body bytes arrive; the handler says how many it consumed. What
    /// it leaves belongs to the next request.
    fn on_body(&mut self, data: &[u8]) -> (used: usize)
        ensures
            used <= data@.len(),
    ;

    /// The connection polls for a finished response: the handler gives
    /// the transport back once, after its lease is dropped.
    fn poll_release(&mut self) -> Option<Transport>;
}

/// The connection-owned state the contracts speak of: the machine
/// state, the lend slot, and the pending bytes of the parse buffer.
pub struct ConnModel {
    pub state: State,
    pub lend: Lend,
    pub buffer: Seq<u8>,
}

/// A connection bound to a transport and a handler.
pub struct Conn<H: Handler> {
    /// Who holds the transport.
    pub lend: Lend,
    /// What the connection is doing.
    pub state: State,
    /// Bytes received and not yet consumed by a parse or a handler.
    pub buffer: Vec<u8>,
    /// The connection's handler.
    pub handler: H,
}

/// The minimal response the connection itself writes before closing:
/// a status line, a zero length, an explicit close, an empty line.
pub open spec fn spec_minimal_response(code: u16) -> Seq<u8> {
    version_bytes(HttpVersion::Http11) + seq![32u8] + dec_bytes(code as nat) + seq![32u8]
        + reason_phrase(code) + crlf() + field_bytes(
        (ascii_bytes("Content-Length"@), seq![48u8]),
    ) + field_bytes((ascii_bytes("Connection"@), ascii_bytes("close"@))) + crlf()
}

/// Builds the minimal response for a status code.
pub fn minimal_response(code: u16) -> (r: Vec<u8>)
    ensures
        r@ == spec_minimal_response(code),
{
    let mut out: Vec<u8> = Vec::new();
    push_version(&mut out, HttpVersion::Http11);
    out.push(32);
    push_dec_u64(&mut out, code as u64);
    out.push(32);
    push_reason(&mut out, code);
    push_crlf(&mut out);
    proof {
        reveal_strlit("Content-Length");
        reveal_strlit("Connection");
        reveal_strlit("close");
    }
    push_str_bytes(&mut out, "Content-Length");
    out.push(58);
    out.push(32);
    out.push(48);
    push_crlf(&mut out);
    push_str_bytes(&mut out, "Connection");
    out.push(58);
    out.push(32);
    push_str_bytes(&mut out, "close");
    push_crlf(&mut out);
    push_crlf(&mut out);
    proof {
        assert(out@ =~= spec_minimal_response(code));
    }
    out
}

/// What the parsing path does, given the pending bytes `buf` (the old
/// buffer with the new chunk already appended) and the transport owned:
/// a defect answers with a minimal response and closes; an incomplete
/// head waits, unless the buffer outgrew its bound, which counts as a
/// `TooLarge` defect; a parsed head leases the transport to the
/// handler, and any bytes past the head go to the handler's body sink,
/// whose leftovers become the next request's buffer.
pub open spec fn step_parsing(t0: Transport, post: ConnModel, buf: Seq<u8>) -> bool {
    match spec_parse_request(buf) {
        Parsed::Fail(e) => closed_with(t0, post, buf, e.spec_status()),
        Parsed::Incomplete => {
            if buf.len() <= MAX_BUFFER_SIZE {
                &&& post.state is Parsing
                &&& post.lend == Lend::Owned(t0)
                &&& post.buffer == buf
            } else {
                closed_with(t0, post, buf, 413)
            }
        },
        Parsed::Done(hv, n) => {
            let tail = buf.skip(n);
            &&& post.lend is Lent
            &&& (tail.len() == 0 ==> post.state is Handling && post.buffer == Seq::<u8>::empty())
            &&& (tail.len() > 0 ==> exists|used: int| tail_outcome(post, tail, used))
        },
    }
}

/// Where the bytes past a head land: what the handler consumed is
/// gone; a leftover becomes the next request's buffer, a full
/// consumption leaves the connection handling.
pub open spec fn tail_outcome(post: ConnModel, tail: Seq<u8>, used: int) -> bool {
    &&& 0 <= used <= tail.len()
    &&& (used < tail.len() ==> post.state is Parsing && post.buffer == tail.skip(used))
    &&& (used == tail.len() ==> post.state is Handling && post.buffer == Seq::<u8>::empty())
}

/// The connection answered `code` and closed: the minimal response is
/// on the open transport's queue, the transport is closed and owned.
pub open spec fn closed_with(t0: Transport, post: ConnModel, buf: Seq<u8>, code: u16) -> bool {
    &&& post.state is Closed
    &&& post.lend is Owned
    &&& post.lend->Owned_0.closed
    &&& post.lend->Owned_0.out@ == if t0.closed {
        t0.out@
    } else {
        t0.out@ + spec_minimal_response(code)
    }
}

/// What the handling path does with a chunk: the handler consumes what
/// it wants, and what it leaves becomes the next request's buffer.
pub open spec fn step_handling(pre: ConnModel, post: ConnModel, data: Seq<u8>) -> bool {
    exists|used: int| handling_outcome(pre, post, data, used)
}

/// One handling step, for a given consumed count.
pub open spec fn handling_outcome(pre: ConnModel, post: ConnModel, data: Seq<u8>, used: int) -> bool {
    &&& 0 <= used <= data.len()
    &&& post.lend == pre.lend
    &&& (used < data.len() ==> post.state is Parsing && post.buffer == data.skip(used))
    &&& (used == data.len() ==> post.state is Handling && post.buffer == pre.buffer)
}

impl<H: Handler> Conn<H> {
    /// The connection-owned state, as the contracts see it.
    pub open spec fn model(&self) -> ConnModel {
        ConnModel { state: self.state, lend: self.lend, buffer: self.buffer@ }
    }

    /// A handler holding a lease is the only thing between the
    /// connection and its transport.
    pub open spec fn wf(&self) -> bool {
        self.state is Handling ==> self.lend is Lent
    }

    /// A fresh connection over a transport: parsing, nothing buffered.
    pub fn new(transfer: Transport, handler: H) -> (r: Conn<H>)
        ensures
            r.wf(),
            r.state is Parsing,
            r.lend == Lend::Owned(transfer),
            r.buffer@ == Seq::<u8>::empty(),
    {
        Conn { lend: Lend::Owned(transfer), state: State::Parsing, buffer: Vec::new(), handler }
    }

    /// One reactor event: a chunk of inbound bytes.
    ///
    /// The connection first claims a finished response back, if its
    /// handler dropped the lease; then the chunk goes to the parser or
    /// to the handler's body sink, as the state directs. A torn-down
    /// connection ignores everything.
    pub fn on_data(&mut self, data: &[u8])
        requires
            old(self).wf(),
        ensures
            final(self).wf(),
            old(self).state is Closed ==> final(self).model() == old(self).model(),
            old(self).state is Parsing && old(self).lend is Owned ==> step_parsing(
                old(self).lend->Owned_0,
                final(self).model(),
                old(self).buffer@ + data@,
            ),
            old(self).state is Parsing && old(self).lend is Lent ==> ((final(self).lend is Lent
                && final(self).state is Parsing && final(self).buffer@ == old(self).buffer@
                + data@) || (exists|t: Transport|
                step_parsing(t, final(self).model(), old(self).buffer@ + data@))),
            old(self).state is Handling ==> (step_handling(
                old(self).model(),
                final(self).model(),
                data@,
            ) || (exists|t: Transport|
                step_parsing(t, final(self).model(), old(self).buffer@ + data@))),
    {
        // a dropped lease comes home before anything else
        if !matches!(self.state, State::Closed) && !self.lend.is_owned() {
            match self.handler.poll_release() {
                Some(t) => {
                    self.lend.claim(Some(t));
                    if matches!(self.state, State::Handling) {
                        self.state = State::Parsing;
                    }
                },
                None => {},
            }
        }
        match self.state {
            State::Closed => {},
            State::Handling => {
                // lend stayed lent: hand the bytes to the body sink
                let used = self.handler.on_body(data);
                if used < data.len() {
                    // the tail belongs to the next request
                    let tail = crate::ascii::subvec(data, used, data.len());
                    self.buffer = tail;
                    self.state = State::Parsing;
                    proof {
                        assert(handling_outcome(old(self).model(), self.model(), data@, used as int));
                        assert(step_handling(old(self).model(), self.model(), data@));
                    }
                } else {
                    proof {
                        assert(handling_outcome(old(self).model(), self.model(), data@, used as int));
                        assert(step_handling(old(self).model(), self.model(), data@));
                    }
                }
            },
            State::Parsing => {
                push_bytes(&mut self.buffer, data);
                if !self.lend.is_owned() {
                    // a handler still holds the transport: only buffer
                    return ;
                }
                let ghost t0 = self.lend->Owned_0;
                let ghost buf = self.buffer@;
                match parse_request(self.buffer.as_slice()) {
                    Ok(Some((head, consumed))) => {
                        proof {
                            crate::parse_laws::lemma_request_positions(buf);
                        }
                        let total = self.buffer.len();
                        let tail = crate::ascii::subvec(self.buffer.as_slice(), consumed, total);
                        self.buffer = Vec::new();
                        let lease = self.lend.lease();
                        self.handler.on_incoming(head, lease);
                        self.state = State::Handling;
                        if tail.len() > 0 {
                            let used = self.handler.on_body(tail.as_slice());
                            if used < tail.len() {
                                let rest = crate::ascii::subvec(tail.as_slice(), used, tail.len());
                                self.buffer = rest;
                                self.state = State::Parsing;
                            }
                            proof {
                                assert(tail@ == buf.skip(consumed as int));
                                assert(tail_outcome(self.model(), tail@, used as int));
                                assert(step_parsing(t0, self.model(), buf));
                            }
                        } else {
                            proof {
                                assert(tail@ == buf.skip(consumed as int));
                                assert(buf.skip(consumed as int).len() == 0);
                                assert(self.buffer@ =~= Seq::<u8>::empty());
                                assert(step_parsing(t0, self.model(), buf));
                            }
                        }
                    },
                    Ok(None) => {
                        if self.buffer.len() > MAX_BUFFER_SIZE {
                            self.fail_with(413);
                            proof {
                                assert(step_parsing(t0, self.model(), buf));
                            }
                        } else {
                            proof {
                                assert(step_parsing(t0, self.model(), buf));
                            }
                        }
                    },
                    Err(e) => {
                        let code = e.status();
                        self.fail_with(code);
                        proof {
                            assert(step_parsing(t0, self.model(), buf));
                        }
                    },
                }
            },
        }
    }

    /// Answers with a minimal response, closes the transport, and
    /// tears the connection down. Only meaningful while the transport
    /// is owned.
    fn fail_with(&mut self, code: u16)
        requires
            old(self).lend is Owned,
        ensures
            final(self).state is Closed,
            final(self).lend is Owned,
            final(self).lend->Owned_0.closed,
            final(self).lend->Owned_0.out@ == if old(self).lend->Owned_0.closed {
                old(self).lend->Owned_0.out@
            } else {
                old(self).lend->Owned_0.out@ + spec_minimal_response(code)
            },
            final(self).buffer@ == old(self).buffer@,
    {
        let mut t = self.lend.take();
        let reply = minimal_response(code);
        t.write(reply.as_slice());
        t.close();
        self.lend.put(t);
        self.state = State::Closed;
    }
}

} // verus!
