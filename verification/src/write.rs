//! Framed body writers: pass-through, chunked, sized, and empty.
//!
//! A writer frames outgoing bytes and pushes them through the leased
//! transport. Its variant is fixed once framing is chosen.

use vstd::prelude::*;
use crate::ascii::crlf;
use crate::ascii::hex_bytes;
use crate::ascii::push_hex_u64;
use crate::ascii::push_crlf;
use crate::transport::AsyncWriter;

verus! {

/// Writers to handle the different transfer encodings.
#[derive(Debug)]
pub enum HttpWriter {
    /// A pass-through writer, used before framing is chosen.
    ThroughWriter(AsyncWriter),
    /// A writer for when the transfer encoding includes `chunked`.
    ChunkedWriter(AsyncWriter),
    /// A writer for when a `Content-Length` bounds the body; the
    /// counter holds the bytes still owed, and excess is truncated.
    SizedWriter(AsyncWriter, u64),
    /// A writer for a message that must not carry a body.
    EmptyWriter(AsyncWriter),
}

/// One chunk on the wire: size in hexadecimal, a line end, the payload,
/// a line end. A zero-length write emits nothing.
pub open spec fn chunk_encode(msg: Seq<u8>) -> Seq<u8> {
    if msg.len() == 0 {
        Seq::empty()
    } else {
        hex_bytes(msg.len()) + crlf() + msg + crlf()
    }
}

/// The terminal zero-chunk: `0`, a line end, a line end.
pub open spec fn chunk_terminator() -> Seq<u8> {
    seq![48u8] + crlf() + crlf()
}

/// What one write sends on the wire, by variant.
pub open spec fn emitted(w: HttpWriter, msg: Seq<u8>) -> Seq<u8> {
    match w {
        HttpWriter::ThroughWriter(_) => msg,
        HttpWriter::ChunkedWriter(_) => chunk_encode(msg),
        HttpWriter::SizedWriter(_, rem) => msg.take(min_nat(rem as nat, msg.len()) as int),
        HttpWriter::EmptyWriter(_) => Seq::empty(),
    }
}

/// How many payload bytes one write accepts, by variant.
pub open spec fn accepted_of(w: HttpWriter, msg: Seq<u8>) -> nat {
    match w {
        HttpWriter::ThroughWriter(_) => msg.len(),
        HttpWriter::ChunkedWriter(_) => msg.len(),
        HttpWriter::SizedWriter(_, rem) => min_nat(rem as nat, msg.len()),
        HttpWriter::EmptyWriter(_) => 0,
    }
}

/// What finishing the writer sends: chunked framing owes the terminal
/// zero-chunk, the others owe nothing.
pub open spec fn finalizer(w: HttpWriter) -> Seq<u8> {
    match w {
        HttpWriter::ChunkedWriter(_) => chunk_terminator(),
        _ => Seq::empty(),
    }
}

/// The smaller of two naturals.
pub open spec fn min_nat(a: nat, b: nat) -> nat {
    if a <= b {
        a
    } else {
        b
    }
}

/// The queue of the transport under a writer.
pub open spec fn sink_out(w: HttpWriter) -> Seq<u8> {
    inner_spec(w).lease.transport.out@
}

/// Whether the transport under a writer is closed.
pub open spec fn sink_closed(w: HttpWriter) -> bool {
    inner_spec(w).lease.transport.closed
}

/// The writer under the framing, whatever the variant.
pub open spec fn inner_spec(w: HttpWriter) -> AsyncWriter {
    match w {
        HttpWriter::ThroughWriter(a) => a,
        HttpWriter::ChunkedWriter(a) => a,
        HttpWriter::SizedWriter(a, _) => a,
        HttpWriter::EmptyWriter(a) => a,
    }
}

/// Whether two writers have the same variant, with the sized counter
/// of the second decremented by `used`.
pub open spec fn same_framing_less(w0: HttpWriter, w1: HttpWriter, used: nat) -> bool {
    match w0 {
        HttpWriter::ThroughWriter(_) => w1 is ThroughWriter,
        HttpWriter::ChunkedWriter(_) => w1 is ChunkedWriter,
        HttpWriter::SizedWriter(_, rem) => w1 is SizedWriter && w1->SizedWriter_1 == rem - used,
        HttpWriter::EmptyWriter(_) => w1 is EmptyWriter,
    }
}

impl HttpWriter {
    /// Unwraps the writer and returns the underlying one.
    pub fn into_inner(self) -> (r: AsyncWriter)
        ensures
            r == inner_spec(self),
    {
        match self {
            HttpWriter::ThroughWriter(a) => a,
            HttpWriter::ChunkedWriter(a) => a,
            HttpWriter::SizedWriter(a, _) => a,
            HttpWriter::EmptyWriter(a) => a,
        }
    }

    /// Borrows the underlying writer.
    pub fn get_ref(&self) -> (r: &AsyncWriter)
        ensures
            *r == inner_spec(*self),
    {
        match self {
            HttpWriter::ThroughWriter(a) => a,
            HttpWriter::ChunkedWriter(a) => a,
            HttpWriter::SizedWriter(a, _) => a,
            HttpWriter::EmptyWriter(a) => a,
        }
    }

    /// Borrows the underlying writer mutably. Writing to it directly
    /// bypasses the framing.
    pub fn get_mut(&mut self) -> (r: &mut AsyncWriter)
        ensures
            *r == inner_spec(*old(self)),
            inner_spec(*final(self)) == *final(r),
            same_framing_less(*old(self), *final(self), 0),
    {
        match self {
            HttpWriter::ThroughWriter(a) => a,
            HttpWriter::ChunkedWriter(a) => a,
            HttpWriter::SizedWriter(a, _) => a,
            HttpWriter::EmptyWriter(a) => a,
        }
    }

    /// Writes one body fragment through the framing. Returns how many
    /// payload bytes were accepted; a sized writer accepts at most its
    /// counter and silently truncates the rest.
    pub fn write(&mut self, msg: &[u8]) -> (accepted: usize)
        ensures
            accepted == accepted_of(*old(self), msg@),
            same_framing_less(*old(self), *final(self), accepted as nat),
            sink_closed(*final(self)) == sink_closed(*old(self)),
            sink_out(*final(self)) == if sink_closed(*old(self)) {
                sink_out(*old(self))
            } else {
                sink_out(*old(self)) + emitted(*old(self), msg@)
            },
    {
        match self {
            HttpWriter::ThroughWriter(a) => {
                a.write(msg);
                msg.len()
            },
            HttpWriter::ChunkedWriter(a) => {
                if msg.len() == 0 {
                    // a zero-length write emits nothing: the terminal
                    // chunk belongs to `end` alone
                    proof {
                        assert(sink_out(*self) =~= sink_out(*old(self)) + emitted(
                            *old(self),
                            msg@,
                        ));
                    }
                    return 0;
                }
                let mut line: Vec<u8> = Vec::new();
                push_hex_u64(&mut line, msg.len() as u64);
                push_crlf(&mut line);
                a.write(line.as_slice());
                a.write(msg);
                let mut tail: Vec<u8> = Vec::new();
                push_crlf(&mut tail);
                a.write(tail.as_slice());
                proof {
                    if !sink_closed(*old(self)) {
                        assert(sink_out(*self) =~= sink_out(*old(self)) + chunk_encode(msg@));
                    }
                }
                msg.len()
            },
            HttpWriter::SizedWriter(a, rem) => {
                let len = msg.len();
                let take: usize = if (len as u64) > *rem {
                    *rem as usize
                } else {
                    len
                };
                let part = crate::ascii::subvec(msg, 0, take);
                a.write(part.as_slice());
                *rem = *rem - take as u64;
                proof {
                    assert(part@ =~= msg@.take(min_nat((rem_old(*old(self))) as nat, msg@.len()) as int));
                }
                take
            },
            HttpWriter::EmptyWriter(_) => {
                proof {
                    assert(sink_out(*self) =~= sink_out(*old(self)) + emitted(*old(self), msg@));
                }
                0
            },
        }
    }

    /// Ends the writer and returns the underlying one. The chunked
    /// variant writes the terminal zero-chunk; the others add nothing.
    pub fn end(self) -> (r: AsyncWriter)
        ensures
            r.lease.transport.closed == sink_closed(self),
            r.lease.transport.out@ == if sink_closed(self) {
                sink_out(self)
            } else {
                sink_out(self) + finalizer(self)
            },
    {
        match self {
            HttpWriter::ChunkedWriter(mut a) => {
                let mut tail: Vec<u8> = Vec::new();
                tail.push(48);
                push_crlf(&mut tail);
                push_crlf(&mut tail);
                proof {
                    assert(tail@ =~= chunk_terminator());
                }
                a.write(tail.as_slice());
                a
            },
            HttpWriter::ThroughWriter(a) => a,
            HttpWriter::SizedWriter(a, _) => a,
            HttpWriter::EmptyWriter(a) => a,
        }
    }
}

/// Whether a sized writer still owes body bytes: finishing in this
/// state is a framing violation, and the connection must close since
/// the framing no longer agrees with the declared length.
pub open spec fn sized_pending(w: HttpWriter) -> bool {
    w is SizedWriter && w->SizedWriter_1 > 0
}

/// The counter of a sized writer; zero elsewhere.
pub open spec fn rem_old(w: HttpWriter) -> u64 {
    match w {
        HttpWriter::SizedWriter(_, rem) => rem,
        _ => 0,
    }
}

/// What a sized writer with capacity `cap` sends over a whole sequence
/// of writes: each write emits what `emitted` says and decrements the
/// counter by what `accepted_of` says.
pub open spec fn sized_emitted(cap: nat, ws: Seq<Seq<u8>>) -> Seq<u8>
    decreases ws.len(),
{
    if ws.len() == 0 {
        Seq::empty()
    } else {
        let first_take = min_nat(cap, ws.first().len());
        ws.first().take(first_take as int) + sized_emitted((cap - first_take) as nat,
            ws.drop_first(),
        )
    }
}

/// Sized truncation: a sized writer with capacity `cap`, fed any
/// sequence of writes, emits exactly the first `cap` bytes of their
/// concatenation (all of it, if it is shorter).
pub proof fn lemma_sized_truncation(cap: nat, ws: Seq<Seq<u8>>)
    ensures
        sized_emitted(cap, ws) == ws.flatten().take(
            min_nat(cap, ws.flatten().len()) as int,
        ),
    decreases ws.len(),
{
    if ws.len() == 0 {
        assert(ws.flatten() =~= Seq::<u8>::empty());
        assert(sized_emitted(cap, ws) =~= ws.flatten().take(
            min_nat(cap, ws.flatten().len()) as int,
        ));
    } else {
        let w = ws.first();
        let rest = ws.drop_first();
        let first_take = min_nat(cap, w.len());
        let rem = (cap - first_take) as nat;
        lemma_sized_truncation(rem, rest);
        assert(ws.flatten() == w + rest.flatten());
        if cap <= w.len() {
            assert(rem == 0);
            assert(sized_emitted(rem, rest) =~= rest.flatten().take(0int));
            assert(sized_emitted(cap, ws) =~= ws.flatten().take(
                min_nat(cap, ws.flatten().len()) as int,
            ));
        } else {
            let m1 = min_nat(rem, rest.flatten().len());
            assert(min_nat(cap, ws.flatten().len()) == w.len() + m1);
            assert(sized_emitted(cap, ws) =~= ws.flatten().take((w.len() + m1) as int));
        }
    }
}

/// What a chunked writer sends over a whole sequence of writes, before
/// the terminator: each write becomes one hex-prefixed chunk, with
/// zero-length writes emitting nothing.
pub open spec fn chunked_emitted(ws: Seq<Seq<u8>>) -> Seq<u8>
    decreases ws.len(),
{
    if ws.len() == 0 {
        Seq::empty()
    } else {
        chunk_encode(ws.first()) + chunked_emitted(ws.drop_first())
    }
}

} // verus!
