//! The transport handle, and the lease that moves it between the
//! connection and the active handler.
//!
//! The transport does no I/O itself: `write` enqueues bytes and `close`
//! marks a half-close; the surrounding reactor drains the queue.

use vstd::prelude::*;

verus! {

/// A handle on the underlying byte-oriented transport: an outbound
/// queue and a closed flag. Exactly one exists per live connection.
#[derive(Debug)]
pub struct Transport {
    /// Bytes enqueued for transmission, oldest first.
    pub out: Vec<u8>,
    /// Whether the connection has been half-closed; a closed transport
    /// accepts no further bytes.
    pub closed: bool,
}

impl Transport {
    /// A fresh transport: nothing queued, open.
    pub fn new() -> (r: Transport)
        ensures
            r.out@ == Seq::<u8>::empty(),
            !r.closed,
    {
        Transport { out: Vec::new(), closed: false }
    }

    /// Enqueues bytes for asynchronous transmission; never blocks.
    /// A closed transport ignores the write.
    pub fn write(&mut self, data: &[u8])
        ensures
            final(self).closed == old(self).closed,
            final(self).out@ == if old(self).closed {
                old(self).out@
            } else {
                old(self).out@ + data@
            },
    {
        if !self.closed {
            crate::ascii::push_bytes(&mut self.out, data);
        }
    }

    /// Half-closes the transport once pending writes drain.
    pub fn close(&mut self)
        ensures
            final(self).closed,
            final(self).out@ == old(self).out@,
    {
        self.closed = true;
    }

    /// Hands the queued bytes to the reactor, leaving the queue empty.
    pub fn take_out(&mut self) -> (r: Vec<u8>)
        ensures
            r@ == old(self).out@,
            final(self).out@ == Seq::<u8>::empty(),
            final(self).closed == old(self).closed,
    {
        let mut r: Vec<u8> = Vec::new();
        core::mem::swap(&mut r, &mut self.out);
        r
    }

    /// Whether the transport has been closed.
    pub fn is_closed(&self) -> (r: bool)
        ensures
            r == self.closed,
    {
        self.closed
    }
}

/// Which side holds the transport: the connection itself, or a handler
/// through an outstanding lease.
pub enum Lend {
    /// The connection holds the transport.
    Owned(Transport),
    /// The transport is out on a lease; the connection holds nothing.
    Lent,
}

/// Leasing moves the transport out, leaving the connection side lent.
pub open spec fn spec_lease(l: Lend) -> (Lend, Transport)
    recommends
        l is Owned,
{
    (Lend::Lent, l->Owned_0)
}

/// Claiming polls the return channel: with a returned transport it
/// restores ownership; with none it changes nothing, and succeeds only
/// if the connection already owned the transport.
pub open spec fn spec_claim(l: Lend, returned: Option<Transport>) -> (Lend, bool) {
    match returned {
        Some(t) => (Lend::Owned(t), true),
        None => (l, l is Owned),
    }
}

impl Lend {
    /// Whether the connection side holds the transport.
    pub fn is_owned(&self) -> (r: bool)
        ensures
            r == (self is Owned),
    {
        match self {
            Lend::Owned(_) => true,
            Lend::Lent => false,
        }
    }

    /// Moves the transport out into a lease token. Leasing while a
    /// lease is already outstanding is a programming error, so the
    /// transport must be owned here.
    pub fn lease(&mut self) -> (r: Lease)
        requires
            *old(self) is Owned,
        ensures
            *final(self) == spec_lease(*old(self)).0,
            r.transport == spec_lease(*old(self)).1,
    {
        let mut prev = Lend::Lent;
        core::mem::swap(&mut prev, self);
        match prev {
            Lend::Owned(t) => Lease::new(t),
            Lend::Lent => {
                // unreachable: the transport is owned here
                proof {
                    assert(false);
                }
                Lease::new(Transport::new())
            },
        }
    }

    /// Polls the one-shot return channel, whose delivery — the
    /// transport of a lease the handler has dropped, or nothing — is
    /// `returned`. At most one side holds the transport, so nothing can
    /// arrive while the connection owns it.
    pub fn claim(&mut self, returned: Option<Transport>) -> (got: bool)
        requires
            *old(self) is Owned ==> returned is None,
        ensures
            *final(self) == spec_claim(*old(self), returned).0,
            got == spec_claim(*old(self), returned).1,
    {
        match returned {
            Some(t) => {
                *self = Lend::Owned(t);
                true
            },
            None => self.is_owned(),
        }
    }

    /// Takes the owned transport out, for a final write and close.
    pub fn take(&mut self) -> (t: Transport)
        requires
            *old(self) is Owned,
        ensures
            *final(self) is Lent,
            t == old(self)->Owned_0,
    {
        let mut prev = Lend::Lent;
        core::mem::swap(&mut prev, self);
        match prev {
            Lend::Owned(t) => t,
            Lend::Lent => {
                // unreachable: the transport is owned here
                proof {
                    assert(false);
                }
                Transport::new()
            },
        }
    }

    /// Puts a transport back in the connection's hands.
    pub fn put(&mut self, t: Transport)
        requires
            *old(self) is Lent,
        ensures
            *final(self) == Lend::Owned(t),
    {
        *self = Lend::Owned(t);
    }
}

/// While a lease is outstanding, a claim that nothing has returned
/// yields nothing and leaves the connection side lent; once the lease
/// is released, the next claim restores ownership of the very same
/// transport.
pub proof fn lemma_lease_exclusion(t: Transport)
    ensures
        ({
            let (lent, leased) = spec_lease(Lend::Owned(t));
            &&& !spec_claim(lent, None).1
            &&& spec_claim(lent, None).0 == lent
            &&& spec_claim(lent, Some(leased)).1
            &&& spec_claim(lent, Some(leased)).0 == Lend::Owned(t)
        }),
{
}

/// A single-holder borrow of the transport, handed to the handler for
/// the duration of one response. Releasing it is how the transport
/// travels back to the connection.
#[derive(Debug)]
pub struct Lease {
    /// The borrowed transport.
    pub transport: Transport,
}

impl Lease {
    /// Wraps a transport in a lease token.
    pub fn new(inner: Transport) -> (r: Lease)
        ensures
            r.transport == inner,
    {
        Lease { transport: inner }
    }

    /// Writes through the leased transport.
    pub fn write(&mut self, data: &[u8])
        ensures
            final(self).transport.closed == old(self).transport.closed,
            final(self).transport.out@ == if old(self).transport.closed {
                old(self).transport.out@
            } else {
                old(self).transport.out@ + data@
            },
    {
        self.transport.write(data);
    }

    /// Closes the leased transport.
    pub fn close(&mut self)
        ensures
            final(self).transport.closed,
            final(self).transport.out@ == old(self).transport.out@,
    {
        self.transport.close();
    }

    /// Drops the lease: the transport travels back to the connection.
    pub fn release(self) -> (t: Transport)
        ensures
            t == self.transport,
    {
        self.transport
    }
}

/// A writer over the leased transport: what the framed body writers
/// write through. Writes enqueue and never block.
#[derive(Debug)]
pub struct AsyncWriter {
    /// The lease the writer writes through.
    pub lease: Lease,
}

impl AsyncWriter {
    /// Wraps a leased transport.
    pub fn new(lease: Lease) -> (r: AsyncWriter)
        ensures
            r.lease == lease,
    {
        AsyncWriter { lease }
    }

    /// Enqueues bytes on the leased transport.
    pub fn write(&mut self, data: &[u8])
        ensures
            final(self).lease.transport.closed == old(self).lease.transport.closed,
            final(self).lease.transport.out@ == if old(self).lease.transport.closed {
                old(self).lease.transport.out@
            } else {
                old(self).lease.transport.out@ + data@
            },
    {
        self.lease.write(data);
    }

    /// Unwraps the writer back into its lease.
    pub fn into_lease(self) -> (r: Lease)
        ensures
            r == self.lease,
    {
        self.lease
    }
}

} // verus!
