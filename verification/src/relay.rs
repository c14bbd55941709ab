//! Byte accounting for the relay phase.
//!
//! After a successful reply the server shuttles bytes between the client
//! socket and the destination socket, one independent copier per direction,
//! until each source reports end-of-stream. The copying itself is I/O and
//! lives outside this crate; what is verified here is the bookkeeping each
//! direction maintains, and through it the relay's guarantee: every byte
//! accepted from the source is handed to the sink exactly once and in
//! order, and a direction is complete exactly when the source hit
//! end-of-stream and nothing is left in flight.
//!
//! `RelayDirection` models the portable copy path, which buffers bytes in
//! user space. `SpliceDirection` models the zero-copy path, where the bytes
//! sit in a kernel pipe and only their count is visible; its `next_op`
//! function is the decision rule of that path's poll loop.

use vstd::prelude::*;

verus! {

/// One direction of the portable relay: the bytes read from the source and
/// not yet written to the sink, plus the ghost history of everything seen.
pub struct RelayDirection {
    /// Bytes accepted from the source and not yet handed to the sink.
    pending: Vec<u8>,
    /// Whether the source has reported end-of-stream.
    source_done: bool,
    /// Every byte accepted from the source, in order.
    received: Ghost<Seq<u8>>,
    /// Every byte handed to the sink, in order.
    delivered: Ghost<Seq<u8>>,
}

impl RelayDirection {
    /// Every byte accepted from the source, in order.
    pub closed spec fn received(self) -> Seq<u8> {
        self.received@
    }

    /// Every byte handed to the sink, in order.
    pub closed spec fn delivered(self) -> Seq<u8> {
        self.delivered@
    }

    /// The bytes in flight: accepted but not yet handed on.
    pub closed spec fn in_flight(self) -> Seq<u8> {
        self.pending@
    }

    /// Whether the source has reported end-of-stream.
    pub closed spec fn source_done(self) -> bool {
        self.source_done
    }

    /// The direction's invariant: what was accepted is exactly what was
    /// delivered followed by what is in flight.
    pub closed spec fn wf(self) -> bool {
        self.received@ == self.delivered@ + self.pending@
    }

    /// A fresh direction: nothing seen, nothing owed.
    pub fn new() -> (r: RelayDirection)
        ensures
            r.wf(),
            r.received() == Seq::<u8>::empty(),
            r.delivered() == Seq::<u8>::empty(),
            r.in_flight() == Seq::<u8>::empty(),
            !r.source_done(),
    {
        let r = RelayDirection {
            pending: Vec::new(),
            source_done: false,
            received: Ghost(Seq::empty()),
            delivered: Ghost(Seq::empty()),
        };
        proof {
            assert(r.received@ =~= r.delivered@ + r.pending@);
        }
        r
    }

    /// Account for a chunk the copier read from the source.
    pub fn accept(&mut self, chunk: &[u8])
        requires
            old(self).wf(),
            !old(self).source_done(),
        ensures
            final(self).wf(),
            final(self).received() == old(self).received() + chunk@,
            final(self).delivered() == old(self).delivered(),
            final(self).in_flight() == old(self).in_flight() + chunk@,
            final(self).source_done() == old(self).source_done(),
    {
        self.pending.extend_from_slice(chunk);
        proof {
            self.received@ = self.received@ + chunk@;
            assert(self.received@ =~= self.delivered@ + self.pending@);
        }
    }

    /// Account for the source reporting end-of-stream. After this the
    /// copier reads no more; once the in-flight bytes drain, the direction
    /// is complete and the sink's write half is shut down.
    pub fn source_eof(&mut self)
        requires
            old(self).wf(),
        ensures
            final(self).wf(),
            final(self).source_done(),
            final(self).received() == old(self).received(),
            final(self).delivered() == old(self).delivered(),
            final(self).in_flight() == old(self).in_flight(),
    {
        self.source_done = true;
    }

    /// Take everything in flight, to be written to the sink in full; the
    /// taken bytes are accounted as delivered, in order.
    pub fn take_pending(&mut self) -> (out: Vec<u8>)
        requires
            old(self).wf(),
        ensures
            final(self).wf(),
            out@ == old(self).in_flight(),
            final(self).in_flight() == Seq::<u8>::empty(),
            final(self).delivered() == old(self).delivered() + out@,
            final(self).received() == old(self).received(),
            final(self).source_done() == old(self).source_done(),
    {
        let out = self.pending.split_off(0);
        proof {
            assert(out@ =~= old(self).pending@);
            assert(self.pending@ =~= Seq::<u8>::empty());
            self.delivered@ = self.delivered@ + out@;
            assert(self.received@ =~= self.delivered@ + self.pending@);
        }
        out
    }

    /// Whether this direction is complete: the source hit end-of-stream
    /// and nothing is in flight. The copier then shuts down the sink's
    /// write half, propagating the end-of-stream.
    pub fn is_complete(&self) -> (r: bool)
        ensures
            r == (self.source_done() && self.in_flight().len() == 0),
    {
        self.source_done && self.pending.len() == 0
    }

    /// What the peer receives is a prefix of what was sent: at every
    /// moment, the bytes delivered so far are the first bytes accepted,
    /// unchanged and in order.
    pub proof fn lemma_delivered_is_prefix(self)
        requires
            self.wf(),
        ensures
            self.delivered().is_prefix_of(self.received()),
    {
        assert(self.delivered() =~= self.received().take(self.delivered().len() as int));
    }

    /// A complete direction delivered everything: the bytes that emerged
    /// at the sink are exactly the bytes the source sent — the same
    /// multiset, in the same order.
    pub proof fn lemma_complete_delivers_all(self)
        requires
            self.wf(),
            self.in_flight().len() == 0,
        ensures
            self.delivered() == self.received(),
    {
        assert(self.delivered() =~= self.received());
    }
}

/// What the splice path's poll loop does next in one direction.
#[derive(Debug, Clone, Copy, PartialEq, Eq, Structural)]
pub enum SpliceOp {
    /// Splice from the source socket into the pipe.
    FillPipe,
    /// Splice from the pipe into the sink socket.
    DrainPipe,
    /// The direction is done: shut down the sink's write half.
    ShutdownWrite,
}

/// One direction of the zero-copy relay. The payload never enters user
/// space; the direction tracks how many bytes sit in its kernel pipe and
/// whether the source hit end-of-stream, and ghost counters of everything
/// moved.
pub struct SpliceDirection {
    /// Bytes currently buffered in the pipe.
    num_buf: usize,
    /// Whether the source has reported end-of-stream.
    read_done: bool,
    /// Every byte spliced from the source into the pipe.
    moved_in: Ghost<nat>,
    /// Every byte spliced from the pipe into the sink.
    moved_out: Ghost<nat>,
}

impl SpliceDirection {
    /// How many bytes were spliced from the source into the pipe.
    pub closed spec fn moved_in(self) -> nat {
        self.moved_in@
    }

    /// How many bytes were spliced from the pipe into the sink.
    pub closed spec fn moved_out(self) -> nat {
        self.moved_out@
    }

    /// How many bytes sit in the pipe.
    pub closed spec fn buffered(self) -> nat {
        self.num_buf as nat
    }

    /// Whether the source has reported end-of-stream.
    pub closed spec fn read_done(self) -> bool {
        self.read_done
    }

    /// The direction's invariant: the pipe holds exactly the bytes that
    /// went in and have not come out.
    pub closed spec fn wf(self) -> bool {
        self.moved_in@ == self.moved_out@ + self.num_buf
    }

    /// A direction is finished when the source hit end-of-stream and the
    /// pipe is empty.
    pub open spec fn finished(self) -> bool {
        self.read_done() && self.buffered() == 0
    }

    /// A fresh direction over an empty pipe.
    pub fn new() -> (r: SpliceDirection)
        ensures
            r.wf(),
            r.moved_in() == 0,
            r.moved_out() == 0,
            r.buffered() == 0,
            !r.read_done(),
    {
        SpliceDirection {
            num_buf: 0,
            read_done: false,
            moved_in: Ghost(0nat),
            moved_out: Ghost(0nat),
        }
    }

    /// What the poll loop does next: fill the pipe while it is empty and
    /// the source is open, drain it while it holds bytes, and shut the
    /// sink down once the source is done and the pipe is empty.
    pub fn next_op(&self) -> (r: SpliceOp)
        ensures
            r == SpliceOp::FillPipe <==> (self.buffered() == 0 && !self.read_done()),
            r == SpliceOp::DrainPipe <==> self.buffered() > 0,
            r == SpliceOp::ShutdownWrite <==> self.finished(),
    {
        if self.num_buf == 0 && !self.read_done {
            SpliceOp::FillPipe
        } else if self.num_buf > 0 {
            SpliceOp::DrainPipe
        } else {
            SpliceOp::ShutdownWrite
        }
    }

    /// How many bytes sit in the pipe: the length to ask of the next
    /// drain.
    pub fn pending_bytes(&self) -> (n: usize)
        ensures
            n == self.buffered(),
    {
        self.num_buf
    }

    /// Account for one splice from the source into the pipe: `n` bytes
    /// moved, where zero means the source hit end-of-stream.
    pub fn filled(&mut self, n: usize)
        requires
            old(self).wf(),
            !old(self).read_done(),
            old(self).buffered() + n <= usize::MAX,
        ensures
            final(self).wf(),
            final(self).read_done() == (n == 0),
            final(self).buffered() == old(self).buffered() + n,
            final(self).moved_in() == old(self).moved_in() + n,
            final(self).moved_out() == old(self).moved_out(),
    {
        self.read_done = n == 0;
        self.num_buf = self.num_buf + n;
        proof {
            self.moved_in@ = self.moved_in@ + n as nat;
        }
    }

    /// Account for one splice from the pipe into the sink: `n` bytes
    /// moved, at most what the pipe held.
    pub fn drained(&mut self, n: usize)
        requires
            old(self).wf(),
            n <= old(self).buffered(),
        ensures
            final(self).wf(),
            final(self).read_done() == old(self).read_done(),
            final(self).buffered() == old(self).buffered() - n,
            final(self).moved_in() == old(self).moved_in(),
            final(self).moved_out() == old(self).moved_out() + n,
    {
        self.num_buf = self.num_buf - n;
        proof {
            self.moved_out@ = self.moved_out@ + n as nat;
        }
    }

    /// A finished direction moved every byte on: exactly as many bytes
    /// left the pipe as entered it, so shutting down the sink's write
    /// half loses nothing.
    pub proof fn lemma_finished_moves_all(self)
        requires
            self.wf(),
            self.finished(),
        ensures
            self.moved_out() == self.moved_in(),
    {
    }
}

} // verus!
