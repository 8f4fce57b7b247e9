//! An in-memory full-duplex byte channel with independent read and write
//! halves, a blocking/non-blocking read mode, and a bidirectional shutdown.
//!
//! The engine drives the protocol over this channel; the surrounding
//! application shuttles bytes between it and a real socket with `feed` and
//! `take_sent`.

use vstd::prelude::*;

verus! {

pub struct Transport {
    inbox: Vec<u8>,
    rpos: usize,
    outbox: Vec<u8>,
    nonblocking: bool,
    up: bool,
    peer_eof: bool,
}

impl Transport {
    pub closed spec fn wf(self) -> bool {
        self.rpos <= self.inbox@.len()
    }

    /// The bytes received from the peer and not yet consumed.
    pub closed spec fn avail(self) -> Seq<u8> {
        self.inbox@.skip(self.rpos as int)
    }

    /// The bytes written towards the peer and not yet taken by the owner.
    pub closed spec fn sent(self) -> Seq<u8> {
        self.outbox@
    }

    pub closed spec fn is_up(self) -> bool {
        self.up
    }

    pub closed spec fn is_nonblocking(self) -> bool {
        self.nonblocking
    }

    pub closed spec fn peer_closed(self) -> bool {
        self.peer_eof
    }

    /// Whether the channel is still up.
    pub fn up(&self) -> (r: bool)
        ensures
            r == self.is_up(),
    {
        self.up
    }

    /// What is available to read always fits in a `usize`: it sits in one
    /// buffer.
    pub proof fn lemma_avail_fits(&self)
        requires
            self.wf(),
        ensures
            self.avail().len() <= usize::MAX,
    {
        broadcast use vstd::std_specs::vec::axiom_spec_len;

        assert(vstd::std_specs::vec::spec_vec_len(&self.inbox) == self.inbox@.len());
    }

    /// Whether the peer has closed its sending half.
    pub fn at_eof(&self) -> (r: bool)
        ensures
            r == self.peer_closed(),
    {
        self.peer_eof
    }

    /// How many received bytes are buffered and not yet consumed.
    pub fn buffered(&self) -> (r: usize)
        requires
            self.wf(),
        ensures
            r as int == self.avail().len(),
    {
        self.inbox.len() - self.rpos
    }

    /// Looks at the `i`-th buffered byte without consuming anything.
    pub fn peek(&self, i: usize) -> (r: Option<u8>)
        requires
            self.wf(),
        ensures
            (i as int) < self.avail().len() ==> r == Some(self.avail()[i as int]),
            (i as int) >= self.avail().len() ==> r is None,
    {
        if i < self.inbox.len() - self.rpos {
            Some(self.inbox[self.rpos + i])
        } else {
            None
        }
    }

    /// Discards exactly `n` buffered bytes.
    pub fn consume(&mut self, n: usize)
        requires
            old(self).wf(),
            n as int <= old(self).avail().len(),
        ensures
            final(self).wf(),
            final(self).avail() == old(self).avail().skip(n as int),
            final(self).sent() == old(self).sent(),
            final(self).is_up() == old(self).is_up(),
            final(self).is_nonblocking() == old(self).is_nonblocking(),
            final(self).peer_closed() == old(self).peer_closed(),
    {
        proof {
            broadcast use vstd::std_specs::vec::axiom_spec_len;

            assert(vstd::std_specs::vec::spec_vec_len(&self.inbox) == self.inbox@.len());
        }
        self.rpos = self.rpos + n;
        proof {
            assert(self.avail() =~= old(self).avail().skip(n as int));
        }
    }

    pub fn new() -> (t: Transport)
        ensures
            t.wf(),
            t.avail() == Seq::<u8>::empty(),
            t.sent() == Seq::<u8>::empty(),
            t.is_up(),
            !t.is_nonblocking(),
            !t.peer_closed(),
    {
        let t = Transport {
            inbox: Vec::new(),
            rpos: 0,
            outbox: Vec::new(),
            nonblocking: false,
            up: true,
            peer_eof: false,
        };
        proof {
            assert(t.avail() =~= Seq::<u8>::empty());
        }
        t
    }

    /// Makes `bytes` available for reading, after everything fed before.
    pub fn feed(&mut self, bytes: &Vec<u8>)
        requires
            old(self).wf(),
        ensures
            final(self).wf(),
            final(self).avail() == old(self).avail() + bytes@,
            final(self).sent() == old(self).sent(),
            final(self).is_up() == old(self).is_up(),
            final(self).is_nonblocking() == old(self).is_nonblocking(),
            final(self).peer_closed() == old(self).peer_closed(),
    {
        let mut i: usize = 0;
        while i < bytes.len()
            invariant
                old(self).wf(),
                self.wf(),
                i <= bytes@.len(),
                self.inbox@ == old(self).inbox@ + bytes@.take(i as int),
                self.rpos == old(self).rpos,
                self.outbox == old(self).outbox,
                self.nonblocking == old(self).nonblocking,
                self.up == old(self).up,
                self.peer_eof == old(self).peer_eof,
            decreases bytes@.len() - i,
        {
            self.inbox.push(bytes[i]);
            proof {
                assert(self.inbox@ =~= old(self).inbox@ + bytes@.take(i + 1));
            }
            i = i + 1;
        }
        proof {
            assert(bytes@.take(bytes@.len() as int) =~= bytes@);
            assert(self.avail() =~= old(self).avail() + bytes@);
        }
    }

    /// Drains and returns everything written so far.
    pub fn take_sent(&mut self) -> (r: Vec<u8>)
        requires
            old(self).wf(),
        ensures
            final(self).wf(),
            r@ == old(self).sent(),
            final(self).sent() == Seq::<u8>::empty(),
            final(self).avail() == old(self).avail(),
            final(self).is_up() == old(self).is_up(),
            final(self).is_nonblocking() == old(self).is_nonblocking(),
            final(self).peer_closed() == old(self).peer_closed(),
    {
        let mut out: Vec<u8> = Vec::new();
        core::mem::swap(&mut self.outbox, &mut out);
        out
    }

    /// Records that the peer will send nothing more.
    pub fn set_peer_eof(&mut self)
        requires
            old(self).wf(),
        ensures
            final(self).wf(),
            final(self).peer_closed(),
            final(self).avail() == old(self).avail(),
            final(self).sent() == old(self).sent(),
            final(self).is_up() == old(self).is_up(),
            final(self).is_nonblocking() == old(self).is_nonblocking(),
    {
        self.peer_eof = true;
    }

    /// Switches the read half between blocking and non-blocking mode.
    pub fn set_nonblocking(&mut self, nb: bool)
        requires
            old(self).wf(),
        ensures
            final(self).wf(),
            final(self).is_nonblocking() == nb,
            final(self).avail() == old(self).avail(),
            final(self).sent() == old(self).sent(),
            final(self).is_up() == old(self).is_up(),
            final(self).peer_closed() == old(self).peer_closed(),
    {
        self.nonblocking = nb;
    }

    /// Shuts both halves down; every later read and write fails.
    pub fn shutdown(&mut self)
        requires
            old(self).wf(),
        ensures
            final(self).wf(),
            !final(self).is_up(),
            final(self).avail() == old(self).avail(),
            final(self).sent() == old(self).sent(),
            final(self).is_nonblocking() == old(self).is_nonblocking(),
            final(self).peer_closed() == old(self).peer_closed(),
    {
        self.up = false;
    }

    /// Reads exactly `n` bytes, blocking-style: all of them or nothing.
    pub fn read_exact(&mut self, n: usize) -> (r: Option<Vec<u8>>)
        requires
            old(self).wf(),
        ensures
            final(self).wf(),
            final(self).sent() == old(self).sent(),
            final(self).is_up() == old(self).is_up(),
            final(self).is_nonblocking() == old(self).is_nonblocking(),
            final(self).peer_closed() == old(self).peer_closed(),
            old(self).is_up() && old(self).avail().len() >= n ==> r is Some
                && r.unwrap()@ == old(self).avail().take(n as int)
                && final(self).avail() == old(self).avail().skip(n as int),
            !(old(self).is_up() && old(self).avail().len() >= n) ==> r is None
                && final(self).avail() == old(self).avail(),
    {
        if !self.up || self.inbox.len() - self.rpos < n {
            return None;
        }
        let end: usize = self.rpos + n;
        let mut out: Vec<u8> = Vec::new();
        let mut j: usize = self.rpos;
        while j < end
            invariant
                self == old(self),
                self.wf(),
                self.rpos <= j <= end,
                end == self.rpos + n,
                end <= self.inbox@.len(),
                out@ == self.avail().take(n as int).take(j - self.rpos),
            decreases end - j,
        {
            out.push(self.inbox[j]);
            proof {
                assert(self.avail().take(n as int)[j - self.rpos] == self.inbox@[j as int]);
                assert(out@ =~= self.avail().take(n as int).take(j + 1 - self.rpos));
            }
            j = j + 1;
        }
        self.rpos = self.rpos + n;
        proof {
            assert(out@ =~= old(self).avail().take(n as int));
            assert(self.avail() =~= old(self).avail().skip(n as int));
        }
        Some(out)
    }

    /// Writes all of `bytes`, or nothing if the channel is shut down.
    pub fn write_all(&mut self, bytes: &Vec<u8>) -> (ok: bool)
        requires
            old(self).wf(),
        ensures
            final(self).wf(),
            ok == old(self).is_up(),
            final(self).avail() == old(self).avail(),
            final(self).is_up() == old(self).is_up(),
            final(self).is_nonblocking() == old(self).is_nonblocking(),
            final(self).peer_closed() == old(self).peer_closed(),
            old(self).is_up() ==> final(self).sent() == old(self).sent() + bytes@,
            !old(self).is_up() ==> final(self).sent() == old(self).sent(),
    {
        if !self.up {
            return false;
        }
        let mut i: usize = 0;
        while i < bytes.len()
            invariant
                old(self).wf(),
                self.wf(),
                i <= bytes@.len(),
                self.outbox@ == old(self).outbox@ + bytes@.take(i as int),
                self.inbox == old(self).inbox,
                self.rpos == old(self).rpos,
                self.nonblocking == old(self).nonblocking,
                self.up == old(self).up,
                self.peer_eof == old(self).peer_eof,
            decreases bytes@.len() - i,
        {
            self.outbox.push(bytes[i]);
            proof {
                assert(self.outbox@ =~= old(self).outbox@ + bytes@.take(i + 1));
            }
            i = i + 1;
        }
        proof {
            assert(bytes@.take(bytes@.len() as int) =~= bytes@);
        }
        true
    }
}

} // verus!
