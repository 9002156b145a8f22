//! The byte relay: the model of one direction of the bidirectional copy.
//!
//! The copy loop reads a chunk from one peer and writes it to the other
//! until a side closes. One `Relay` is one direction: bytes accepted from
//! the reader wait in FIFO order until they are taken for the writer, so
//! everything the writer gets is exactly what the reader sent, in order —
//! the byte-exactness the proxy promises.

use vstd::prelude::*;
use vstd::math::min;

verus! {

/// One direction of a splice: a FIFO of bytes in flight.
pub struct Relay {
    pending: Vec<u8>,
    taken: Ghost<Seq<u8>>,
}

impl Relay {
    /// Everything handed to the writer so far, in order.
    pub closed spec fn delivered(&self) -> Seq<u8> {
        self.taken@
    }

    /// What was accepted but not yet taken.
    pub closed spec fn pending_bytes(&self) -> Seq<u8> {
        self.pending@
    }

    /// Everything accepted from the reader so far, in order.
    pub open spec fn accepted(&self) -> Seq<u8> {
        self.delivered() + self.pending_bytes()
    }

    pub fn new() -> (r: Relay)
        ensures
            r.delivered() == Seq::<u8>::empty(),
            r.pending_bytes() == Seq::<u8>::empty(),
    {
        Relay { pending: Vec::new(), taken: Ghost(Seq::empty()) }
    }

    pub fn pending_len(&self) -> (r: usize)
        ensures
            r == self.pending_bytes().len(),
    {
        self.pending.len()
    }

    /// Accepts the first `n` bytes of one read chunk.
    pub fn push_chunk(&mut self, buf: &[u8], n: usize)
        requires
            n <= buf@.len(),
        ensures
            final(self).delivered() == old(self).delivered(),
            final(self).pending_bytes() == old(self).pending_bytes() + buf@.subrange(0, n as int),
            final(self).accepted() == old(self).accepted() + buf@.subrange(0, n as int),
    {
        let ghost p0 = self.pending@;
        let mut i: usize = 0;
        while i < n
            invariant
                i <= n,
                n <= buf@.len(),
                self.taken == old(self).taken,
                self.pending@ == p0 + buf@.subrange(0, i as int),
            decreases n - i,
        {
            self.pending.push(buf[i]);
            proof {
                assert(self.pending@ =~= p0 + buf@.subrange(0, i + 1));
            }
            i += 1;
        }
        proof {
            assert(self.accepted() =~= old(self).accepted() + buf@.subrange(0, n as int));
        }
    }

    /// Hands up to `max` of the oldest waiting bytes to the writer.
    pub fn take(&mut self, max: usize) -> (r: Vec<u8>)
        ensures
            r@ == old(self).pending_bytes().subrange(
                0,
                min(max as int, old(self).pending_bytes().len() as int),
            ),
            final(self).delivered() == old(self).delivered() + r@,
            final(self).pending_bytes() == old(self).pending_bytes().subrange(
                min(max as int, old(self).pending_bytes().len() as int),
                old(self).pending_bytes().len() as int,
            ),
            final(self).accepted() == old(self).accepted(),
    {
        let len = self.pending.len();
        let k = if max < len {
            max
        } else {
            len
        };
        let mut out: Vec<u8> = Vec::new();
        let mut i: usize = 0;
        while i < k
            invariant
                i <= k,
                k <= self.pending@.len(),
                self.pending@ == old(self).pending_bytes(),
                self.taken == old(self).taken,
                out@ == self.pending@.subrange(0, i as int),
            decreases k - i,
        {
            out.push(self.pending[i]);
            proof {
                assert(out@ =~= self.pending@.subrange(0, i + 1));
            }
            i += 1;
        }
        let mut rest: Vec<u8> = Vec::new();
        let mut j: usize = k;
        while j < self.pending.len()
            invariant
                k <= j <= self.pending@.len(),
                self.pending@ == old(self).pending_bytes(),
                self.taken == old(self).taken,
                rest@ == self.pending@.subrange(k as int, j as int),
            decreases self.pending@.len() - j,
        {
            rest.push(self.pending[j]);
            proof {
                assert(rest@ =~= self.pending@.subrange(k as int, j + 1));
            }
            j += 1;
        }
        self.pending = rest;
        proof {
            self.taken@ = self.taken@ + out@;
        }
        proof {
            assert(self.accepted() =~= old(self).accepted());
        }
        out
    }
}

/// Byte-exactness of the copy: at every point, what the writer got followed
/// by what still waits is exactly what the reader sent; once the relay is
/// drained, the writer has received the reader's bytes, whole and in order.
pub proof fn lemma_relay_byte_exact(r: &Relay)
    ensures
        r.delivered() + r.pending_bytes() == r.accepted(),
        r.pending_bytes().len() == 0 ==> r.delivered() == r.accepted(),
{
    if r.pending_bytes().len() == 0 {
        assert(r.delivered() + r.pending_bytes() =~= r.delivered());
    }
}

} // verus!
