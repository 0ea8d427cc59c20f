//! The bounded FIFO channel placed on every edge of the execution
//! graph.  The channel keeps the full history of what was sent and
//! what was already taken by the receiver, so the first-in-first-out
//! guarantee is part of every contract: the n-th operation received
//! is the n-th operation sent.

use vstd::prelude::*;

use crate::types::Operation;

verus! {

/// A bounded single-consumer queue of operations.
pub struct Channel {
    buf: Vec<Operation>,
    cap: usize,
    delivered: Ghost<Seq<Operation>>,
}

impl Channel {
    /// Everything ever accepted by `send`, in order.
    pub closed spec fn sent(self) -> Seq<Operation> {
        self.delivered@ + self.buf@
    }

    /// Everything already taken by `recv`, in order.
    pub closed spec fn received(self) -> Seq<Operation> {
        self.delivered@
    }

    /// What is still queued.
    pub open spec fn pending(self) -> Seq<Operation> {
        self.sent().skip(self.received().len() as int)
    }

    pub closed spec fn capacity(self) -> nat {
        self.cap as nat
    }

    pub fn new(cap: usize) -> (r: Self)
        ensures
            r.sent() == Seq::<Operation>::empty(),
            r.received() == Seq::<Operation>::empty(),
            r.capacity() == cap,
    {
        let r = Channel { buf: Vec::new(), cap, delivered: Ghost(Seq::empty()) };
        proof {
            assert(r.sent() =~= Seq::<Operation>::empty());
        }
        r
    }

    /// Number of queued operations.
    pub fn len(&self) -> (r: usize)
        ensures
            r == self.pending().len(),
    {
        proof {
            assert(self.pending() =~= self.buf@);
        }
        self.buf.len()
    }

    /// Offers an operation to the channel.  The channel is bounded:
    /// the operation is accepted exactly when there is room, and an
    /// accepted operation goes to the back of the queue.
    pub fn send(&mut self, op: Operation) -> (ok: bool)
        ensures
            ok <==> old(self).pending().len() < old(self).capacity(),
            ok ==> final(self).sent() == old(self).sent().push(op),
            !ok ==> final(self).sent() == old(self).sent(),
            final(self).received() == old(self).received(),
            final(self).capacity() == old(self).capacity(),
    {
        proof {
            assert(self.pending() =~= self.buf@);
        }
        if self.buf.len() < self.cap {
            self.buf.push(op);
            proof {
                assert(self.sent() =~= old(self).sent().push(op));
            }
            true
        } else {
            false
        }
    }

    /// Takes the oldest queued operation, if any.  The value handed
    /// out is exactly the next one in sent order: FIFO.
    pub fn recv(&mut self) -> (r: Option<Operation>)
        ensures
            final(self).sent() == old(self).sent(),
            final(self).capacity() == old(self).capacity(),
            old(self).pending().len() == 0 ==> r is None && final(self).received() == old(
                self,
            ).received(),
            old(self).pending().len() > 0 ==> {
                &&& r == Option::Some(old(self).sent()[old(self).received().len() as int])
                &&& final(self).received() == old(self).received().push(
                    old(self).sent()[old(self).received().len() as int],
                )
            },
    {
        proof {
            assert(self.pending() =~= self.buf@);
        }
        if self.buf.len() == 0 {
            Option::None
        } else {
            let op = self.buf.remove(0);
            proof {
                let ghost d0 = self.delivered@;
                assert(op == old(self).sent()[d0.len() as int]);
                self.delivered@ = d0.push(op);
                assert(self.sent() =~= old(self).sent());
            }
            Option::Some(op)
        }
    }
}

/// Channel FIFO: at any point, the sequence of operations observed by
/// the receiver is exactly the prefix of the sequence sent, in the
/// same order; in particular the n-th operation received equals the
/// n-th operation sent.
pub proof fn lemma_channel_fifo(c: Channel)
    ensures
        c.received().len() <= c.sent().len(),
        c.received() == c.sent().take(c.received().len() as int),
        forall|i: int| 0 <= i < c.received().len() ==> c.received()[i] == c.sent()[i],
{
    assert(c.received() =~= c.sent().take(c.received().len() as int));
}

} // verus!
