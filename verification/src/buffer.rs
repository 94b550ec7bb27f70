//! Bounded byte queues: the buffers between a socket and the relay.
//!
//! A queue never holds more than its capacity. A producer whose bytes do not
//! fit is refused and has to wait until the consumer has taken some out:
//! that refusal is the backpressure of the relay.

use vstd::prelude::*;

verus! {

/// The largest capacity that a queue can have.
pub const MAX_CAPACITY: usize = 0x4000_0000;

/// Copies `input[from..to]` into a vector of its own.
pub fn copy_range(input: &[u8], from: usize, to: usize) -> (out: Vec<u8>)
    requires
        from <= to <= input@.len(),
    ensures
        out@ == input@.subrange(from as int, to as int),
{
    let mut out: Vec<u8> = Vec::new();
    let mut i: usize = from;
    while i < to
        invariant
            from <= i <= to <= input@.len(),
            out@ == input@.subrange(from as int, i as int),
        decreases to - i,
    {
        out.push(input[i]);
        i = i + 1;
        assert(out@ =~= input@.subrange(from as int, i as int));
    }
    out
}

/// A first-in, first-out queue of bytes with a fixed capacity.
pub struct ByteQueue {
    data: Vec<u8>,
    limit: usize,
}

impl ByteQueue {
    #[verifier::type_invariant]
    spec fn within_capacity(&self) -> bool {
        self.data@.len() <= self.limit <= MAX_CAPACITY
    }

    /// The bytes in the queue, oldest first.
    pub closed spec fn view(&self) -> Seq<u8> {
        self.data@
    }

    /// The most bytes that the queue can hold.
    pub closed spec fn capacity(&self) -> nat {
        self.limit as nat
    }

    /// An empty queue. A capacity above `MAX_CAPACITY` is cut down to it.
    pub fn new(capacity: usize) -> (q: ByteQueue)
        ensures
            q@ == Seq::<u8>::empty(),
            q.capacity() == if capacity <= MAX_CAPACITY {
                capacity
            } else {
                MAX_CAPACITY
            },
    {
        let limit = if capacity <= MAX_CAPACITY {
            capacity
        } else {
            MAX_CAPACITY
        };
        ByteQueue { data: Vec::new(), limit }
    }

    /// How many bytes the queue holds.
    pub fn len(&self) -> (n: usize)
        ensures
            n == self@.len(),
            n <= self.capacity() <= MAX_CAPACITY,
    {
        proof {
            use_type_invariant(self);
        }
        self.data.len()
    }

    /// Whether the queue holds nothing.
    pub fn is_empty(&self) -> (b: bool)
        ensures
            b == (self@.len() == 0),
    {
        self.data.len() == 0
    }

    /// The capacity that the queue was made with.
    pub fn limit(&self) -> (n: usize)
        ensures
            n == self.capacity(),
            self@.len() <= n <= MAX_CAPACITY,
    {
        proof {
            use_type_invariant(self);
        }
        self.limit
    }

    /// How many more bytes fit.
    pub fn space(&self) -> (n: usize)
        ensures
            n == self.capacity() - self@.len(),
            n <= MAX_CAPACITY,
    {
        proof {
            use_type_invariant(self);
        }
        self.limit - self.data.len()
    }

    /// The bytes in the queue, oldest first.
    pub fn as_slice(&self) -> (bytes: &[u8])
        ensures
            bytes@ == self@,
    {
        self.data.as_slice()
    }

    /// Appends `bytes` if all of them fit, and says whether it did. A
    /// refused push leaves the queue as it was.
    pub fn push(&mut self, bytes: &[u8]) -> (accepted: bool)
        ensures
            accepted == (old(self)@.len() + bytes@.len() <= old(self).capacity()),
            final(self)@ == if accepted {
                old(self)@ + bytes@
            } else {
                old(self)@
            },
            final(self).capacity() == old(self).capacity(),
    {
        proof {
            use_type_invariant(&*self);
        }
        if bytes.len() > self.limit - self.data.len() {
            return false;
        }
        let mut data: Vec<u8> = Vec::new();
        core::mem::swap(&mut self.data, &mut data);
        data.extend_from_slice(bytes);
        core::mem::swap(&mut self.data, &mut data);
        true
    }

    /// Takes the oldest `n` bytes out of the queue, or all of them if it
    /// holds fewer.
    pub fn consume(&mut self, n: usize)
        ensures
            final(self)@ == if n <= old(self)@.len() {
                old(self)@.subrange(n as int, old(self)@.len() as int)
            } else {
                Seq::<u8>::empty()
            },
            final(self).capacity() == old(self).capacity(),
    {
        proof {
            use_type_invariant(&*self);
        }
        let mut data: Vec<u8> = Vec::new();
        core::mem::swap(&mut self.data, &mut data);
        if n < data.len() {
            let mut rest = data.split_off(n);
            core::mem::swap(&mut self.data, &mut rest);
        } else {
            assert(n == old(self)@.len() ==> old(self)@.subrange(n as int, n as int)
                =~= Seq::<u8>::empty());
        }
    }

    /// Empties the queue.
    pub fn clear(&mut self)
        ensures
            final(self)@ == Seq::<u8>::empty(),
            final(self).capacity() == old(self).capacity(),
    {
        proof {
            use_type_invariant(&*self);
        }
        self.data = Vec::new();
    }
}

} // verus!
