//! Bounded rolling history: a first-in-first-out buffer that holds at most
//! a fixed number of entries and drops the oldest entry when it is full.

use vstd::prelude::*;

verus! {

/// What a bounded FIFO of capacity `max` holds after an entry is appended:
/// the oldest entry leaves when the buffer is full.
pub open spec fn fifo_pushed<T>(s: Seq<T>, max: usize, t: T) -> Seq<T> {
    if s.len() == max {
        s.skip(1).push(t)
    } else {
        s.push(t)
    }
}

/// Bounded FIFO over a circular backing vector.
#[derive(Clone, Debug)]
pub struct RingBuffer<T> {
    buffer: Vec<T>,
    start: usize,
    max_len: usize,
}

impl<T> View for RingBuffer<T> {
    type V = Seq<T>;

    /// The entries in order, oldest first.
    closed spec fn view(&self) -> Seq<T> {
        self.buffer@.skip(self.start as int) + self.buffer@.take(self.start as int)
    }
}

impl<T> RingBuffer<T> {
    /// Capacity the buffer was made with.
    pub closed spec fn spec_max_len(&self) -> usize {
        self.max_len
    }

    /// Structural invariant of the circular layout.
    pub closed spec fn inv(&self) -> bool {
        &&& self.max_len >= 1
        &&& self.buffer@.len() <= self.max_len
        &&& if self.buffer@.len() == self.max_len {
            self.start < self.max_len
        } else {
            self.start == 0
        }
    }

    /// An empty buffer that will hold at most `length` entries.
    pub fn new(length: usize) -> (r: RingBuffer<T>)
        requires
            length >= 1,
        ensures
            r.inv(),
            r@ =~= Seq::<T>::empty(),
            r.spec_max_len() == length,
    {
        RingBuffer { buffer: Vec::new(), start: 0, max_len: length }
    }

    /// Number of entries held.
    pub fn len(&self) -> (r: usize)
        requires
            self.inv(),
        ensures
            r == self@.len(),
    {
        self.buffer.len()
    }

    /// Drop all entries; the capacity stays.
    pub fn reset(&mut self)
        requires
            old(self).inv(),
        ensures
            final(self).inv(),
            final(self)@ =~= Seq::<T>::empty(),
            final(self).spec_max_len() == old(self).spec_max_len(),
    {
        self.buffer.clear();
        self.start = 0;
    }

    /// Append an entry; if the buffer is full, the oldest entry leaves.
    pub fn push(&mut self, t: T)
        requires
            old(self).inv(),
        ensures
            final(self).inv(),
            final(self).spec_max_len() == old(self).spec_max_len(),
            final(self)@ == fifo_pushed(old(self)@, old(self).spec_max_len(), t),
            final(self)@.len() <= final(self).spec_max_len(),
    {
        if self.buffer.len() < self.max_len {
            self.buffer.push(t);
            proof {
                assert(self@ =~= old(self)@.push(t));
            }
        } else {
            let ghost old_view = self@;
            self.buffer.set(self.start, t);
            if self.start + 1 == self.max_len {
                self.start = 0;
            } else {
                self.start = self.start + 1;
            }
            proof {
                assert(self@ =~= old_view.skip(1).push(t));
            }
        }
    }
}

impl<T: Copy> RingBuffer<T> {
    /// The entries in order, oldest first.
    pub fn iter(&self) -> (r: Vec<T>)
        requires
            self.inv(),
        ensures
            r@ == self@,
    {
        let n = self.buffer.len();
        let mut out: Vec<T> = Vec::new();
        let mut k: usize = 0;
        while k < n
            invariant
                self.inv(),
                k <= n,
                n == self.buffer@.len(),
                out@.len() == k,
                forall|j: int| 0 <= j < k ==> out@[j] == self@[j],
            decreases n - k,
        {
            let idx = if k < n - self.start {
                self.start + k
            } else {
                k - (n - self.start)
            };
            out.push(self.buffer[idx]);
            k = k + 1;
        }
        proof {
            assert(out@ =~= self@);
        }
        out
    }

    /// Append a copy of the newest entry; does nothing on an empty buffer.
    pub fn repeat_last(&mut self)
        requires
            old(self).inv(),
        ensures
            final(self).inv(),
            final(self).spec_max_len() == old(self).spec_max_len(),
            final(self)@ == if old(self)@.len() == 0 {
                old(self)@
            } else {
                fifo_pushed(old(self)@, old(self).spec_max_len(), old(self)@.last())
            },
    {
        let n = self.buffer.len();
        if n > 0 {
            let idx = if self.start == 0 {
                n - 1
            } else {
                self.start - 1
            };
            proof {
                if self.start == 0 {
                    assert(self@.last() == self.buffer@[n - 1]);
                } else {
                    assert(self@.last() == self.buffer@[self.start - 1]);
                }
            }
            let v = self.buffer[idx];
            self.push(v);
        } else {
            proof {
                assert(self@ =~= old(self)@);
            }
        }
    }
}

} // verus!
