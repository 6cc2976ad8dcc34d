//! Fixed-capacity per-channel FIFO of the most recent samples.
//!
//! During warm-up the buffer only grows; once it holds `cap` samples every
//! further push evicts the oldest one, so the length stays exactly `cap`.
//! The storage is a ring: `head` marks the slot of the oldest sample and
//! logical index `i` wraps around the end of the backing vector. The view
//! presents the contents oldest-first as a mathematical sequence.

use vstd::prelude::*;

verus! {

use crate::MAX_CAPACITY;
use crate::MAX_MAG;

pub struct HistoryBuffer {
    data: Vec<i64>,
    head: usize,
    cap: usize,
}

impl HistoryBuffer {
    /// Slot in `data` that holds logical element `i` (oldest-first).
    spec fn slot(&self, i: int) -> int {
        if self.head + i < self.data.len() {
            self.head + i
        } else {
            self.head + i - self.data.len()
        }
    }

    /// Logical contents, oldest first.
    pub closed spec fn view(&self) -> Seq<int> {
        Seq::new(self.data.len() as nat, |i: int| self.data@[self.slot(i)] as int)
    }

    /// Fixed logical capacity.
    pub closed spec fn cap(&self) -> nat {
        self.cap as nat
    }

    pub closed spec fn wf(&self) -> bool {
        &&& 2 <= self.cap <= MAX_CAPACITY
        &&& self.data.len() <= self.cap
        &&& (self.data.len() < self.cap ==> self.head == 0)
        &&& (self.data.len() == self.cap ==> self.head < self.cap)
        &&& forall|i: int|
            0 <= i < self.data.len() ==> -MAX_MAG <= #[trigger] self.data@[i] <= MAX_MAG
    }

    /// Facts a caller outside this module needs about a well-formed buffer.
    pub proof fn lemma_wf_facts(&self)
        requires
            self.wf(),
        ensures
            2 <= self.cap() <= MAX_CAPACITY,
            self@.len() <= self.cap(),
            forall|i: int| 0 <= i < self@.len() ==> -MAX_MAG <= #[trigger] self@[i] <= MAX_MAG,
    {
        assert forall|i: int| 0 <= i < self@.len() implies -MAX_MAG <= #[trigger] self@[i]
            <= MAX_MAG by {
            assert(self@[i] == self.data@[self.slot(i)] as int);
        }
    }

    pub fn new(capacity: usize) -> (r: Self)
        requires
            2 <= capacity <= MAX_CAPACITY,
        ensures
            r.wf(),
            r@ == Seq::<int>::empty(),
            r.cap() == capacity as nat,
    {
        let r = HistoryBuffer { data: Vec::new(), head: 0, cap: capacity };
        proof {
            assert(r@ =~= Seq::<int>::empty());
        }
        r
    }

    pub fn len(&self) -> (n: usize)
        ensures
            n as nat == self@.len(),
    {
        self.data.len()
    }

    pub fn capacity(&self) -> (c: usize)
        ensures
            c as nat == self.cap(),
    {
        self.cap
    }

    pub fn full(&self) -> (b: bool)
        ensures
            b == (self@.len() == self.cap()),
    {
        self.data.len() == self.cap
    }

    /// The sample `i` positions from the oldest element.
    pub fn read(&self, i: usize) -> (v: i64)
        requires
            self.wf(),
            (i as nat) < self@.len(),
        ensures
            v as int == self@[i as int],
            -MAX_MAG <= v <= MAX_MAG,
    {
        let n = self.data.len();
        let j = if self.head < n && i < n - self.head {
            self.head + i
        } else {
            i - (n - self.head)
        };
        assert(j == self.slot(i as int));
        self.data[j]
    }

    /// Warm-up push: grows the buffer, no eviction.
    pub fn push_grow(&mut self, x: i64)
        requires
            old(self).wf(),
            old(self)@.len() < old(self).cap(),
            -MAX_MAG <= x <= MAX_MAG,
        ensures
            final(self).wf(),
            final(self).cap() == old(self).cap(),
            final(self)@ == old(self)@.push(x as int),
    {
        self.data.push(x);
        proof {
            assert forall|i: int| 0 <= i < self@.len() implies self@[i] == old(self)@.push(
                x as int,
            )[i] by {
                assert(self.slot(i) == i);
            }
            assert(self@ =~= old(self)@.push(x as int));
        }
    }

    /// Steady-state push: appends `x`, removes and returns the oldest sample.
    pub fn push_evict(&mut self, x: i64) -> (evicted: i64)
        requires
            old(self).wf(),
            old(self)@.len() == old(self).cap(),
            -MAX_MAG <= x <= MAX_MAG,
        ensures
            final(self).wf(),
            final(self).cap() == old(self).cap(),
            evicted as int == old(self)@[0],
            final(self)@ == old(self)@.drop_first().push(x as int),
    {
        let e = self.data[self.head];
        self.data.set(self.head, x);
        self.head = if self.head + 1 == self.cap {
            0
        } else {
            self.head + 1
        };
        proof {
            let target = old(self)@.drop_first().push(x as int);
            assert forall|i: int| 0 <= i < self@.len() implies self@[i] == target[i] by {
                assert(self@[i] == self.data@[self.slot(i)] as int);
                if i < self@.len() - 1 {
                    assert(old(self)@[i + 1] == old(self).data@[old(self).slot(i + 1)] as int);
                    assert(self.slot(i) == old(self).slot(i + 1));
                } else {
                    assert(self.slot(i) == old(self).head);
                }
            }
            assert(self@ =~= target);
        }
        e
    }
}

} // verus!
