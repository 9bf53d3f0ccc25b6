//! Fixed-capacity circular buffer with push-and-evict.
//!
//! A window always holds exactly its capacity of values (seeded at
//! construction), so every push both inserts the newest value and returns
//! the evicted oldest one — the primitive that lets sliding-window
//! statistics maintain running aggregates in O(1) per tick.

use vstd::prelude::*;

verus! {

/// Ring buffer of `i64` values. Its view is the sequence of stored values,
/// oldest first.
#[derive(Debug, Clone)]
pub struct Window {
    buf: Vec<i64>,
    cursor: usize,
}

impl View for Window {
    type V = Seq<i64>;

    closed spec fn view(&self) -> Seq<i64> {
        self.buf@.subrange(self.cursor as int, self.buf@.len() as int) + self.buf@.subrange(
            0,
            self.cursor as int,
        )
    }
}

impl Window {
    /// The cursor stays inside the non-empty buffer.
    pub closed spec fn wf(&self) -> bool {
        self.buf@.len() >= 1 && self.cursor < self.buf@.len()
    }

    /// Create a window of `capacity` slots, all holding `seed`.
    pub fn new(capacity: usize, seed: i64) -> (w: Window)
        requires
            capacity >= 1,
        ensures
            w.wf(),
            w@.len() == capacity,
            forall|i: int| 0 <= i < capacity ==> w@[i] == seed,
    {
        let mut buf: Vec<i64> = Vec::new();
        let mut i: usize = 0;
        while i < capacity
            invariant
                i <= capacity,
                buf@.len() == i,
                forall|j: int| 0 <= j < i ==> buf@[j] == seed,
            decreases capacity - i,
        {
            buf.push(seed);
            i += 1;
        }
        let w = Window { buf, cursor: 0 };
        proof {
            assert(w@ =~= w.buf@);
        }
        w
    }

    /// Number of stored values (the fixed capacity).
    pub fn len(&self) -> (n: usize)
        requires
            self.wf(),
        ensures
            n == self@.len(),
    {
        self.buf.len()
    }

    /// The `i`-th stored value, oldest first.
    pub fn get(&self, i: usize) -> (r: i64)
        requires
            self.wf(),
            i < self@.len(),
    ensures
            r == self@[i as int],
    {
        let n = self.buf.len();
        let j = if i < n - self.cursor {
            self.cursor + i
        } else {
            i - (n - self.cursor)
        };
        self.buf[j]
    }

    /// Overwrite the oldest slot with `value`, advance the cursor, and
    /// return the evicted oldest value.
    pub fn push(&mut self, value: i64) -> (evicted: i64)
        requires
            old(self).wf(),
        ensures
            final(self).wf(),
            evicted == old(self)@[0],
            final(self)@ =~= old(self)@.drop_first().push(value),
            final(self)@.len() == old(self)@.len(),
    {
        let n = self.buf.len();
        let evicted = self.buf[self.cursor];
        self.buf.set(self.cursor, value);
        let ghost old_view = old(self)@;
        let old_cursor = self.cursor;
        if self.cursor + 1 < n {
            self.cursor = self.cursor + 1;
        } else {
            self.cursor = 0;
        }
        proof {
            let goal = old_view.drop_first().push(value);
            assert(self@.len() == goal.len());
            assert forall|i: int| 0 <= i < self@.len() implies self@[i] == goal[i] by {
                let m = self.buf@.len() as int;
                let c = old_cursor as int;
                if i < m - 1 - c {
                    assert(self@[i] == self.buf@[c + 1 + i]);
                    assert(goal[i] == old_view[i + 1]);
                    assert(old_view[i + 1] == old(self).buf@[c + i + 1]);
                } else if i < m - 1 {
                    assert(self@[i] == self.buf@[i - (m - 1 - c)]);
                    assert(goal[i] == old_view[i + 1]);
                    assert(old_view[i + 1] == old(self).buf@[i + 1 - (m - c)]);
                } else {
                    assert(self@[i] == self.buf@[c]);
                    assert(goal[i] == value);
                }
            };
            assert(self@ =~= goal);
        }
        evicted
    }
}

} // verus!
