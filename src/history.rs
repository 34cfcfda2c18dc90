//! A bounded, oldest-first FIFO of recent usage values for one core.

use std::collections::VecDeque;
use vstd::prelude::*;

verus! {

/// How many past values each core keeps.
pub const HISTORY_SIZE: usize = 50;

/// The last `n` elements of `s` (all of `s` when it is shorter).
pub open spec fn last_n<T>(s: Seq<T>, n: nat) -> Seq<T> {
    if s.len() <= n {
        s
    } else {
        s.subrange(s.len() - n, s.len() as int)
    }
}

/// The history `h` after `x` is recorded: `x` appended, and the oldest
/// values dropped so that at most `HISTORY_SIZE` remain.
pub open spec fn appended<T>(h: Seq<T>, x: T) -> Seq<T> {
    last_n(h.push(x), HISTORY_SIZE as nat)
}

/// The recent values of one core, oldest first.
pub struct History<T> {
    values: VecDeque<T>,
}

impl<T: Copy> History<T> {
    pub closed spec fn view(&self) -> Seq<T> {
        self.values@
    }

    /// A history never holds more than `HISTORY_SIZE` values.
    pub open spec fn wf(&self) -> bool {
        self@.len() <= HISTORY_SIZE
    }

    pub fn new() -> (h: Self)
        ensures
            h@ == Seq::<T>::empty(),
            h.wf(),
    {
        History { values: VecDeque::with_capacity(HISTORY_SIZE) }
    }

    pub fn len(&self) -> (n: usize)
        ensures
            n == self@.len(),
    {
        self.values.len()
    }

    /// Records `x` as the newest value, evicting the oldest one when the
    /// history is full.
    pub fn push(&mut self, x: T)
        requires
            old(self).wf(),
        ensures
            final(self).wf(),
            final(self)@ == appended(old(self)@, x),
    {
        self.values.push_back(x);
        if self.values.len() > HISTORY_SIZE {
            let _ = self.values.pop_front();
        }
    }

    /// The values, oldest first, as a vector.
    pub fn to_vec(&self) -> (v: Vec<T>)
        ensures
            v@ == self@,
    {
        let mut v: Vec<T> = Vec::with_capacity(self.values.len());
        let mut i: usize = 0;
        while i < self.values.len()
            invariant
                i <= self@.len(),
                v@ == self@.subrange(0, i as int),
            decreases self@.len() - i,
        {
            v.push(self.values[i]);
            i = i + 1;
        }
        assert(v@ == self@);
        v
    }
}

} // verus!
