//! Double buffering: the "current" field that a step reads and the "next"
//! field that it writes, whose roles are exchanged after every step without
//! copying.
use vstd::prelude::*;
use crate::grid::Grid;
use crate::stream::{field_ok, pulled, stream_pull_rows};

verus! {

/// The two distribution fields of a run. A step reads only `current` and
/// writes only `next`; `swap` then hands the `current` role to the field
/// just written.
pub struct BufferPair<T> {
    pub current: Vec<T>,
    pub next: Vec<T>,
}

impl<T: Copy> BufferPair<T> {
    /// Starts a run from `initial`; the next buffer begins as a copy of it
    /// and is overwritten by the first step.
    pub fn new(initial: Vec<T>) -> (r: Self)
        ensures
            r.current@ == initial@,
            r.next@ == initial@,
    {
        let len = initial.len();
        let mut next: Vec<T> = Vec::with_capacity(len);
        let mut k: usize = 0;
        while k < len
            invariant
                len == initial@.len(),
                k <= len,
                next@ == initial@.subrange(0, k as int),
            decreases len - k,
        {
            next.push(initial[k]);
            k += 1;
        }
        assert(next@ =~= initial@);
        BufferPair { current: initial, next }
    }

    /// Exchanges the roles of the two buffers in constant time.
    pub fn swap(&mut self)
        ensures
            final(self).current == old(self).next,
            final(self).next == old(self).current,
    {
        std::mem::swap(&mut self.current, &mut self.next);
    }

    /// One pull-model streaming step over the whole grid, written into the
    /// next buffer, followed by the role swap.
    pub fn step_pull(&mut self, mask: &Vec<bool>, grid: Grid)
        requires
            grid.wf(),
            field_ok(old(self).current@, mask@, grid.width as int, grid.height as int),
            old(self).next@.len() == old(self).current@.len(),
        ensures
            final(self).current@ == pulled(old(self).current@, mask@, grid.width as int, grid.height as int),
            final(self).next == old(self).current,
    {
        let ghost full = pulled(self.current@, mask@, grid.width as int, grid.height as int);
        stream_pull_rows(&self.current, mask, grid, 0, self.next.as_mut_slice());
        assert(full.subrange(0, full.len() as int) =~= full);
        self.swap();
    }
}

} // verus!
