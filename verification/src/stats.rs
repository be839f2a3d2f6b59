//! A fixed-size buffer of the latest samples, for download statistics.

use vstd::prelude::*;

verus! {

/// Keeps the latest samples in at most `capacity` slots: it fills up, then
/// overwrites the oldest slot, cycling over all slots but the last one.
pub struct CircularBuffer<T> {
    pos: usize,
    capacity: usize,
    inner: Vec<T>,
}

impl<T> CircularBuffer<T> {
    pub closed spec fn pos_view(&self) -> nat {
        self.pos as nat
    }

    pub closed spec fn capacity_view(&self) -> nat {
        self.capacity as nat
    }

    pub closed spec fn items(&self) -> Seq<T> {
        self.inner@
    }

    /// The position stays within the items, and the items within the
    /// capacity; the position stays before the last slot once there are two
    /// slots or more.
    pub open spec fn wf(&self) -> bool {
        &&& self.pos_view() <= self.items().len() <= self.capacity_view()
        &&& (self.pos_view() < self.capacity_view() || self.capacity_view() <= 1)
    }

    /// An empty buffer with `size` slots.
    pub fn new(size: usize) -> (r: Self)
        ensures
            r.wf(),
            r.pos_view() == 0,
            r.capacity_view() == size,
            r.items() == Seq::<T>::empty(),
    {
        CircularBuffer { pos: 0, capacity: size, inner: Vec::with_capacity(size) }
    }

    /// Adds a sample: at the end while there is room, else over the slot at
    /// the position. The position moves on by one, back to the start before
    /// it reaches the last slot.
    pub fn push_back(&mut self, item: T)
        requires
            old(self).wf(),
            old(self).capacity_view() > 0,
            !(old(self).capacity_view() == 1 && old(self).items().len() == 1),
        ensures
            final(self).wf(),
            final(self).capacity_view() == old(self).capacity_view(),
            ({
                let p = if old(self).pos_view() == old(self).capacity_view() - 1 {
                    0
                } else {
                    old(self).pos_view()
                };
                &&& final(self).pos_view() == p + 1
                &&& final(self).items() == if old(self).items().len() == old(self).capacity_view() {
                    old(self).items().update(p as int, item)
                } else {
                    old(self).items().push(item)
                }
            }),
    {
        if self.pos == self.capacity - 1 {
            self.pos = 0;
        }
        if self.inner.len() == self.capacity {
            self.inner.set(self.pos, item);
        } else {
            self.inner.push(item);
        }
        self.pos = self.pos + 1;
    }

    /// The samples, in slot order.
    pub fn as_slice(&self) -> (r: &[T])
        ensures
            r@ == self.items(),
    {
        self.inner.as_slice()
    }
}

} // verus!
