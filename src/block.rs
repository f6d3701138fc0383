//! One fixed-capacity block of elements.
use vstd::prelude::*;

verus! {

/// A run of at most `cap` elements, the first of which has global index
/// `prev_cap`. The vector is created with room for `cap` elements and never
/// holds more, so it never reallocates and its elements never move.
pub struct Block<T> {
    pub(crate) data: Vec<T>,
    pub(crate) cap: usize,
    pub(crate) prev_cap: usize,
}

impl<T> Block<T> {
    /// The elements written so far.
    pub(crate) open spec fn view(&self) -> Seq<T> {
        self.data@
    }

    pub(crate) open spec fn wf(&self) -> bool {
        self.data@.len() <= self.cap
    }

    pub(crate) fn new(cap: usize, prev_cap: usize) -> (r: Self)
        ensures
            r@ == Seq::<T>::empty(),
            r.cap == cap,
            r.prev_cap == prev_cap,
    {
        Block { data: Vec::with_capacity(cap), cap, prev_cap }
    }

    pub(crate) fn is_full(&self) -> (r: bool)
        ensures
            r == (self@.len() == self.cap),
    {
        self.data.len() == self.cap
    }

    /// Writes `element` into the next free slot; returns whether the block
    /// is full afterwards.
    pub(crate) fn push(&mut self, element: T) -> (full: bool)
        requires
            old(self)@.len() < old(self).cap,
        ensures
            final(self)@ == old(self)@.push(element),
            final(self).cap == old(self).cap,
            final(self).prev_cap == old(self).prev_cap,
            full == (final(self)@.len() == final(self).cap),
    {
        self.data.push(element);
        self.is_full()
    }

    /// The element with global index `idx`, if this block holds it.
    pub(crate) fn get(&self, idx: usize) -> (r: Option<&T>)
        ensures
            r == (if self.prev_cap <= idx < self.prev_cap + self@.len() {
                Some(&self@[idx - self.prev_cap])
            } else {
                None
            }),
    {
        if idx < self.prev_cap {
            return None;
        }
        let offset = idx - self.prev_cap;
        if offset >= self.data.len() {
            return None;
        }
        Some(&self.data[offset])
    }

    /// The element with global index `idx`, if this block holds it, to
    /// write through.
    pub(crate) fn get_mut(&mut self, idx: usize) -> (r: Option<&mut T>)
        ensures
            final(self).cap == old(self).cap,
            final(self).prev_cap == old(self).prev_cap,
            old(self).prev_cap <= idx < old(self).prev_cap + old(self)@.len() ==> {
                &&& r is Some
                &&& *r->0 == old(self)@[idx - old(self).prev_cap]
                &&& final(self)@ == old(self)@.update(idx - old(self).prev_cap, *final(r->0))
            },
            !(old(self).prev_cap <= idx < old(self).prev_cap + old(self)@.len()) ==> {
                &&& r is None
                &&& final(self)@ == old(self)@
            },
    {
        if idx < self.prev_cap {
            return None;
        }
        let offset = idx - self.prev_cap;
        if offset >= self.data.len() {
            return None;
        }
        Some(&mut self.data[offset])
    }

    /// The filled prefix of the block.
    pub(crate) fn as_slice(&self) -> (r: &[T])
        ensures
            r@ == self@,
    {
        self.data.as_slice()
    }
}

} // verus!
