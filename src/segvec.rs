//! The container: a directory of blocks whose capacities double.
use crate::block::Block;
use crate::growth;
use crate::growth::{
    block_of, block_size, block_start, first_block_capacity, is_power_of_two,
    lemma_block_of_bounds, lemma_block_of_unique, lemma_block_start_monotone,
    lemma_block_start_step, lemma_first_block, lemma_max_capacity, max_capacity, Meta,
};
use vstd::arithmetic::power2::{lemma_pow2_unfold, pow2};
use vstd::layout::size_of;
use vstd::prelude::*;

verus! {

/// Capacity of the first block when none is asked for: what a small
/// dynamic array would allocate first, fewer elements for larger ones.
pub open spec fn min_cap<T>() -> nat {
    if size_of::<T>() == 1 {
        8
    } else if size_of::<T>() <= 1024 {
        4
    } else {
        1
    }
}

/// The capacity to set aside for a source of elements with the given size
/// hint: its upper bound where it has one, else its lower bound.
pub fn size_hint_capacity(hint: (usize, Option<usize>)) -> (r: usize)
    ensures
        r == match hint.1 {
            Some(upper) => upper,
            None => hint.0,
        },
{
    let (lower, upper) = hint;
    match upper {
        Some(upper) => upper,
        None => lower,
    }
}

/// A growable array stored in blocks of doubling capacity. Elements never
/// move once pushed.
pub struct SegVec<T> {
    meta: Meta,
    /// The total capacity of all blocks, used slots included.
    capacity: usize,
    /// The directory: every block allocated so far, in order.
    index: Vec<Block<T>>,
    /// Position of the block that takes the next push, if it is allocated.
    first_empty_block: Option<usize>,
}

impl<T> SegVec<T> {
    /// Capacity of the first block, fixed at construction.
    pub closed spec fn first_cap(&self) -> nat {
        self.meta.initial_cap as nat
    }

    /// Number of blocks allocated.
    pub closed spec fn num_blocks(&self) -> nat {
        self.index@.len()
    }

    /// Sum of the capacities of all blocks.
    pub closed spec fn spec_capacity(&self) -> usize {
        self.capacity
    }

    /// Number of elements held.
    pub closed spec fn spec_len(&self) -> usize {
        self.meta.len
    }

    /// The element at global index `i`, read where the location formula
    /// puts it.
    closed spec fn element(&self, i: nat) -> T {
        let c = self.meta.initial_cap as nat;
        let b = block_of(c, i);
        self.index@[b as int]@[i - block_start(c, b)]
    }

    /// Position of the block that takes the next push; the number of blocks
    /// when all of them are full.
    closed spec fn current(&self) -> nat {
        self.meta.empty_data_block as nat
    }

    /// Block `b` holds `c * 2^b` elements from global index `c * (2^b - 1)`
    /// on; the blocks before the current one are full, those after it empty.
    pub closed spec fn inv(&self) -> bool {
        let c = self.meta.initial_cap as nat;
        let m = self.index@.len();
        let e = self.meta.empty_data_block as nat;
        &&& self.meta.wf()
        &&& self.capacity == block_start(c, m)
        &&& self.capacity + c <= usize::MAX
        &&& self.meta.block_cap == block_size(c, if m == 0 { 0 } else { (m - 1) as nat })
        &&& e <= m
        &&& self.first_empty_block == (if e < m { Some(e as usize) } else { None })
        &&& forall|b: int|
            0 <= b < m ==> {
                &&& (#[trigger] self.index@[b]).cap == block_size(c, b as nat)
                &&& self.index@[b].prev_cap == block_start(c, b as nat)
                &&& self.index@[b].wf()
            }
        &&& forall|b: int| 0 <= b < e ==> (#[trigger] self.index@[b])@.len() == self.index@[b].cap
        &&& forall|b: int| e < b < m ==> (#[trigger] self.index@[b])@.len() == 0
        &&& e < m ==> self.index@[e as int]@.len() < self.index@[e as int].cap
        &&& self.meta.len == block_start(c, e) + (if e < m {
            self.index@[e as int]@.len()
        } else {
            0
        })
    }

    /// The container is well formed: every constructor establishes this and
    /// every method keeps it.
    pub open spec fn wf(&self) -> bool {
        &&& self.inv()
        &&& self.spec_capacity() == block_start(self.first_cap(), self.num_blocks())
        &&& self.spec_len() == self@.len()
        &&& self@.len() <= self.spec_capacity()
        &&& self@.len() <= max_capacity()
        &&& is_power_of_two(self.first_cap())
    }

    /// An element of the first `len` slots lies in an allocated block, at an
    /// offset below that block's fill.
    proof fn lemma_element_in_block(&self, i: nat)
        requires
            self.inv(),
            i < self.meta.len,
        ensures
            block_of(self.first_cap(), i) <= self.current(),
            block_of(self.first_cap(), i) < self.num_blocks(),
            block_start(self.first_cap(), block_of(self.first_cap(), i)) <= i,
            i - block_start(self.first_cap(), block_of(self.first_cap(), i))
                < self.index@[block_of(self.first_cap(), i) as int]@.len(),
    {
        let c = self.first_cap();
        let m = self.num_blocks();
        let e = self.current();
        let b = block_of(c, i);
        lemma_block_of_bounds(c, i);
        lemma_block_start_step(c, b);
        if e < m {
            lemma_block_start_step(c, e);
            if b > e {
                lemma_block_start_monotone(c, e, b);
            }
        } else {
            if b >= e {
                lemma_block_start_monotone(c, e, b);
            }
        }
        assert(b <= e);
        if b == e {
            assert(e < m);
        } else {
            assert(b < e);
        }
    }

    /// Writing one element in place, in the block that holds it, keeps the
    /// container well formed and changes that element alone.
    broadcast proof fn lemma_write_through(old_s: &Self, s: &Self, idx: int, v: T)
        requires
            old_s.inv(),
            0 <= idx < old_s.meta.len,
            s.meta == old_s.meta,
            s.capacity == old_s.capacity,
            s.first_empty_block == old_s.first_empty_block,
            s.index@ == old_s.index@.update(
                block_of(old_s.first_cap(), idx as nat) as int,
                s.index@[block_of(old_s.first_cap(), idx as nat) as int],
            ),
            ({
                let b = block_of(old_s.first_cap(), idx as nat) as int;
                &&& s.index@[b].cap == old_s.index@[b].cap
                &&& s.index@[b].prev_cap == old_s.index@[b].prev_cap
                &&& s.index@[b]@ == old_s.index@[b]@.update(
                    idx - block_start(old_s.first_cap(), b as nat),
                    v,
                )
            }),
        ensures
            #![trigger s@, old_s@.update(idx, v)]
            s.inv(),
            s@ == old_s@.update(idx, v),
    {
        let c = old_s.first_cap();
        let b = block_of(c, idx as nat);
        old_s.lemma_element_in_block(idx as nat);
        assert forall|i: int| 0 <= i < s.meta.len implies #[trigger] s.element(i as nat)
            == old_s@.update(idx, v)[i] by {
            old_s.lemma_element_in_block(i as nat);
            if i != idx && block_of(c, i as nat) == b {
                assert(i - block_start(c, b) != idx - block_start(c, b));
            }
        }
        assert(s@ =~= old_s@.update(idx, v));
    }

    proof fn lemma_first_cap_pos(&self)
        requires
            self.inv(),
        ensures
            self.first_cap() > 0,
    {
        vstd::arithmetic::power2::lemma_pow2_pos((self.meta.block_shift - 1) as nat);
    }

    /// What `push` promises: `next` holds the elements of `self` and then
    /// `element`, and has one more block exactly when `self` was full.
    pub open spec fn push_post(&self, next: &Self, element: T) -> bool {
        &&& next.wf()
        &&& next@ == self@.push(element)
        &&& next.first_cap() == self.first_cap()
        &&& self@.len() < self.capacity() ==> next.num_blocks() == self.num_blocks()
        &&& self@.len() == self.capacity() ==> next.num_blocks() == self.num_blocks() + 1
    }

    /// What `reserve` promises: the same elements, room for `additional`
    /// more, and no block beyond the first one that gives that room.
    pub open spec fn reserve_post(&self, next: &Self, additional: nat) -> bool {
        &&& next.wf()
        &&& next@ == self@
        &&& next.first_cap() == self.first_cap()
        &&& next.capacity() - next@.len() >= additional
        &&& self.capacity() - self@.len() >= additional ==> next.num_blocks() == self.num_blocks()
        &&& self.capacity() - self@.len() < additional ==> {
            &&& next.num_blocks() > self.num_blocks()
            &&& block_start(next.first_cap(), (next.num_blocks() - 1) as nat) < self@.len()
                + additional
        }
    }

    /// What `extend` promises: the elements of `self`, then those of `items`.
    pub open spec fn extend_post(&self, next: &Self, items: Seq<T>) -> bool {
        &&& next.wf()
        &&& next@ == self@ + items
        &&& next.first_cap() == self.first_cap()
    }

    /// Capacity of the first block when none is asked for, and its exponent.
    fn min_non_zero_cap() -> (r: (usize, usize))
        ensures
            r.0 == min_cap::<T>(),
            r.0 == pow2(r.1 as nat),
    {
        proof {
            vstd::arithmetic::power2::lemma2_to64();
        }
        let size = core::mem::size_of::<T>();
        if size == 1 {
            (8, 3)
        } else if size <= 1024 {
            (4, 2)
        } else {
            (1, 0)
        }
    }

    /// An empty container. Nothing is allocated until the first push.
    pub fn new() -> (r: Self)
        ensures
            r.wf(),
            r@ == Seq::<T>::empty(),
            r.capacity() == 0,
            r.num_blocks() == 0,
            r.first_cap() == min_cap::<T>(),
    {
        let (cap, exp) = Self::min_non_zero_cap();
        proof {
            lemma_max_capacity();
        }
        let r = SegVec { meta: Meta::with_capacity(cap, exp), index: Vec::new(), capacity: 0, first_empty_block: None };
        proof {
            lemma_first_block(cap as nat);
            assert(r@ =~= Seq::<T>::empty());
        }
        r
    }

    /// An empty container whose first block holds at least `capacity`
    /// elements: the smallest power of two that is at least `capacity` and at
    /// least the minimum for `T`.
    pub fn with_capacity(capacity: usize) -> (r: Self)
        requires
            capacity <= max_capacity(),
        ensures
            r.wf(),
            r@ == Seq::<T>::empty(),
            r.num_blocks() == 1,
            r.first_cap() == r.capacity(),
            is_power_of_two(r.capacity() as nat),
            r.capacity() >= capacity,
            r.capacity() >= min_cap::<T>(),
            r.capacity() < 2 * capacity || r.capacity() < 2 * min_cap::<T>(),
    {
        let (min, _) = Self::min_non_zero_cap();
        let (cap, exp) = first_block_capacity(capacity, min);
        let mut this = SegVec { meta: Meta::with_capacity(cap, exp), index: Vec::new(), capacity: 0, first_empty_block: None };
        proof {
            lemma_max_capacity();
            lemma_first_block(cap as nat);
            assert(this@ =~= Seq::<T>::empty());
        }
        this.grow();
        proof {
            if exp > 0 {
                lemma_pow2_unfold(exp as nat);
                assert(cap == 2 * pow2((exp - 1) as nat));
            } else {
                vstd::arithmetic::power2::lemma2_to64();
            }
            assert(this.capacity == cap);
        }
        this
    }

    /// Appends one more block, twice the size of the last (the first block
    /// has the initial capacity), and makes the next push use it if no
    /// allocated block has room.
    fn grow(&mut self)
        requires
            old(self).inv(),
            2 * (old(self).capacity + old(self).meta.initial_cap) <= usize::MAX,
        ensures
            final(self).inv(),
            final(self)@ == old(self)@,
            final(self).first_cap() == old(self).first_cap(),
            final(self).num_blocks() == old(self).num_blocks() + 1,
            final(self).current() == old(self).current(),
    {
        let ghost c = self.meta.initial_cap as nat;
        let ghost m = self.index@.len();
        let ghost old_self = *self;
        proof {
            self.lemma_first_cap_pos();
            lemma_block_start_step(c, m);
            lemma_first_block(c);
            if m > 0 {
                lemma_block_start_step(c, (m - 1) as nat);
                lemma_block_start_monotone(c, 1, m);
            }
            assert(block_start(c, m) == 0 <==> m == 0);
        }
        if self.capacity != 0 {
            self.meta.grow();
        } else {
            self.index.reserve(64);
        }
        self.index.push(Block::new(self.meta.block_cap, self.capacity));
        self.capacity = self.capacity + self.meta.block_cap;
        self.first_empty_block = Some(self.meta.empty_data_block);
        proof {
            assert forall|i: int| 0 <= i < self.meta.len implies #[trigger] self.element(i as nat) == old_self.element(i as nat) by {
                old_self.lemma_element_in_block(i as nat);
            }
            assert(self@ =~= old_self@);
        }
    }

    /// Number of elements the container holds without allocating again.
    #[verifier::when_used_as_spec(spec_capacity)]
    pub fn capacity(&self) -> (r: usize)
        ensures
            r == self.spec_capacity(),
    {
        self.capacity
    }

    /// Number of elements in the container.
    #[verifier::when_used_as_spec(spec_len)]
    pub fn len(&self) -> (r: usize)
        requires
            self.wf(),
        ensures
            r == self@.len(),
    {
        self.meta.len
    }

    /// Whether the container holds no element.
    pub fn is_empty(&self) -> (r: bool)
        requires
            self.wf(),
        ensures
            r == (self@.len() == 0),
    {
        self.meta.len == 0
    }

    /// The block that holds global index `i`, in constant time.
    fn locate(&self, i: usize) -> (b: usize)
        requires
            self.inv(),
            i < self.capacity,
        ensures
            b == block_of(self.first_cap(), i as nat),
    {
        growth::locate(i, self.meta.initial_cap, self.meta.block_shift)
    }

    /// The element at `idx`, or `None` past the end.
    pub fn get(&self, idx: usize) -> (r: Option<&T>)
        requires
            self.wf(),
        ensures
            r == (if idx < self@.len() { Some(&self@[idx as int]) } else { None }),
    {
        if idx >= self.meta.len {
            return None;
        }
        let block = self.locate(idx);
        proof {
            self.lemma_element_in_block(idx as nat);
        }
        self.index[block].get(idx)
    }

    /// The element at `idx`, to write through, or `None` past the end.
    pub fn get_mut(&mut self, idx: usize) -> (r: Option<&mut T>)
        requires
            old(self).wf(),
        ensures
            final(self).wf(),
            final(self).first_cap() == old(self).first_cap(),
            final(self).num_blocks() == old(self).num_blocks(),
            final(self).capacity() == old(self).capacity(),
            idx < old(self)@.len() ==> {
                &&& r is Some
                &&& *r->0 == old(self)@[idx as int]
                &&& final(self)@ == old(self)@.update(idx as int, *final(r->0))
            },
            idx >= old(self)@.len() ==> r is None && final(self)@ == old(self)@,
    {
        if idx >= self.meta.len {
            return None;
        }
        let block = self.locate(idx);
        proof {
            self.lemma_element_in_block(idx as nat);
        }
        broadcast use SegVec::lemma_write_through;
        let r = self.index[block].get_mut(idx);
        r
    }

    /// Appends `element` and returns its index, the old length. A block is
    /// allocated only when every allocated block is full.
    pub fn push(&mut self, element: T) -> (r: usize)
        requires
            old(self).wf(),
            old(self)@.len() < max_capacity(),
        ensures
            old(self).push_post(&*final(self), element),
            r == old(self)@.len(),
    {
        let ghost old_self = *self;
        let ghost c = self.first_cap();
        proof {
            lemma_max_capacity();
            self.lemma_first_cap_pos();
            let e0 = self.current();
            let m0 = self.num_blocks();
            lemma_block_start_step(c, e0);
            if e0 < m0 {
                lemma_block_start_monotone(c, e0 + 1, m0);
            }
            assert(self.first_empty_block is None <==> self.meta.len == self.capacity);
        }
        // Without a block to write into, every allocated block is full: add one.
        if self.first_empty_block.is_none() {
            self.grow();
        }
        let ghost grown = *self;
        let block = self.first_empty_block.unwrap();
        let ghost e = block as nat;
        proof {
            lemma_block_start_step(c, e);
            lemma_block_of_unique(c, self.meta.len as nat, e);
        }
        let n = self.index.len();
        let full = self.index[block].push(element);
        if full {
            self.meta.empty_data_block = block + 1;
            if block + 1 < n {
                self.first_empty_block = Some(block + 1);
            } else {
                self.first_empty_block = None;
            }
        }
        let len = self.meta.len;
        self.meta.len = len + 1;
        proof {
            let m = self.index@.len();
            if full {
                lemma_block_start_step(c, e + 1);
            }
            assert forall|b: int| 0 <= b < self.meta.empty_data_block implies (#[trigger] self.index@[b])@.len() == self.index@[b].cap by {
                if b != e {
                    assert(grown.index@[b] == self.index@[b]);
                }
            }
            assert forall|b: int| self.meta.empty_data_block < b < m implies (#[trigger] self.index@[b])@.len() == 0 by {
                assert(grown.index@[b] == self.index@[b]);
            }
            if self.meta.empty_data_block < m {
                let e2 = self.meta.empty_data_block as int;
                if e2 != e {
                    assert(grown.index@[e2] == self.index@[e2]);
                }
            }
            assert(self.inv());
            assert forall|i: int| 0 <= i < self.meta.len implies #[trigger] self.element(i as nat)
                == old_self@.push(element)[i] by {
                if i < len {
                    grown.lemma_element_in_block(i as nat);
                }
            }
            assert(self@ =~= old_self@.push(element));
        }
        len
    }

    /// Appends every element of `items`, in order, after setting aside room
    /// for all of them.
    pub fn extend(&mut self, items: Vec<T>)
        requires
            old(self).wf(),
            old(self)@.len() + items@.len() <= max_capacity(),
        ensures
            old(self).extend_post(&*final(self), items@),
    {
        let ghost s = items@;
        let cap = size_hint_capacity((items.len(), Some(items.len())));
        self.reserve(cap);
        for item in it: items
            invariant
                self.wf(),
                it.seq() == s,
                self@ == old(self)@ + s.take(it.index() as int),
                old(self)@.len() + s.len() <= max_capacity(),
                self.first_cap() == old(self).first_cap(),
        {
            proof {
                assert(s.take(it.index() as int + 1) == s.take(it.index() as int).push(s[it.index() as int]));
            }
            self.push(item);
        }
        proof {
            assert(s.take(s.len() as int) == s);
        }
    }

    /// A container holding the elements of `items`, in order, with a first
    /// block large enough for all of them.
    pub fn from_iter(items: Vec<T>) -> (r: Self)
        requires
            items@.len() <= max_capacity(),
        ensures
            r.wf(),
            r@ == items@,
            r.num_blocks() == 1,
            r.capacity() >= items@.len(),
    {
        let ghost s = items@;
        let cap = size_hint_capacity((items.len(), Some(items.len())));
        let mut this = Self::with_capacity(cap);
        for item in it: items
            invariant
                this.wf(),
                it.seq() == s,
                this@ == s.take(it.index() as int),
                s.len() <= max_capacity(),
                this.num_blocks() == 1,
                this.capacity() >= s.len(),
        {
            proof {
                assert(s.take(it.index() as int + 1) == s.take(it.index() as int).push(s[it.index() as int]));
            }
            this.push(item);
        }
        proof {
            assert(s.take(s.len() as int) == s);
        }
        this
    }

    /// A description of the blocks, for inspection.
    pub fn debug_details(&self) -> (r: DebugDetails<'_, T>)
        requires
            self.wf(),
        ensures
            r.segvec() == self,
    {
        DebugDetails(self)
    }

    /// A traversal of every element, in index order.
    pub fn iter(&self) -> (r: Iter<'_, T>)
        requires
            self.wf(),
        ensures
            r@ == self@,
    {
        proof {
            lemma_first_block(self.first_cap());
        }
        let r = Iter { len: self.meta.len, vec: self, block: 0, offset: 0 };
        proof {
            assert(r@ =~= self@);
        }
        r
    }

    /// A traversal of every element, in index order, to write through.
    pub fn iter_mut(&mut self) -> (r: IterMut<'_, T>)
        requires
            old(self).wf(),
        ensures
            r.wf(),
            *r.target() == *old(self),
            r.contents() == old(self)@,
            r.pos() == 0,
            *final(self) == *final(r.target()),
    {
        proof {
            lemma_first_block(self.first_cap());
        }
        IterMut { len: self.meta.len, vec: self, block: 0, offset: 0 }
    }

    /// Makes room for at least `additional` more elements, by allocating
    /// blocks one by one, each twice the last, until there is room: no block
    /// is allocated if there is room already.
    pub fn reserve(&mut self, additional: usize)
        requires
            old(self).wf(),
            old(self)@.len() + additional <= max_capacity(),
        ensures
            old(self).reserve_post(&*final(self), additional as nat),
    {
        if additional == 0 {
            return;
        }
        proof {
            lemma_max_capacity();
        }
        let ghost target = self@.len() + additional;
        let ghost blocks0 = self.num_blocks();
        let ghost cap0 = self.capacity as int;
        let ghost room0 = cap0 - self@.len() >= additional;
        while self.capacity - self.meta.len < additional
            invariant
                self.wf(),
                self@ == old(self)@,
                target == self@.len() + additional,
                target <= max_capacity(),
                self.first_cap() == old(self).first_cap(),
                self.first_cap() <= max_capacity() + 1,
                self.num_blocks() >= blocks0,
                room0 ==> self.num_blocks() == blocks0,
                cap0 == block_start(self.first_cap(), blocks0),
                room0 == (cap0 - (target - additional) >= additional),
                self.num_blocks() > blocks0 ==> block_start(
                    self.first_cap(),
                    (self.num_blocks() - 1) as nat,
                ) < target,
            decreases usize::MAX - self.capacity,
        {
            let ghost prev = self.capacity as nat;
            self.grow();
            proof {
                self.lemma_first_cap_pos();
                lemma_block_start_step(self.first_cap(), (self.num_blocks() - 1) as nat);
                assert(self.capacity > prev);
            }
        }
    }
}

/// A forward traversal of a `SegVec`, block by block and in each block slot
/// by slot.
pub struct Iter<'a, T> {
    /// Elements left.
    len: usize,
    vec: &'a SegVec<T>,
    /// Position in the directory of the block being read.
    block: usize,
    /// Next slot to read in that block.
    offset: usize,
}

impl<'a, T> Iter<'a, T> {
    /// Global index of the next element.
    closed spec fn pos(&self) -> nat {
        block_start(self.vec.first_cap(), self.block as nat) + self.offset as nat
    }

    #[verifier::type_invariant]
    closed spec fn wf(&self) -> bool {
        let m = self.vec.num_blocks();
        &&& self.vec.wf()
        &&& self.block <= self.vec.current()
        &&& self.block < m ==> self.offset <= self.vec.index@[self.block as int]@.len()
        &&& self.block == m ==> self.offset == 0
        &&& self.pos() <= self.vec@.len()
        &&& self.len == self.vec@.len() - self.pos()
    }

    /// What `next` promises: the first element left, which `next` no longer
    /// holds, or `None` when nothing is left.
    pub open spec fn next_post(&self, next: &Self, r: Option<&'a T>) -> bool {
        &&& self@.len() == 0 ==> r is None && next@ == self@
        &&& self@.len() > 0 ==> r == Some(&self@[0]) && next@ == self@.drop_first()
    }

    /// The next element, or `None` at the end.
    pub fn next(&mut self) -> (r: Option<&'a T>)
        ensures
            old(self).next_post(&*final(self), r),
    {
        proof {
            use_type_invariant(&*self);
        }
        if self.len == 0 {
            return None;
        }
        let vec = self.vec;
        let mut block = self.block;
        let mut offset = self.offset;
        let ghost c = vec.first_cap();
        let ghost m = vec.num_blocks();
        let ghost e = vec.current();
        let ghost pos = self.pos();
        proof {
            vec.lemma_first_cap_pos();
            lemma_block_start_step(c, block as nat);
            if block as nat == m {
                assert(false);
            }
        }
        if offset == vec.index[block].data.len() {
            proof {
                assert(block as nat != e);
                lemma_block_start_step(c, block as nat + 1);
                if block as nat + 1 == m {
                    assert(false);
                }
            }
            block = block + 1;
            offset = 0;
        }
        let slice = vec.index[block].as_slice();
        let elem = &slice[offset];
        proof {
            lemma_block_start_step(c, block as nat);
            lemma_block_of_unique(c, pos, block as nat);
        }
        *self = Iter { len: self.len - 1, vec, block, offset: offset + 1 };
        proof {
            assert(self@ =~= old(self)@.drop_first());
        }
        Some(elem)
    }

    /// Number of elements left.
    pub fn len(&self) -> (r: usize)
        ensures
            r == self@.len(),
    {
        proof {
            use_type_invariant(self);
        }
        self.len
    }

    /// Bounds on the number of elements left; both are exact.
    pub fn size_hint(&self) -> (r: (usize, Option<usize>))
        ensures
            r.0 == self@.len(),
            r.1 == Some(self@.len() as usize),
    {
        proof {
            use_type_invariant(self);
        }
        (self.len, Some(self.len))
    }
}

/// A forward traversal of a `SegVec` that hands out each element to write
/// through, in index order.
pub struct IterMut<'a, T> {
    /// Elements left.
    len: usize,
    vec: &'a mut SegVec<T>,
    /// Position in the directory of the block being visited.
    block: usize,
    /// Next slot to visit in that block.
    offset: usize,
}

impl<'a, T> IterMut<'a, T> {
    /// Global index of the next element.
    pub closed spec fn pos(&self) -> nat {
        block_start(self.vec.first_cap(), self.block as nat) + self.offset as nat
    }

    /// Every element of the container, as written so far.
    pub closed spec fn contents(&self) -> Seq<T> {
        self.vec@
    }

    /// The container being traversed.
    pub closed spec fn target(&self) -> &'a mut SegVec<T> {
        self.vec
    }

    pub closed spec fn wf(&self) -> bool {
        let m = self.vec.num_blocks();
        &&& self.vec.wf()
        &&& self.block <= self.vec.current()
        &&& self.block < m ==> self.offset <= self.vec.index@[self.block as int]@.len()
        &&& self.block == m ==> self.offset == 0
        &&& self.pos() <= self.vec@.len()
        &&& self.len == self.vec@.len() - self.pos()
    }

    /// Once the traversal is dropped, the container holds what was written
    /// through it.
    pub proof fn lemma_dropped(it: Self)
        requires
            it.wf(),
            has_resolved(it),
        ensures
            *final(it.target()) == *it.target(),
            final(it.target())@ == it.contents(),
            final(it.target()).wf(),
    {
    }


    /// The next element, to write through, or `None` at the end.
    pub fn next(&mut self) -> (r: Option<&mut T>)
        requires
            old(self).wf(),
        ensures
            final(self).wf(),
            *final(final(self).target()) == *final(old(self).target()),
            final(self).target().capacity() == old(self).target().capacity(),
            final(self).target().first_cap() == old(self).target().first_cap(),
            final(self).target().num_blocks() == old(self).target().num_blocks(),
            old(self).pos() < old(self).contents().len() ==> {
                &&& r is Some
                &&& *r->0 == old(self).contents()[old(self).pos() as int]
                &&& final(self).contents() == old(self).contents().update(
                    old(self).pos() as int,
                    *final(r->0),
                )
                &&& final(self).pos() == old(self).pos() + 1
            },
            old(self).pos() >= old(self).contents().len() ==> {
                &&& r is None
                &&& final(self).contents() == old(self).contents()
                &&& final(self).pos() == old(self).pos()
            },
    {
        if self.len == 0 {
            return None;
        }
        let mut block = self.block;
        let mut offset = self.offset;
        let ghost c = self.vec.first_cap();
        let ghost m = self.vec.num_blocks();
        let ghost e = self.vec.current();
        let ghost pos = self.pos();
        proof {
            self.vec.lemma_first_cap_pos();
            lemma_block_start_step(c, block as nat);
            if block as nat == m {
                assert(false);
            }
        }
        if offset == self.vec.index[block].data.len() {
            proof {
                assert(block as nat != e);
                lemma_block_start_step(c, block as nat + 1);
                if block as nat + 1 == m {
                    assert(false);
                }
            }
            block = block + 1;
            offset = 0;
        }
        proof {
            lemma_block_start_step(c, block as nat);
            lemma_block_of_unique(c, pos, block as nat);
        }
        self.len = self.len - 1;
        self.block = block;
        self.offset = offset + 1;
        let idx = self.vec.index[block].prev_cap + offset;
        broadcast use SegVec::lemma_write_through;
        self.vec.index[block].get_mut(idx)
    }

    /// Number of elements left.
    pub fn len(&self) -> (r: usize)
        requires
            self.wf(),
        ensures
            r == self.contents().len() - self.pos(),
    {
        self.len
    }

    /// Bounds on the number of elements left; both are exact.
    pub fn size_hint(&self) -> (r: (usize, Option<usize>))
        requires
            self.wf(),
        ensures
            r.0 == self.contents().len() - self.pos(),
            r.1 == Some(r.0),
    {
        (self.len, Some(self.len))
    }
}

impl<'a, T> View for Iter<'a, T> {
    type V = Seq<T>;

    /// The elements still to come, in order.
    closed spec fn view(&self) -> Seq<T> {
        self.vec@.subrange(self.pos() as int, self.vec@.len() as int)
    }
}

/// How many of the first `len` elements fall in block `b`.
pub open spec fn block_fill(c: nat, b: nat, len: nat) -> nat {
    if len <= block_start(c, b) {
        0
    } else if len >= block_start(c, b + 1) {
        block_size(c, b)
    } else {
        (len - block_start(c, b)) as nat
    }
}

/// The layout of a `SegVec`: its blocks and how full each one is.
pub struct DebugDetails<'a, T>(&'a SegVec<T>);

impl<'a, T> DebugDetails<'a, T> {
    /// The container described.
    pub closed spec fn segvec(&self) -> &'a SegVec<T> {
        self.0
    }

    #[verifier::type_invariant]
    closed spec fn wf(&self) -> bool {
        self.0.wf()
    }

    /// Number of blocks allocated.
    pub fn block_count(&self) -> (r: usize)
        ensures
            r == self.segvec().num_blocks(),
    {
        self.0.index.len()
    }

    /// Capacity of the first block.
    pub fn first_block_capacity(&self) -> (r: usize)
        ensures
            r == self.segvec().first_cap(),
    {
        self.0.meta.initial_cap
    }

    /// For block `b`, if allocated: the global index of its first slot, the
    /// number of elements in it, and its capacity.
    pub fn block(&self, b: usize) -> (r: Option<(usize, usize, usize)>)
        ensures
            b >= self.segvec().num_blocks() ==> r is None,
            b < self.segvec().num_blocks() ==> r == Some((
                block_start(self.segvec().first_cap(), b as nat) as usize,
                block_fill(self.segvec().first_cap(), b as nat, self.segvec()@.len()) as usize,
                block_size(self.segvec().first_cap(), b as nat) as usize,
            )),
    {
        proof {
            use_type_invariant(self);
        }
        if b >= self.0.index.len() {
            return None;
        }
        let block = &self.0.index[b];
        proof {
            let v = self.0;
            let c = v.first_cap();
            let e = v.current();
            let m = v.num_blocks();
            v.lemma_first_cap_pos();
            lemma_block_start_step(c, b as nat);
            lemma_block_start_step(c, e);
            if (b as nat) < e {
                lemma_block_start_monotone(c, b as nat, e);
            } else if (b as nat) > e {
                lemma_block_start_monotone(c, e, b as nat);
            }
        }
        Some((block.prev_cap, block.data.len(), block.cap))
    }
}

impl<T> core::ops::Index<usize> for SegVec<T> {
    type Output = T;

    /// The element at `idx`, which must be below the length.
    fn index(&self, idx: usize) -> (r: &T)
        ensures
            *r == self@[idx as int],
    {
        self.get(idx).unwrap()
    }
}

impl<T> vstd::std_specs::core::IndexSpecImpl<usize> for SegVec<T> {
    open spec fn index_req(&self, idx: &usize) -> bool {
        self.wf() && *idx < self@.len()
    }
}

impl<T> Default for SegVec<T> {
    fn default() -> (r: Self)
        ensures
            r.wf(),
            r@ == Seq::<T>::empty(),
    {
        Self::new()
    }
}

impl<T> View for SegVec<T> {
    type V = Seq<T>;

    closed spec fn view(&self) -> Seq<T> {
        Seq::new(self.meta.len as nat, |i: int| self.element(i as nat))
    }
}

} // verus!
