//! Properties that hold across calls, proved from the methods' contracts.
use crate::growth::{block_start, lemma_block_start_monotone};
use crate::segvec::{Iter, SegVec};
use vstd::prelude::*;

verus! {

/// Reading back what was pushed: pushing the elements of `elems` one by one
/// onto an empty container leaves exactly `elems` in it, so `get(i)` returns
/// the `i`-th pushed element for every `i` below the length, and `None` from
/// the length on.
pub proof fn lemma_index_read<T>(states: Seq<SegVec<T>>, elems: Seq<T>)
    requires
        states.len() == elems.len() + 1,
        states[0].wf(),
        states[0]@.len() == 0,
        forall|k: int| 0 <= k < elems.len() ==> #[trigger] states[k].push_post(&states[k + 1], elems[k]),
    ensures
        states[elems.len() as int]@ == elems,
{
    lemma_pushes(states, elems, elems.len() as int);
    assert(elems.take(elems.len() as int) == elems);
}

proof fn lemma_pushes<T>(states: Seq<SegVec<T>>, elems: Seq<T>, k: int)
    requires
        states.len() == elems.len() + 1,
        states[0]@.len() == 0,
        forall|j: int| 0 <= j < elems.len() ==> #[trigger] states[j].push_post(&states[j + 1], elems[j]),
        0 <= k <= elems.len(),
    ensures
        states[k]@ == elems.take(k),
    decreases k,
{
    if k == 0 {
        assert(states[0]@ =~= elems.take(0));
    } else {
        lemma_pushes(states, elems, k - 1);
        let j = k - 1;
        assert(states[j].push_post(&states[j + 1], elems[j]));
        assert(elems.take(k) =~= elems.take(k - 1).push(elems[k - 1]));
    }
}

/// Round trip: a traversal of a container built from `items` yields the
/// elements of `items`, in order, and then ends.
pub proof fn lemma_round_trip<'a, T>(
    items: Seq<T>,
    v: SegVec<T>,
    iters: Seq<Iter<'a, T>>,
    out: Seq<&'a T>,
)
    requires
        v.wf(),
        v@ == items,
        iters.len() == out.len() + 2,
        iters[0]@ == v@,
        forall|k: int| 0 <= k < out.len() ==> #[trigger] iters[k].next_post(&iters[k + 1], Some(out[k])),
        iters[out.len() as int].next_post(&iters[out.len() as int + 1], None),
    ensures
        out.len() == items.len(),
        forall|k: int| 0 <= k < items.len() ==> *out[k] == items[k],
{
    lemma_traversal(items, iters, out, out.len() as int);
    assert forall|k: int| 0 <= k < items.len() implies *out[k] == items[k] by {
        lemma_traversal(items, iters, out, k);
        assert(iters[k].next_post(&iters[k + 1], Some(out[k])));
    }
}

proof fn lemma_traversal<'a, T>(items: Seq<T>, iters: Seq<Iter<'a, T>>, out: Seq<&'a T>, k: int)
    requires
        iters.len() == out.len() + 2,
        iters[0]@ == items,
        forall|j: int| 0 <= j < out.len() ==> #[trigger] iters[j].next_post(&iters[j + 1], Some(out[j])),
        0 <= k <= out.len(),
    ensures
        k <= items.len(),
        iters[k]@ == items.subrange(k, items.len() as int),
    decreases k,
{
    if k == 0 {
        assert(items.subrange(0, items.len() as int) =~= items);
    } else {
        lemma_traversal(items, iters, out, k - 1);
        let j = k - 1;
        assert(iters[j].next_post(&iters[j + 1], Some(out[j])));
        assert(items.subrange(k - 1, items.len() as int).drop_first() =~= items.subrange(
            k,
            items.len() as int,
        ));
    }
}

/// `reserve(0)` never changes the capacity.
pub proof fn lemma_reserve_zero<T>(v0: SegVec<T>, v1: SegVec<T>)
    requires
        v0.wf(),
        v0.reserve_post(&v1, 0),
    ensures
        v1.capacity() == v0.capacity(),
{
}

/// After `reserve(additional)`, `capacity() - len() >= additional`, and a
/// second, smaller reservation leaves the capacity the first one produced.
pub proof fn lemma_reserve_twice<T>(v0: SegVec<T>, v1: SegVec<T>, v2: SegVec<T>, a1: nat, a2: nat)
    requires
        v0.wf(),
        v0.reserve_post(&v1, a1),
        v1.reserve_post(&v2, a2),
        a2 <= a1,
    ensures
        v1.capacity() - v1@.len() >= a1,
        v2.capacity() - v2@.len() >= a2,
        v2.capacity() >= v1.capacity(),
{
}

/// `reserve` never lowers the capacity.
pub proof fn lemma_reserve_grows<T>(v0: SegVec<T>, v1: SegVec<T>, additional: nat)
    requires
        v0.wf(),
        v0.reserve_post(&v1, additional),
    ensures
        v1.capacity() >= v0.capacity(),
{
    lemma_block_start_monotone(v0.first_cap(), v0.num_blocks(), v1.num_blocks());
}

/// No growth within capacity: pushing onto an empty container no more
/// elements than its capacity allocates no block, so the capacity stays
/// what it was after every push.
pub proof fn lemma_no_growth_within_capacity<T>(states: Seq<SegVec<T>>, elems: Seq<T>)
    requires
        states.len() == elems.len() + 1,
        states[0].wf(),
        states[0]@.len() == 0,
        elems.len() <= states[0].capacity(),
        forall|k: int| 0 <= k < elems.len() ==> #[trigger] states[k].push_post(&states[k + 1], elems[k]),
    ensures
        forall|k: int| 0 <= k < states.len() ==> #[trigger] states[k].capacity() == states[0].capacity(),
{
    assert forall|k: int| 0 <= k < states.len() implies #[trigger] states[k].capacity()
        == states[0].capacity() by {
        lemma_pushes_keep_capacity(states, elems, k);
    }
}

proof fn lemma_pushes_keep_capacity<T>(states: Seq<SegVec<T>>, elems: Seq<T>, k: int)
    requires
        states.len() == elems.len() + 1,
        states[0].wf(),
        states[0]@.len() == 0,
        elems.len() <= states[0].capacity(),
        forall|j: int| 0 <= j < elems.len() ==> #[trigger] states[j].push_post(&states[j + 1], elems[j]),
        0 <= k <= elems.len(),
    ensures
        states[k]@.len() == k,
        states[k].num_blocks() == states[0].num_blocks(),
        states[k].first_cap() == states[0].first_cap(),
        states[k].capacity() == states[0].capacity(),
    decreases k,
{
    if k > 0 {
        lemma_pushes_keep_capacity(states, elems, k - 1);
        let j = k - 1;
        assert(states[j].push_post(&states[j + 1], elems[j]));
    }
}

/// Extending an empty container with `a` and then with `b` leaves the
/// concatenation of `a` and `b` in it.
pub proof fn lemma_extend_concat<T>(v0: SegVec<T>, v1: SegVec<T>, v2: SegVec<T>, a: Seq<T>, b: Seq<T>)
    requires
        v0.wf(),
        v0@.len() == 0,
        v0.extend_post(&v1, a),
        v1.extend_post(&v2, b),
    ensures
        v2@ == a + b,
{
    assert(v0@ + a =~= a);
}

} // verus!
