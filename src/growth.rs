//! The growth law: block `b` holds `c * 2^b` elements, where `c` is the
//! capacity of the first block, and the location of a global index.
use vstd::arithmetic::power2::{lemma_pow2_strictly_increases, lemma_pow2_unfold, pow2};
use vstd::prelude::*;
use vstd::std_specs::bits::u64_leading_zeros;

verus! {

/// The largest element count that a container may be asked to hold. Keeping
/// the count at a quarter of the address space leaves room for the block
/// that doubles it.
pub open spec fn max_capacity() -> nat {
    usize::MAX as nat / 4
}

/// `n` is a power of two.
pub open spec fn is_power_of_two(n: nat) -> bool {
    exists|k: nat| pow2(k) == n
}

/// Index of the first slot of block `b`: the capacities of blocks `0..b`
/// summed, `c + 2c + ... + 2^(b-1) c`.
pub open spec fn block_start(c: nat, b: nat) -> nat {
    c * ((pow2(b) - 1) as nat)
}

/// Capacity of block `b`.
pub open spec fn block_size(c: nat, b: nat) -> nat {
    c * pow2(b)
}

/// Number of binary digits of `x`, without leading zeros.
pub open spec fn bit_len(x: nat) -> nat
    decreases x,
{
    if x == 0 {
        0
    } else {
        1 + bit_len(x / 2)
    }
}

/// The block that holds global index `i`, by the closed formula.
pub open spec fn block_of(c: nat, i: nat) -> nat {
    bit_len((i + c) / (2 * c))
}

pub proof fn lemma_bit_len_bounds(x: nat)
    requires
        x > 0,
    ensures
        bit_len(x) >= 1,
        pow2((bit_len(x) - 1) as nat) <= x < pow2(bit_len(x)),
    decreases x,
{
    if x == 1 {
        assert(bit_len(0) == 0);
        lemma_pow2_unfold(1);
        assert(pow2(0) == 1) by { vstd::arithmetic::power2::lemma2_to64(); }
    } else {
        lemma_bit_len_bounds(x / 2);
        let l = bit_len(x / 2);
        lemma_pow2_unfold(l);
        lemma_pow2_unfold(l + 1);
        assert(bit_len(x) == l + 1);
    }
}

pub proof fn lemma_block_start_step(c: nat, b: nat)
    ensures
        block_start(c, b + 1) == block_start(c, b) + block_size(c, b),
        block_start(c, b) + c == block_size(c, b),
        block_size(c, b + 1) == 2 * block_size(c, b),
        c > 0 ==> block_size(c, b) > 0,
{
    vstd::arithmetic::power2::lemma_pow2_pos(b);
    lemma_pow2_unfold(b + 1);
    assert(c * ((pow2(b) - 1) as nat) + c == c * pow2(b)) by (nonlinear_arith)
        requires
            pow2(b) > 0,
    ;
    assert(c * pow2(b + 1) == 2 * (c * pow2(b))) by (nonlinear_arith)
        requires
            pow2(b + 1) == 2 * pow2(b),
    ;
    assert(c > 0 ==> c * pow2(b) > 0) by (nonlinear_arith)
        requires
            pow2(b) > 0,
    ;
    assert(c * ((pow2(b + 1) - 1) as nat) == c * ((pow2(b) - 1) as nat) + c * pow2(b))
        by (nonlinear_arith)
        requires
            pow2(b + 1) == 2 * pow2(b),
            pow2(b) > 0,
    ;
}

pub proof fn lemma_first_block(c: nat)
    ensures
        block_start(c, 0) == 0,
        block_size(c, 0) == c,
        block_start(c, 1) == c,
{
    vstd::arithmetic::power2::lemma2_to64();
    assert(c * ((pow2(0) - 1) as nat) == 0) by (nonlinear_arith)
        requires
            pow2(0) == 1,
    ;
    assert(c * pow2(0) == c) by (nonlinear_arith)
        requires
            pow2(0) == 1,
    ;
    assert(c * ((pow2(1) - 1) as nat) == c) by (nonlinear_arith)
        requires
            pow2(1) == 2,
    ;
}

/// Blocks further along start further along.
pub proof fn lemma_block_start_monotone(c: nat, a: nat, b: nat)
    requires
        a <= b,
    ensures
        block_start(c, a) <= block_start(c, b),
        c > 0 && a < b ==> block_start(c, a + 1) <= block_start(c, b),
{
    vstd::arithmetic::power2::lemma_pow2_pos(a);
    if a < b {
        lemma_pow2_strictly_increases(a, b);
        if a + 1 < b {
            lemma_pow2_strictly_increases(a + 1, b);
        }
    }
    assert(pow2(a) <= pow2(b));
    assert(a < b ==> pow2(a + 1) <= pow2(b));
    assert(c * ((pow2(a) - 1) as nat) <= c * ((pow2(b) - 1) as nat)) by (nonlinear_arith)
        requires
            pow2(a) <= pow2(b),
            pow2(a) > 0,
    ;
    if a < b {
        vstd::arithmetic::power2::lemma_pow2_pos(a + 1);
        assert(c * ((pow2(a + 1) - 1) as nat) <= c * ((pow2(b) - 1) as nat)) by (nonlinear_arith)
            requires
                pow2(a + 1) <= pow2(b),
                pow2(a + 1) > 0,
        ;
    }
}

/// The closed formula picks the block whose index range holds `i`.
pub proof fn lemma_block_of_bounds(c: nat, i: nat)
    requires
        c > 0,
    ensures
        block_start(c, block_of(c, i)) <= i < block_start(c, block_of(c, i) + 1),
{
    let x = (i + c) / (2 * c);
    let b = block_of(c, i);
    assert(x * (2 * c) <= i + c < (x + 1) * (2 * c)) by (nonlinear_arith)
        requires
            x == (i + c) / (2 * c),
            c > 0,
    ;
    lemma_pow2_unfold(b + 1);
    if x == 0 {
        assert(pow2(0) == 1) by { vstd::arithmetic::power2::lemma2_to64(); }
        assert(pow2(1) == 2) by { vstd::arithmetic::power2::lemma2_to64(); }
        assert(b == 0);
        assert(block_start(c, 0) == 0) by (nonlinear_arith)
            requires
                pow2(0) == 1,
        ;
        assert(block_start(c, 1) == c) by (nonlinear_arith)
            requires
                pow2(1) == 2,
        ;
        assert(i < c) by (nonlinear_arith)
            requires
                i + c < (x + 1) * (2 * c),
                x == 0,
        ;
    } else {
        lemma_bit_len_bounds(x);
        lemma_pow2_unfold(b);
        let p = pow2((b - 1) as nat);
        assert(pow2(b) == 2 * p);
        assert(c * ((pow2(b) - 1) as nat) <= i) by (nonlinear_arith)
            requires
                p <= x,
                x * (2 * c) <= i + c,
                pow2(b) == 2 * p,
                p > 0,
        ;
        assert(i < c * ((pow2(b + 1) - 1) as nat)) by (nonlinear_arith)
            requires
                x < pow2(b),
                i + c < (x + 1) * (2 * c),
                pow2(b + 1) == 2 * pow2(b),
                c > 0,
        ;
    }
}

/// Only one block's index range holds `i`.
pub proof fn lemma_block_of_unique(c: nat, i: nat, b: nat)
    requires
        c > 0,
        block_start(c, b) <= i < block_start(c, b + 1),
    ensures
        block_of(c, i) == b,
{
    let d = block_of(c, i);
    lemma_block_of_bounds(c, i);
    if d < b {
        lemma_block_start_monotone(c, d, b);
    } else if b < d {
        lemma_block_start_monotone(c, b, d);
    }
}

/// The parameters of the growth law, and the counts it tracks.
pub(crate) struct Meta {
    /// Number of elements in the container.
    pub(crate) len: usize,
    /// Position in the directory of the block that takes the next push.
    pub(crate) empty_data_block: usize,
    /// Capacity of the first block, a power of two.
    pub(crate) initial_cap: usize,
    /// Capacity of the block allocated last.
    pub(crate) block_cap: usize,
    /// One more than the exponent of `initial_cap`.
    pub(crate) block_shift: usize,
}

impl Meta {
    pub(crate) open spec fn wf(&self) -> bool {
        &&& 1 <= self.block_shift < usize::BITS
        &&& self.initial_cap == pow2((self.block_shift - 1) as nat)
        &&& self.initial_cap <= max_capacity() + 1
    }

    /// Parameters of an empty container whose first block holds
    /// `capacity == 2^exp` elements.
    pub(crate) fn with_capacity(capacity: usize, exp: usize) -> (r: Self)
        requires
            capacity == pow2(exp as nat),
            capacity <= max_capacity() + 1,
        ensures
            r.wf(),
            r.len == 0,
            r.empty_data_block == 0,
            r.initial_cap == capacity,
            r.block_cap == capacity,
            r.block_shift == exp + 1,
    {
        proof {
            lemma_max_capacity();
            if exp + 1 >= usize::BITS {
                lemma_pow2_strictly_increases((usize::BITS - 2) as nat, exp as nat);
            }
        }
        Meta {
            len: 0,
            empty_data_block: 0,
            block_cap: capacity,
            initial_cap: capacity,
            block_shift: exp + 1,
        }
    }

    /// Doubles the capacity used for the next block. This allocates nothing:
    /// the caller allocates the block after this.
    pub(crate) fn grow(&mut self)
        requires
            2 * old(self).block_cap <= usize::MAX,
        ensures
            final(self).block_cap == 2 * old(self).block_cap,
            final(self).len == old(self).len,
            final(self).empty_data_block == old(self).empty_data_block,
            final(self).initial_cap == old(self).initial_cap,
            final(self).block_shift == old(self).block_shift,
    {
        self.block_cap = self.block_cap * 2;
    }
}

pub proof fn lemma_max_capacity()
    ensures
        max_capacity() + 1 == pow2((usize::BITS - 2) as nat),
        max_capacity() >= 8,
        usize::BITS >= 32,
{
    vstd::layout::unsigned_int_max_values();
    vstd::arithmetic::power2::lemma2_to64();
    let w = usize::BITS as nat;
    assert(w == 32 || w == 64);
    lemma_pow2_unfold((w - 1) as nat);
    lemma_pow2_unfold(w);
    let p = pow2((w - 2) as nat);
    assert(pow2(w) == 4 * p);
    assert((4 * p - 1) / 4 == p - 1);
}

/// A power of two below `2^e` is at most `2^(e-1)`.
pub proof fn lemma_pow2_double_below(k: nat, e: nat)
    requires
        pow2(k) < pow2(e),
    ensures
        k < e,
        pow2(k + 1) <= pow2(e),
{
    if k >= e {
        if k > e {
            lemma_pow2_strictly_increases(e, k);
        }
    }
    if k + 1 < e {
        lemma_pow2_strictly_increases(k + 1, e);
    }
}

/// `u64::leading_zeros` counts what `bit_len` leaves out of 64 digits.
pub proof fn lemma_leading_zeros(x: u64)
    ensures
        u64_leading_zeros(x) == 64 - bit_len(x as nat),
    decreases x,
{
    reveal(u64_leading_zeros);
    if x != 0 {
        lemma_leading_zeros(x / 2);
    }
}

/// Number of binary digits of `x`.
pub fn bit_length(x: usize) -> (r: usize)
    ensures
        r == bit_len(x as nat),
{
    let lz = (x as u64).leading_zeros();
    proof {
        lemma_leading_zeros(x as u64);
        assert(bit_len(x as nat) <= 64) by {
            reveal(u64_leading_zeros);
        }
    }
    (64 - lz) as usize
}

/// The block that holds global index `i` when the first block holds
/// `initial_cap == 2^(block_shift - 1)` elements and each block doubles the
/// last, in constant time: the bit length of `(i + initial_cap) >>
/// block_shift`. It is the one block whose index range holds `i`.
pub fn locate(i: usize, initial_cap: usize, block_shift: usize) -> (b: usize)
    requires
        1 <= block_shift < usize::BITS,
        initial_cap == pow2((block_shift - 1) as nat),
        i + initial_cap <= usize::MAX,
    ensures
        b == block_of(initial_cap as nat, i as nat),
        block_start(initial_cap as nat, b as nat) <= i < block_start(initial_cap as nat, b as nat + 1),
{
    let x = i + initial_cap;
    let block_shifted = x >> block_shift;
    proof {
        vstd::bits::lemma_usize_shr_is_div(x, block_shift);
        lemma_pow2_unfold(block_shift as nat);
        vstd::arithmetic::power2::lemma_pow2_pos((block_shift - 1) as nat);
        lemma_block_of_bounds(initial_cap as nat, i as nat);
    }
    bit_length(block_shifted)
}

/// The smallest power of two that is at least `requested` and at least
/// `min`, with its exponent.
pub fn first_block_capacity(requested: usize, min: usize) -> (r: (usize, usize))
    requires
        requested <= max_capacity(),
        1 <= min <= 8,
    ensures
        r.0 == pow2(r.1 as nat),
        r.0 >= requested,
        r.0 >= min,
        r.1 == 0 || pow2((r.1 - 1) as nat) < requested || pow2((r.1 - 1) as nat) < min,
        r.0 <= max_capacity() + 1,
{
    proof {
        lemma_max_capacity();
        vstd::arithmetic::power2::lemma2_to64();
    }
    let mut cap: usize = 1;
    let mut exp: usize = 0;
    while cap < requested || cap < min
        invariant
            cap == pow2(exp as nat),
            exp == 0 || pow2((exp - 1) as nat) < requested || pow2((exp - 1) as nat) < min,
            cap <= max_capacity() + 1,
            requested <= max_capacity(),
            1 <= min <= 8,
            max_capacity() + 1 == pow2((usize::BITS - 2) as nat),
            max_capacity() >= 8,
        decreases max_capacity() + 1 - cap,
    {
        proof {
            lemma_pow2_double_below(exp as nat, (usize::BITS - 2) as nat);
            lemma_pow2_unfold(exp as nat + 1);
            vstd::arithmetic::power2::lemma_pow2_pos(exp as nat);
        }
        cap = cap * 2;
        exp = exp + 1;
    }
    (cap, exp)
}

} // verus!
