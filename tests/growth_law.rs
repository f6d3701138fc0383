use segvec::growth::{bit_length, first_block_capacity, locate};

/// The block holding `i`, found by walking the blocks and summing their
/// capacities.
fn scan(i: usize, first: usize) -> usize {
    let mut start = 0usize;
    let mut cap = first;
    let mut b = 0usize;
    loop {
        if i < start + cap {
            return b;
        }
        start += cap;
        cap *= 2;
        b += 1;
    }
}

#[test]
fn locate_agrees_with_linear_scan() {
    for exp in 0..12usize {
        let first = 1usize << exp;
        for i in 0..20_000usize {
            assert_eq!(locate(i, first, exp + 1), scan(i, first), "i={} first={}", i, first);
        }
    }
}

#[test]
fn locate_at_block_boundaries() {
    // First block of 4: blocks start at 0, 4, 12, 28, 60.
    assert_eq!(locate(0, 4, 3), 0);
    assert_eq!(locate(3, 4, 3), 0);
    assert_eq!(locate(4, 4, 3), 1);
    assert_eq!(locate(11, 4, 3), 1);
    assert_eq!(locate(12, 4, 3), 2);
    assert_eq!(locate(27, 4, 3), 2);
    assert_eq!(locate(28, 4, 3), 3);
    assert_eq!(locate(59, 4, 3), 3);
    assert_eq!(locate(60, 4, 3), 4);
}

#[test]
fn locate_near_the_top_of_the_range() {
    let first = 1usize << 20;
    let i = usize::MAX / 4;
    assert_eq!(locate(i, first, 21), scan(i, first));
}

#[test]
fn bit_length_values() {
    assert_eq!(bit_length(0), 0);
    assert_eq!(bit_length(1), 1);
    assert_eq!(bit_length(2), 2);
    assert_eq!(bit_length(3), 2);
    assert_eq!(bit_length(255), 8);
    assert_eq!(bit_length(256), 9);
    assert_eq!(bit_length(usize::MAX), usize::BITS as usize);
}

#[test]
fn first_block_capacity_values() {
    assert_eq!(first_block_capacity(0, 4), (4, 2));
    assert_eq!(first_block_capacity(5, 4), (8, 3));
    assert_eq!(first_block_capacity(64, 4), (64, 6));
    assert_eq!(first_block_capacity(65, 1), (128, 7));
    assert_eq!(first_block_capacity(0, 1), (1, 0));
    assert_eq!(first_block_capacity(3, 8), (8, 3));
}
