use segvec::{size_hint_capacity, SegVec};

fn collect(sv: &SegVec<usize>) -> Vec<usize> {
    let mut out = Vec::new();
    let mut it = sv.iter();
    while let Some(x) = it.next() {
        out.push(*x);
    }
    out
}

#[test]
fn push_one_element() {
    let mut segvec = SegVec::new();
    segvec.push(1);
    assert_eq!(segvec[0], 1);
}

#[test]
fn push_one_element_with_capacity() {
    let mut segvec = SegVec::with_capacity(64);
    segvec.push(1);
    assert_eq!(segvec[0], 1);
}

#[test]
fn new_push_get_len() {
    let mut sv: SegVec<i32> = SegVec::new();
    assert!(sv.is_empty());
    assert_eq!(sv.capacity(), 0);
    let idx = sv.push(1);
    assert_eq!(idx, 0);
    assert_eq!(sv.get(0), Some(&1));
    assert_eq!(sv.len(), 1);
    assert!(!sv.is_empty());
}

#[test]
fn get_reads_every_pushed_element() {
    let mut sv: SegVec<usize> = SegVec::new();
    for i in 0..1000usize {
        assert_eq!(sv.push(i * 3 + 1), i);
    }
    for i in 0..1000usize {
        assert_eq!(sv.get(i), Some(&(i * 3 + 1)));
        assert_eq!(sv[i], i * 3 + 1);
    }
    assert_eq!(sv.get(1000), None);
    assert_eq!(sv.get(1001), None);
    assert_eq!(sv.get(usize::MAX), None);
}

#[test]
fn get_reads_every_pushed_element_with_capacity() {
    for cap in [0usize, 1, 2, 3, 5, 7, 8, 9, 63, 64, 65, 100, 1023] {
        let mut sv: SegVec<usize> = SegVec::with_capacity(cap);
        for i in 0..700usize {
            assert_eq!(sv.push(i ^ 0x55), i);
        }
        for i in 0..700usize {
            assert_eq!(sv.get(i), Some(&(i ^ 0x55)));
        }
        assert_eq!(sv.get(700), None);
    }
}

#[test]
fn get_at_length_is_none() {
    let sv: SegVec<usize> = SegVec::from_iter(vec![1, 2, 3]);
    assert_eq!(sv.len(), 3);
    assert_eq!(sv.get(2), Some(&3));
    assert_eq!(sv.get(3), None);
}

#[test]
fn round_trip_empty_one_many() {
    let empty: Vec<usize> = Vec::new();
    assert_eq!(collect(&SegVec::from_iter(empty.clone())), empty);
    assert_eq!(collect(&SegVec::from_iter(vec![42])), vec![42]);
    let many: Vec<usize> = (0..5000).map(|i| i * 7 % 13).collect();
    assert_eq!(collect(&SegVec::from_iter(many.clone())), many);
}

#[test]
fn collect_from_five() {
    let sv: SegVec<usize> = SegVec::from_iter(vec![1, 2, 3, 4, 5]);
    assert_eq!(collect(&sv), vec![1, 2, 3, 4, 5]);
}

#[test]
fn iter_is_restartable_and_exact() {
    let sv: SegVec<usize> = SegVec::from_iter((0..20).collect());
    let mut it = sv.iter();
    assert_eq!(it.len(), 20);
    assert_eq!(it.size_hint(), (20, Some(20)));
    assert_eq!(it.next(), Some(&0));
    assert_eq!(it.len(), 19);
    assert_eq!(collect(&sv), (0..20).collect::<Vec<usize>>());
    assert_eq!(collect(&sv), (0..20).collect::<Vec<usize>>());
}

#[test]
fn iter_ends_and_stays_ended() {
    let sv: SegVec<usize> = SegVec::from_iter(vec![9]);
    let mut it = sv.iter();
    assert_eq!(it.next(), Some(&9));
    assert_eq!(it.next(), None);
    assert_eq!(it.next(), None);
    assert_eq!(it.len(), 0);
}

#[test]
fn iter_over_reserved_blocks() {
    let mut sv: SegVec<usize> = SegVec::new();
    sv.reserve(100);
    for i in 0..10usize {
        sv.push(i);
    }
    assert_eq!(collect(&sv), (0..10).collect::<Vec<usize>>());
}

#[test]
fn iter_mut_writes_every_element() {
    let mut sv: SegVec<usize> = SegVec::from_iter((0..100).collect());
    {
        let mut it = sv.iter_mut();
        assert_eq!(it.len(), 100);
        assert_eq!(it.size_hint(), (100, Some(100)));
        while let Some(x) = it.next() {
            *x *= 2;
        }
        assert_eq!(it.len(), 0);
    }
    assert_eq!(collect(&sv), (0..100).map(|i| i * 2).collect::<Vec<usize>>());
}

#[test]
fn get_mut_writes_one_element() {
    let mut sv: SegVec<usize> = SegVec::from_iter(vec![1, 2, 3, 4, 5, 6]);
    *sv.get_mut(4).unwrap() = 50;
    assert!(sv.get_mut(6).is_none());
    assert_eq!(collect(&sv), vec![1, 2, 3, 4, 50, 6]);
}

#[test]
fn reserve_gives_room() {
    let mut sv: SegVec<usize> = SegVec::new();
    sv.reserve(1000);
    assert!(sv.capacity() >= 1000);
    let mut sv: SegVec<usize> = SegVec::from_iter((0..37).collect());
    sv.reserve(500);
    assert!(sv.capacity() - sv.len() >= 500);
    assert_eq!(collect(&sv), (0..37).collect::<Vec<usize>>());
}

#[test]
fn reserve_exact_block_sequence() {
    // First block 4, then 8, 16, 32, 64: capacities 4, 12, 28, 60, 124.
    let mut sv: SegVec<u64> = SegVec::new();
    sv.reserve(13);
    assert_eq!(sv.capacity(), 28);
    sv.reserve(61);
    assert_eq!(sv.capacity(), 124);
}

#[test]
fn reserve_zero_keeps_capacity() {
    let mut sv: SegVec<usize> = SegVec::new();
    sv.reserve(0);
    assert_eq!(sv.capacity(), 0);
    let mut sv: SegVec<usize> = SegVec::from_iter((0..10).collect());
    let before = sv.capacity();
    sv.reserve(0);
    assert_eq!(sv.capacity(), before);
}

#[test]
fn reserve_twice_decreasing() {
    let mut sv: SegVec<usize> = SegVec::with_capacity(3);
    sv.reserve(300);
    let after_first = sv.capacity();
    assert!(after_first >= 300);
    sv.reserve(20);
    assert!(sv.capacity() >= after_first);
    assert_eq!(sv.capacity(), after_first);
}

#[test]
fn reserve_with_capacity_keeps_initial() {
    let mut sv: SegVec<usize> = SegVec::with_capacity(100);
    sv.reserve(50);
    assert!(sv.capacity() >= 100);
    assert_eq!(sv.capacity(), 128);
}

#[test]
fn no_growth_within_capacity() {
    let mut sv: SegVec<usize> = SegVec::with_capacity(64);
    assert_eq!(sv.capacity(), 64);
    for i in 0..64usize {
        sv.push(i);
        assert_eq!(sv.capacity(), 64);
    }
    sv.push(64);
    assert!(sv.capacity() > 64);
    assert_eq!(sv.capacity(), 192);
}

#[test]
fn extend_concatenates() {
    let a: Vec<usize> = (0..30).collect();
    let b: Vec<usize> = (100..177).collect();
    let mut sv: SegVec<usize> = SegVec::new();
    sv.extend(a.clone());
    assert_eq!(collect(&sv), a);
    sv.extend(b.clone());
    let mut ab = a.clone();
    ab.extend(b.iter().copied());
    for (i, x) in ab.iter().enumerate() {
        assert_eq!(sv.get(i), Some(x));
    }
    assert_eq!(sv.len(), ab.len());
}

#[test]
fn extend_with_empty() {
    let mut sv: SegVec<usize> = SegVec::new();
    sv.extend(Vec::new());
    assert!(sv.is_empty());
    sv.extend(vec![5]);
    sv.extend(Vec::new());
    assert_eq!(collect(&sv), vec![5]);
}

#[test]
fn first_block_rounds_up_to_power_of_two() {
    let sv: SegVec<u64> = SegVec::with_capacity(10);
    assert_eq!(sv.capacity(), 16);
    let sv: SegVec<u64> = SegVec::with_capacity(16);
    assert_eq!(sv.capacity(), 16);
    let sv: SegVec<u64> = SegVec::with_capacity(17);
    assert_eq!(sv.capacity(), 32);
}

#[test]
fn first_block_minimum_depends_on_element_size() {
    let sv: SegVec<u8> = SegVec::with_capacity(0);
    assert_eq!(sv.capacity(), 8);
    let sv: SegVec<u64> = SegVec::with_capacity(1);
    assert_eq!(sv.capacity(), 4);
    let sv: SegVec<[u8; 2048]> = SegVec::with_capacity(0);
    assert_eq!(sv.capacity(), 1);
    let sv: SegVec<u8> = SegVec::new();
    assert_eq!(sv.debug_details().first_block_capacity(), 8);
}

#[test]
fn blocks_double_and_fill_in_order() {
    let mut sv: SegVec<u64> = SegVec::new();
    for i in 0..13u64 {
        sv.push(i);
    }
    let d = sv.debug_details();
    assert_eq!(d.first_block_capacity(), 4);
    assert_eq!(d.block_count(), 3);
    assert_eq!(d.block(0), Some((0, 4, 4)));
    assert_eq!(d.block(1), Some((4, 8, 8)));
    assert_eq!(d.block(2), Some((12, 1, 16)));
    assert_eq!(d.block(3), None);
    assert_eq!(sv.capacity(), 28);
}

#[test]
fn growth_is_lazy_at_block_boundary() {
    let mut sv: SegVec<u64> = SegVec::new();
    for i in 0..12u64 {
        sv.push(i);
    }
    assert_eq!(sv.capacity(), 12);
    assert_eq!(sv.debug_details().block_count(), 2);
    sv.push(12);
    assert_eq!(sv.capacity(), 28);
    assert_eq!(sv.get(12), Some(&12));
}

#[test]
fn large_elements_start_with_one_slot() {
    let mut sv: SegVec<[u8; 2048]> = SegVec::new();
    for i in 0..9u8 {
        sv.push([i; 2048]);
    }
    assert_eq!(sv.capacity(), 15);
    for i in 0..9u8 {
        assert_eq!(sv.get(i as usize).unwrap()[2047], i);
    }
}

#[test]
fn size_hint_prefers_upper_bound() {
    assert_eq!(size_hint_capacity((3, Some(7))), 7);
    assert_eq!(size_hint_capacity((3, None)), 3);
    assert_eq!(size_hint_capacity((0, Some(0))), 0);
}

#[test]
fn from_iter_sizes_first_block() {
    let sv: SegVec<usize> = SegVec::from_iter((0..100).collect());
    assert_eq!(sv.capacity(), 128);
    assert_eq!(sv.debug_details().block_count(), 1);
}

#[test]
fn default_is_empty() {
    let sv: SegVec<usize> = SegVec::default();
    assert!(sv.is_empty());
    assert_eq!(sv.capacity(), 0);
    assert_eq!(sv.get(0), None);
}
