use bitmap_alloc::bitalloc::{div_ceil, RawBitMap, RawIndex};
use bitmap_alloc::model::{align_up, MAX_LEN};
use bitmap_alloc::replay::{differential, replay, Op};
use bitmap_alloc::{bitalloc, bytealloc, BitAllocator};

fn fill_with_single_units<T: BitAllocator>(mut bm: T, size: usize) {
    for i in 0..size {
        assert_eq!(Some(i), bm.alloc_n(1));
    }
    assert_eq!(None, bm.alloc_n(1));
}

#[test]
fn fresh_allocator_serves_exactly_size_units() {
    for size in [1usize, 2, 10, 63, 64, 65, 128, 1000] {
        fill_with_single_units(bitalloc::LinearBitMap::new(size), size);
        fill_with_single_units(bytealloc::LinearBitMap::new(size), size);
    }
}

#[test]
fn largest_size_fills_completely() {
    fill_with_single_units(bitalloc::LinearBitMap::new(MAX_LEN), MAX_LEN);
    fill_with_single_units(bytealloc::LinearBitMap::new(MAX_LEN), MAX_LEN);
    let mut bm = bitalloc::LinearBitMap::new(MAX_LEN);
    assert_eq!(Some(0), bm.alloc_n(MAX_LEN));
    assert_eq!(None, bm.alloc_n(1));
}

fn earliest_run<T: BitAllocator>(mut bm: T) {
    // Layout after these calls: [0,2) used, [2,4) free, [4,5) used, [5,16) free.
    assert_eq!(Some(0), bm.alloc_n(2));
    assert_eq!(Some(2), bm.alloc_n(2));
    assert_eq!(Some(4), bm.alloc_n(1));
    bm.dealloc(2, 2);
    assert_eq!(Some(5), bm.alloc_n(3));
    assert_eq!(Some(2), bm.alloc_n(2));
}

#[test]
fn alloc_takes_the_earliest_run_that_fits() {
    earliest_run(bitalloc::LinearBitMap::new(16));
    earliest_run(bytealloc::LinearBitMap::new(16));
}

fn aligned_starts<T: BitAllocator>(mut bm: T) {
    assert_eq!(Some(0), bm.alloc_n(1));
    assert_eq!(Some(4), bm.alloc_aligned(2, 4));
    assert_eq!(Some(8), bm.alloc_aligned(1, 8));
    assert_eq!(Some(2), bm.alloc_aligned(2, 2));
    assert_eq!(Some(16), bm.alloc_aligned(4, 16));
    assert_eq!(None, bm.alloc_aligned(1, 64));
    assert_eq!(Some(1), bm.alloc_aligned(1, 1));
}

#[test]
fn alloc_aligned_takes_the_lowest_aligned_start() {
    aligned_starts(bitalloc::LinearBitMap::new(40));
    aligned_starts(bytealloc::LinearBitMap::new(40));
}

fn round_trip<T: BitAllocator>(mut bm: T) {
    assert_eq!(Some(0), bm.alloc_n(3));
    assert_eq!(Some(3), bm.alloc_n(4));
    assert_eq!(Some(7), bm.alloc_n(5));
    bm.dealloc(7, 5);
    assert_eq!(Some(7), bm.alloc_n(5));
    bm.dealloc(7, 5);
    assert_eq!(Some(7), bm.alloc_n(2));
    assert_eq!(Some(9), bm.alloc_n(1));
}

#[test]
fn alloc_then_dealloc_restores_the_state() {
    round_trip(bitalloc::LinearBitMap::new(20));
    round_trip(bytealloc::LinearBitMap::new(20));
}

fn free_twice<T: BitAllocator>(mut bm: T) {
    assert_eq!(Some(0), bm.alloc_n(4));
    bm.dealloc(2, 4);
    bm.dealloc(2, 4);
    assert_eq!(Some(2), bm.alloc_n(4));
    assert_eq!(Some(6), bm.alloc_n(1));
    assert_eq!(None, bm.alloc_n(2));
}

#[test]
fn dealloc_of_free_indices_changes_nothing_more() {
    free_twice(bitalloc::LinearBitMap::new(8));
    free_twice(bytealloc::LinearBitMap::new(8));
}

#[test]
fn differential_agrees_on_a_fixed_sequence() {
    let ops = vec![
        Op::Alloc(5),
        Op::AllocAligned(3, 2),
        Op::Alloc(2),
        Op::Alloc(1),
        Op::Alloc(1),
        Op::Alloc(1),
        Op::Dealloc(4, 6),
        Op::AllocAligned(2, 8),
        Op::Alloc(1),
        Op::AllocAligned(2, 4),
        Op::AllocAligned(2, 2),
        Op::Alloc(1),
    ];
    let (packed, flags) = differential(10, &ops);
    let expected = vec![
        Some(0),
        Some(6),
        None,
        Some(5),
        Some(9),
        None,
        None,
        Some(8),
        Some(4),
        None,
        Some(6),
        Some(5),
    ];
    assert_eq!(expected, packed);
    assert_eq!(expected, flags);
}

#[test]
fn replay_matches_direct_calls() {
    let ops = vec![Op::Alloc(5), Op::Alloc(3), Op::Alloc(3), Op::Alloc(2), Op::Alloc(1)];
    let mut bm = bitalloc::LinearBitMap::new(10);
    assert_eq!(vec![Some(0), Some(5), None, Some(8), None], replay(&mut bm, &ops));
    bm.dealloc(0, 10);
    assert_eq!(Some(0), bm.alloc_n(10));
}

#[test]
fn cursor_arithmetic() {
    let x = RawIndex::from_int(130);
    assert_eq!(2, x.word);
    assert_eq!(2, x.bit);
    assert_eq!(130, x.to_int());
    assert_eq!(0, RawIndex::new().to_int());
    assert_eq!(MAX_LEN - 1, RawIndex::max().to_int());
    let y = x.add(70);
    assert_eq!(200, y.to_int());
    assert_eq!(3, y.word);
    assert_eq!(8, y.bit);
    assert_eq!(70, y.sub(x));
    let mut z = RawIndex::from_int(63);
    z.add_assign(1);
    assert_eq!(1, z.word);
    assert_eq!(0, z.bit);
    assert!(x.lt(&y));
    assert!(!y.lt(&x));
    assert!(!x.lt(&x));
    assert_eq!(136, x.next_aligned(8).to_int());
    assert_eq!(130, x.next_aligned(2).to_int());
    assert_eq!(256, x.next_aligned(256).to_int());
    assert_eq!(0, RawIndex::new().next_aligned(64).to_int());
}

#[test]
fn align_up_values() {
    assert_eq!(0, align_up(0, 4));
    assert_eq!(4, align_up(1, 4));
    assert_eq!(4, align_up(4, 4));
    assert_eq!(12, align_up(9, 4));
    assert_eq!(1024, align_up(5, 1024));
    assert_eq!(7, align_up(7, 1));
}

#[test]
fn div_ceil_values() {
    assert_eq!(0, div_ceil(0, 64));
    assert_eq!(1, div_ceil(1, 64));
    assert_eq!(1, div_ceil(64, 64));
    assert_eq!(2, div_ceil(65, 64));
    assert_eq!(24, div_ceil(MAX_LEN, 64));
}

#[test]
fn packed_bits_set_and_clear() {
    let mut bm = RawBitMap::new(3);
    let a = RawIndex::from_int(63);
    let b = RawIndex::from_int(64);
    assert!(!bm.get(&a));
    bm.set(&a, true);
    assert!(bm.get(&a));
    assert!(!bm.get(&b));
    assert!(!bm.get(&RawIndex::from_int(62)));
    bm.set_range(&RawIndex::from_int(60), &RawIndex::from_int(130), true);
    assert!(!bm.get(&RawIndex::from_int(59)));
    assert!(bm.get(&RawIndex::from_int(60)));
    assert!(bm.get(&RawIndex::from_int(129)));
    assert!(!bm.get(&RawIndex::from_int(130)));
    bm.set(&b, false);
    assert!(!bm.get(&b));
    assert!(bm.get(&a));
    assert!(bm.get(&RawIndex::from_int(65)));
}

#[test]
fn toggles_and_first_of() {
    let mut bm = bitalloc::LinearBitMap::new(100);
    assert_eq!(0, bm.first_of(false).to_int());
    assert_eq!(100, bm.first_of(true).to_int());
    assert_eq!(Some(0), bm.alloc_n(70));
    assert_eq!(70, bm.first_of(false).to_int());
    assert_eq!(0, bm.first_of(true).to_int());
    assert_eq!(70, bm.next_toggle(&RawIndex::from_int(10)).to_int());
    assert_eq!(100, bm.next_toggle(&RawIndex::from_int(70)).to_int());
    assert_eq!(100, bm.next_toggle(&RawIndex::from_int(100)).to_int());
    assert_eq!(Some(70), bm.alloc_1());
}

#[test]
fn single_unit_fast_path_on_flags() {
    let mut bm = bytealloc::LinearBitMap::new(3);
    assert_eq!(Some(0), bm.alloc_1());
    assert_eq!(Some(1), bm.alloc_1());
    bm.dealloc(0, 1);
    assert_eq!(Some(0), bm.alloc_1());
    assert_eq!(Some(2), bm.alloc_1());
    assert_eq!(None, bm.alloc_1());
}

#[test]
fn request_as_large_as_the_allocator() {
    let mut a = bitalloc::LinearBitMap::new(10);
    let mut b = bytealloc::LinearBitMap::new(10);
    assert_eq!(Some(0), a.alloc_aligned(10, 8));
    assert_eq!(Some(0), b.alloc_aligned(10, 8));
    a.dealloc(0, 1);
    b.dealloc(0, 1);
    assert_eq!(None, a.alloc_n(2));
    assert_eq!(None, b.alloc_n(2));
}

#[test]
fn cursor_beyond_the_allocator_range() {
    let x = RawIndex::from_int(5000);
    let y = x.add(100);
    assert_eq!(5100, y.to_int());
    assert_eq!(79, y.word);
    assert_eq!(44, y.bit);
    let mut z = RawIndex::from_int(2047);
    z.add_assign(1);
    assert_eq!(32, z.word);
    assert_eq!(0, z.bit);
    assert_eq!(5120, x.next_aligned(1024).to_int());
    assert_eq!(8192, x.next_aligned(4096).to_int());
    let w = RawIndex { word: 0, bit: 63 }.add(1);
    assert_eq!(1, w.word);
    assert_eq!(0, w.bit);
}

#[test]
fn set_range_with_start_after_end_changes_nothing() {
    let mut bm = RawBitMap::new(2);
    bm.set(&RawIndex::from_int(10), true);
    bm.set_range(&RawIndex::from_int(20), &RawIndex::from_int(5), true);
    bm.set_range(&RawIndex::from_int(10), &RawIndex::from_int(10), false);
    for i in 0..128 {
        assert_eq!(i == 10, bm.get(&RawIndex::from_int(i)));
    }
}
