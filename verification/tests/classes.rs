//! Exact size-class geometry: the class a request lands in, its alignment,
//! the tag of each path, and the arithmetic helpers behind them.

use elfmalloc::alloc_type::AllocType;
use elfmalloc::general::DynamicAllocator;
use elfmalloc::num::{align_down, align_up, is_power_of_two, next_power_of_two, round_up};

#[test]
fn exact_class_sizes() {
    let mut da = DynamicAllocator::new();

    // The word class.
    let p = da.allocate(8);
    assert_eq!(da.get_layout(p), (8, 8));
    da.free(p);

    // Multiples of 16: 24 rounds to 32, which is a power of two, so it is
    // aligned to its size; 40 rounds to 48, aligned to the word.
    let p = da.allocate(24);
    assert_eq!(da.get_layout(p), (32, 32));
    da.free(p);
    let p = da.allocate(40);
    assert_eq!(da.get_layout(p), (48, 8));
    da.free(p);

    // Powers of two: 200 rounds to 256.
    let p = da.allocate(200);
    assert_eq!(da.get_layout(p), (256, 256));
    da.free(p);
    let p = da.allocate(100000);
    assert_eq!(da.get_layout(p), (131072, 131072));
    da.free(p);

    // The largest class, then the direct mapping just above it.
    let p = da.allocate(1 << 20);
    assert_eq!(da.get_layout(p), (1 << 20, 1 << 20));
    da.free(p);
    let p = da.allocate((1 << 20) + 1);
    assert_eq!(da.get_layout(p), ((1 << 20) + 1, 4096));
    da.free(p);
}

#[test]
fn power_of_two_requests_get_their_own_size() {
    let mut da = DynamicAllocator::new();
    let mut n: usize = 8;
    while n <= 1 << 20 {
        let p = da.allocate(n);
        assert_eq!(da.get_layout(p), (n, n));
        da.free(p);
        n *= 2;
    }
}

#[test]
fn tags_match_the_path() {
    let mut da = DynamicAllocator::new();

    // Small classes sit on small slab pages.
    let p = da.allocate(8);
    assert_eq!(da.get_type(p), AllocType::SmallSlag);
    da.free(p);
    let p = da.allocate(30000);
    assert_eq!(da.get_type(p), AllocType::SmallSlag);
    da.free(p);

    // A request below the cutoff whose class reaches it goes to big slabs.
    let p = da.allocate(40000);
    assert_eq!(da.get_type(p), AllocType::BigSlag);
    da.free(p);
    let p = da.allocate(1 << 20);
    assert_eq!(da.get_type(p), AllocType::BigSlag);
    da.free(p);

    // Above the largest class: a direct mapping.
    let p = da.allocate((1 << 20) + 1);
    assert_eq!(da.get_type(p), AllocType::Large);
    da.free(p);
    let p = da.allocate(64 << 20);
    assert_eq!(da.get_type(p), AllocType::Large);
    da.free(p);
}

#[test]
fn alignment_guarantees() {
    let mut da = DynamicAllocator::new();
    for &size in &[1usize, 7, 8, 24, 100, 512, 8000, 40000, 2 << 20] {
        let p = da.allocate(size);
        let (reported, align) = da.get_layout(p);
        assert!(reported >= size);
        assert!(align >= 8);
        assert_eq!(p % align, 0);
        da.free(p);
    }
}

#[test]
fn rounding_helpers() {
    assert_eq!(round_up(1), 16);
    assert_eq!(round_up(16), 16);
    assert_eq!(round_up(17), 32);
    assert_eq!(round_up(192), 192);

    assert_eq!(next_power_of_two(1), 1);
    assert_eq!(next_power_of_two(100), 128);
    assert_eq!(next_power_of_two(193), 256);
    assert_eq!(next_power_of_two(1 << 20), 1 << 20);

    assert!(is_power_of_two(1));
    assert!(is_power_of_two(65536));
    assert!(!is_power_of_two(0));
    assert!(!is_power_of_two(48));

    assert_eq!(align_down(2097153, 2097152), 2097152);
    assert_eq!(align_down(2097151, 2097152), 0);
    assert_eq!(align_up(1, 65536), 65536);
    assert_eq!(align_up(65536, 65536), 65536);
}

#[test]
fn class_table_geometry() {
    let da = DynamicAllocator::new();
    let sizes = da.0.handles[0].as_ref().unwrap().class_sizes();
    // One word class, twelve multiples of 16, thirteen powers of two.
    assert_eq!(sizes.len(), 26);
    assert_eq!(sizes[0], 8);
    assert_eq!(sizes[1], 16);
    assert_eq!(sizes[2], 32);
    assert_eq!(sizes[12], 192);
    assert_eq!(sizes[13], 256);
    assert_eq!(sizes[14], 512);
    assert_eq!(sizes[25], 1 << 20);
    assert_eq!(da.max_size(), 1 << 20);
}
