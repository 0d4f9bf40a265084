//! End-to-end behaviour of the allocator: allocation, writes, frees and
//! reallocation across the size-class range and the large path.

use elfmalloc::alloc_type::AllocType;
use elfmalloc::general::DynamicAllocator;
use elfmalloc::laws;

#[test]
fn layout_lookup() {
    let mut da = DynamicAllocator::new();

    let obj = da.allocate(8);
    let (size, align) = da.get_layout(obj);
    assert!(size >= 8);
    assert!(align >= 8);
    da.free(obj);

    let obj = da.allocate(24);
    let (size, align) = da.get_layout(obj);
    assert!(size >= 24);
    assert!(align >= 8);
    da.free(obj);

    let obj = da.allocate(512);
    let (size, align) = da.get_layout(obj);
    assert!(size >= 512);
    assert!(align >= 512);
    da.free(obj);

    let obj = da.allocate(4 << 20);
    let (size, align) = da.get_layout(obj);
    assert_eq!((size, align), (4 << 20, 4096));
    da.free(obj);
}

#[test]
fn general_alloc_basic_global_single_threaded() {
    let mut da = DynamicAllocator::new();
    for size in ((1 << 13) - 8)..((1 << 13) + 1) {
        let item = da.allocate(size * 8);
        da.write_byte(item, 0, 10);
        da.free(item);
    }
}

#[test]
fn general_alloc_basic_clone_single_threaded() {
    let mut da = DynamicAllocator::new();
    let h = da.clone_handle();
    for size in ((1 << 13) - 8)..((1 << 13) + 1) {
        let item = da.alloc_on(h, size * 8);
        da.write_byte(item, 0, 10);
        da.free_on(h, item);
    }
}

#[test]
fn all_sizes_one_thread() {
    let mut da = DynamicAllocator::new();
    for size in 1..((1 << 21) + 1) {
        let item = da.allocate(size);
        da.write_byte(item, 0, 10);
        da.free(item);
        if size + 2 > 1 << 20 {
            return;
        }
    }
}

#[test]
fn realloc_grow_preserves_payload() {
    let mut da = DynamicAllocator::new();
    let p = da.allocate(32);
    for i in 0..32 {
        da.write_byte(p, i, (i as u8).wrapping_mul(7).wrapping_add(3));
    }
    let q = da.realloc(p, 200);
    for i in 0..32 {
        assert_eq!(da.read_byte(q, i), (i as u8).wrapping_mul(7).wrapping_add(3));
    }
    da.free(q);
}

#[test]
fn realloc_large_to_larger_preserves_payload() {
    let mut da = DynamicAllocator::new();
    // A direct mapping, one header unit above the largest class.
    let p = da.allocate((1 << 20) + 5);
    da.write_byte(p, 0, 0xAB);
    da.write_byte(p, (1 << 20) + 4, 0xCD);
    let q = da.realloc(p, (1 << 21) + 9);
    assert_eq!(da.read_byte(q, 0), 0xAB);
    assert_eq!(da.read_byte(q, (1 << 20) + 4), 0xCD);
    da.free(q);
}

#[test]
fn realloc_idempotent_on_reported_layout() {
    let mut da = DynamicAllocator::new();
    let p = da.allocate(100);
    let (size, align) = da.get_layout(p);
    let q = da.aligned_realloc(p, size, align);
    assert_eq!(q, p);
    da.free(q);
}

#[test]
fn realloc_null_allocates_and_zero_frees() {
    let mut da = DynamicAllocator::new();
    let p = da.realloc(0, 48);
    assert_ne!(p, 0);
    let (size, _align) = da.get_layout(p);
    assert!(size >= 48);
    let r = da.realloc(p, 0);
    assert_eq!(r, 0);
}

#[test]
fn realloc_sweep_alternating_alignment() {
    let mut da = DynamicAllocator::new();
    for s in 1usize..128 {
        let alloc_size = s * 8;
        let item = da.allocate(alloc_size);
        for i in 0..alloc_size {
            da.write_byte(item, i, 0xFF);
        }
        let new_align = if s % 2 == 0 {
            8
        } else {
            (alloc_size * 2).next_power_of_two()
        };
        let new_item = da.aligned_realloc(item, alloc_size * 2, new_align);
        // The old payload survives in the prefix, and the tail is writable.
        assert_eq!(da.read_byte(new_item, alloc_size - 1), 0xFF);
        for i in alloc_size..(alloc_size * 2) {
            da.write_byte(new_item, i, 0xFE);
        }
        assert_eq!(da.read_byte(new_item, alloc_size), 0xFE);
        da.free(new_item);
    }
}

#[test]
fn clone_sweep_cross_handle_free() {
    let mut da = DynamicAllocator::new();
    let h = da.clone_handle();
    for &size in &[8usize, 16, 24, 200, 512, 4096, 30000, 70000, 1 << 20, (1 << 21) + 1] {
        // Allocated on the clone, freed on the original.
        let p = da.alloc_on(h, size);
        da.write_byte(p, 0, 1);
        da.free(p);
        // Allocated on the original, freed on the clone.
        let q = da.allocate(size);
        da.write_byte(q, 0, 2);
        da.free_on(h, q);
    }
    da.retire_handle(h);
}

#[test]
fn retiring_clone_keeps_other_pointers_valid() {
    let mut da = DynamicAllocator::new();
    let h = da.clone_handle();
    let p = da.alloc_on(h, 300);
    da.write_byte(p, 0, 77);
    da.retire_handle(h);
    // The pointer outlives its handle.
    let (size, _align) = da.get_layout(p);
    assert!(size >= 300);
    assert_eq!(da.read_byte(p, 0), 77);
    da.free(p);
}

#[test]
fn interleaved_working_set() {
    let mut da = DynamicAllocator::new();
    let mut ptrs: Vec<usize> = Vec::new();
    for _round in 0..2 {
        for _ in 0..20000 {
            ptrs.push(da.allocate(8));
        }
        for p in ptrs.drain(..) {
            da.free(p);
        }
    }
}

#[test]
fn free_null_is_noop() {
    let mut da = DynamicAllocator::new();
    da.free(0);
    let p = da.allocate(16);
    da.free(0);
    da.free(p);
}

#[test]
fn law_functions_on_concrete_values() {
    let mut da = DynamicAllocator::new();
    assert_eq!(laws::tag_of_fresh_allocation(&mut da, 100), AllocType::SmallSlag);
    assert_eq!(laws::tag_of_fresh_allocation(&mut da, 1 << 19), AllocType::BigSlag);
    assert_eq!(laws::tag_of_fresh_allocation(&mut da, (1 << 21) + 3), AllocType::Large);
    laws::alloc_free_round_trip(&mut da, 24);
    laws::alloc_free_round_trip(&mut da, 4 << 20);
    laws::cross_handle_round_trip(&mut da, 512);
    laws::clone_retire_preserves_live(&mut da, 9000);
    let p = da.allocate(100);
    assert_eq!(laws::realloc_layout_idempotent(&mut da, p), p);
    da.free(p);
}

#[test]
fn realloc_through_clone_handle() {
    let mut da = DynamicAllocator::new();
    let h = da.clone_handle();
    let p = da.0.realloc_on(h, 0, 72, 8);
    da.write_byte(p, 71, 9);
    let q = da.0.realloc_on(h, p, 3000, 4096);
    assert_eq!(da.read_byte(q, 71), 9);
    let r = da.0.realloc_on(h, q, 0, 8);
    assert_eq!(r, 0);
    da.retire_handle(h);
}

#[test]
fn aligned_realloc_null_honours_alignment() {
    let mut da = DynamicAllocator::new();
    // A tiny request at page alignment lands in the page-sized class.
    let p = da.aligned_realloc(0, 8, 4096);
    assert_eq!(da.get_layout(p), (4096, 4096));
    da.free(p);
    // The size rounding dominates when it already covers the alignment.
    let q = da.aligned_realloc(0, 100000, 1024);
    assert_eq!(da.get_layout(q), (131072, 131072));
    da.free(q);
    // Above the largest class, the direct mapping carries page alignment.
    let r = da.aligned_realloc(0, 3000000, 4096);
    let (size, align) = da.get_layout(r);
    assert!(size >= 3000000);
    assert_eq!(align, 4096);
    da.free(r);
    let w = laws::aligned_realloc_null_honours_request(&mut da, 50, 256);
    assert_eq!(da.get_layout(w), (256, 256));
    da.free(w);
}

#[test]
fn large_probe_exact() {
    assert_eq!(laws::large_probe_reports_exact_layout(), (4 << 20, 4096));
}

#[test]
fn sequential_allocations() {
    let (p, q) = laws::sequential_allocations_compose();
    assert_ne!(p, q);
}
