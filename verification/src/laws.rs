//! The allocator's laws: statements that tie several operations together,
//! proved once for all inputs their premises admit.

use vstd::prelude::*;

verus! {

use vstd::arithmetic::power2::is_pow2;
use crate::alloc_type::AllocType;
use crate::general::DynamicAllocator;
use crate::num::{
    lemma_next_pow2_exact, lemma_next_pow2_props, lemma_pow2_constants, lemma_pow2_divides,
    lemma_round16_fixed,
};

use crate::size_classes::{class_align, TieredSizeClasses};
use crate::{ELFMALLOC_SMALL_CUTOFF, MULTIPLE, OS_PAGE_SIZE, WORD_SIZE};

/// Size-class coverage: every request up to the largest class is served by a
/// class at least as large.
pub proof fn lemma_class_size_covers(ts: TieredSizeClasses, n: int)
    requires
        ts.structure_wf(),
        1 <= n <= ts.spec_max_key(),
    ensures
        n <= ts.class_size_for(n),
{
    lemma_next_pow2_props(n);
    crate::num::lemma_align_down(n + 15, 16);
}

/// Size-class exactness: a power-of-two request of at least the word size,
/// up to the largest class, is served by a class of exactly its size, and
/// that class is aligned to its size.
pub proof fn lemma_power_of_two_class_exact(ts: TieredSizeClasses, n: int)
    requires
        ts.structure_wf(),
        is_pow2(n),
        WORD_SIZE <= n <= ts.spec_max_key(),
    ensures
        ts.class_size_for(n) == n,
        class_align(n) == n,
{
    lemma_pow2_constants();
    if n <= WORD_SIZE {
        lemma_pow2_divides(n, WORD_SIZE as int);
    } else if n <= ts.small_objs.max_size {
        // A power of two above 8 is at least 16 and a multiple of 16, so it
        // is its own rounding in the multiples run.
        lemma_pow2_divides(WORD_SIZE as int, n);
        lemma_pow2_divides(MULTIPLE as int, n);
        lemma_round16_fixed(n);
    } else {
        lemma_next_pow2_exact(n);
        // n is a power of two above the small run, so it reaches at least
        // the first medium class.
        crate::num::lemma_next_pow2_min(ts.small_objs.max_size + 1, n);
    }
}

/// Tag recoverability: the tag read back from a freshly allocated pointer is
/// defined and is exactly the path the request's size selects — a slab tag
/// up to the largest class (small slab when the class is below the cutoff,
/// big slab at and above it), the direct-mapping tag above the largest
/// class.
pub fn tag_of_fresh_allocation(a: &mut DynamicAllocator, size: usize) -> (t: AllocType)
    requires
        old(a).wf(),
        1 <= size,
        old(a).space_for(size as int),
    ensures
        final(a).wf(),
        t == old(a).alloc_record(size as int).ty,
        size > old(a).0.max_size ==> t is Large,
        size <= old(a).0.max_size ==> t == (if old(a).0.table().class_size_for(size as int)
            < ELFMALLOC_SMALL_CUTOFF {
            AllocType::SmallSlag
        } else {
            AllocType::BigSlag
        }),
{
    let p = a.allocate(size);
    a.get_type(p)
}

/// Round trip: freeing a fresh allocation is always permitted and restores
/// the allocator's set of live pointers exactly.
pub fn alloc_free_round_trip(a: &mut DynamicAllocator, size: usize)
    requires
        old(a).wf(),
        1 <= size,
        old(a).space_for(size as int),
    ensures
        final(a).wf(),
        final(a)@.live == old(a)@.live,
        final(a)@.bytes == old(a)@.bytes,
{
    let p = a.allocate(size);
    a.free(p);
    proof {
        assert(a@.live =~= old(a)@.live);
    }
}

/// Reallocation idempotence: reallocating a pointer to the very size and
/// alignment its layout reports returns the pointer unchanged and leaves the
/// allocator untouched.
pub fn realloc_layout_idempotent(a: &mut DynamicAllocator, p: usize) -> (r: usize)
    requires
        old(a).wf(),
        old(a)@.live.contains_key(p),
    ensures
        final(a).wf(),
        r == p,
        final(a)@.live == old(a)@.live,
        final(a)@.bytes == old(a)@.bytes,
{
    let (old_size, old_align) = a.get_layout(p);
    proof {
        // A recorded layout size is never zero.
        assert(old(a)@.live_ok(p, old(a)@.live[p]));
    }
    a.aligned_realloc(p, old_size, old_align)
}

/// Cross-handle free: a pointer allocated through one handle may be freed
/// through any other handle of the same family, and the round trip restores
/// the set of live pointers.
pub fn cross_handle_round_trip(a: &mut DynamicAllocator, size: usize)
    requires
        old(a).wf(),
        1 <= size,
        old(a).space_for(size as int),
    ensures
        final(a).wf(),
        final(a)@.live == old(a)@.live,
        final(a)@.bytes == old(a)@.bytes,
{
    let h1 = a.clone_handle();
    let h2 = a.clone_handle();
    let p = a.alloc_on(h1, size);
    a.free_on(h2, p);
    a.retire_handle(h1);
    a.retire_handle(h2);
    proof {
        assert(a@.live =~= old(a)@.live);
    }
}

/// Clone independence: retiring the handle that produced a pointer leaves
/// the pointer live, with its layout intact, and it can still be freed
/// through the surviving handle.
pub fn clone_retire_preserves_live(a: &mut DynamicAllocator, size: usize)
    requires
        old(a).wf(),
        1 <= size,
        old(a).space_for(size as int),
    ensures
        final(a).wf(),
        final(a)@.live == old(a)@.live,
        final(a)@.bytes == old(a)@.bytes,
{
    let h = a.clone_handle();
    let p = a.alloc_on(h, size);
    a.retire_handle(h);
    // The pointer outlives its handle: still live, layout unchanged.
    let (sz, _al) = a.get_layout(p);
    proof {
        assert(sz >= size);
    }
    a.free(p);
    proof {
        assert(a@.live =~= old(a)@.live);
    }
}

/// The fast-path discriminator: a live small-slab pointer is never aligned
/// to the cutoff, while big-slab and direct-mapped pointers always are — so
/// the low-order bits of an address suffice to pick the page size without
/// reading the tag byte.
pub proof fn lemma_cutoff_alignment_discriminates(a: DynamicAllocator, p: usize)
    requires
        a.wf(),
        a@.live.contains_key(p),
    ensures
        a@.live[p].ty is SmallSlag <==> p % ELFMALLOC_SMALL_CUTOFF != 0,
{
    assert(a@.live_ok(p, a@.live[p]));
}

/// The construction defaults, witnessed end to end: a fresh allocator has
/// room for a 4 MiB request, serves it from the direct-mapping path, and its
/// layout query reports exactly 4 MiB at the operating system's page
/// alignment.
pub fn large_probe_reports_exact_layout() -> (r: (usize, usize))
    ensures
        r == (4194304usize, OS_PAGE_SIZE),
{
    let mut a = DynamicAllocator::new();
    let p = a.allocate(4194304);
    let lay = a.get_layout(p);
    a.free(p);
    lay
}

/// The alignment guarantee of a fresh aligned reallocation: a null-pointer
/// request behaves as an allocation whose layout covers the size and, for
/// alignments up to the operating system's page size, carries the requested
/// alignment.
pub fn aligned_realloc_null_honours_request(
    a: &mut DynamicAllocator,
    new_size: usize,
    new_alignment: usize,
) -> (r: usize)
    requires
        old(a).wf(),
        1 <= new_size,
        new_alignment <= OS_PAGE_SIZE,
        old(a).space_for(2 * new_size + 2 * new_alignment + 1),
    ensures
        final(a).wf(),
        r != 0,
        final(a)@.live.contains_key(r),
        final(a)@.live[r].size >= new_size,
        final(a)@.live[r].align >= new_alignment,
{
    a.aligned_realloc(0, new_size, new_alignment)
}

/// Verified clients can chain operations: the constructors pin the initial
/// frontier and every operation bounds its growth, so from a fresh
/// allocator a small request and a direct-mapped request both provably have
/// room, return distinct pointers, and both can be freed again.
pub fn sequential_allocations_compose() -> (r: (usize, usize))
    ensures
        r.0 != r.1,
{
    let mut a = DynamicAllocator::new();
    let p = a.allocate(24);
    let q = a.allocate(4194304);
    let lay = a.get_layout(q);
    proof {
        assert(lay == (4194304usize, OS_PAGE_SIZE));
    }
    a.free(p);
    a.free(q);
    (p, q)
}

} // verus!
