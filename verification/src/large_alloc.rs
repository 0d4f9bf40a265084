//! The large-object path: requests beyond the largest size class are served
//! by mapping a dedicated region, with one reserved 2 MiB unit below the
//! returned pointer holding a sidecar header that records the mapping's base
//! and total size.

use vstd::prelude::*;

verus! {

use vstd::arithmetic::div_mod::{
    lemma_add_mod_noop, lemma_fundamental_div_mod, lemma_mod_division_less_than_divisor,
};
use crate::alloc_type::AllocType;
use crate::heap::{Heap, LiveObject};
use crate::num::{
    align_down, align_down_spec, align_up, lemma_align_down, lemma_mod_trans,
    lemma_pow2_constants, lemma_pow2_divides,
};
use crate::{ELFMALLOC_PAGE_SIZE, ELFMALLOC_SMALL_CUTOFF, HEAP_BASE, OS_PAGE_SIZE};

/// The sidecar record of one direct mapping: its tag, the base address of the
/// mapping, and the total mapped size (the request plus the reserved header
/// unit).
#[derive(Clone, Copy, PartialEq, Eq, Structural, Debug)]
pub struct AllocInfo {
    pub ty: AllocType,
    pub base: usize,
    pub region_size: usize,
}

/// The address of the header slot that describes `item`: the 2 MiB boundary
/// at or below `item - 1`.  The `- 1` makes a pointer that is itself 2 MiB-
/// aligned resolve to the region it lies inside, not to the next one.
pub fn get_commitment_mut(item: usize) -> (ha: usize)
    requires
        1 <= item,
    ensures
        ha == align_down_spec(item - 1, ELFMALLOC_PAGE_SIZE as int),
        ha <= item - 1,
        item - 1 - ha < ELFMALLOC_PAGE_SIZE,
        ha % ELFMALLOC_PAGE_SIZE == 0,
{
    align_down(item - 1, ELFMALLOC_PAGE_SIZE)
}

/// Read the header of the direct mapping that produced `item`: its total
/// mapped size and its base address.
pub fn get_commitment(heap: &Heap, item: usize) -> (r: (usize, usize))
    requires
        heap@.wf(),
        heap@.live.contains_key(item),
        heap@.live[item].ty == AllocType::Large,
    ensures
        r.0 == heap@.live[item].size + ELFMALLOC_PAGE_SIZE,
        r.1 == item - ELFMALLOC_PAGE_SIZE,
{
    proof {
        assert(heap@.live_ok(item, heap@.live[item]));
    }
    let ha = get_commitment_mut(item);
    let info = *heap.headers.get(&ha).unwrap();
    (info.region_size, info.base)
}

/// The usable size of the direct mapping that produced `item`: the mapped
/// size minus the reserved header unit.
pub fn get_size(heap: &Heap, item: usize) -> (s: usize)
    requires
        heap@.wf(),
        heap@.live.contains_key(item),
        heap@.live[item].ty == AllocType::Large,
    ensures
        s == heap@.live[item].size,
{
    let (size, _base) = get_commitment(heap, item);
    size - ELFMALLOC_PAGE_SIZE
}

/// Serve a request of `size` bytes from the direct-mapping path: map a fresh
/// 64 KiB-aligned region one header unit larger than the request, stamp the
/// `Large` tag and write the sidecar header at the 2 MiB boundary below the
/// returned pointer, and return the address one 2 MiB unit above the base.
pub fn alloc_large(heap: &mut Heap, size: usize) -> (p: usize)
    requires
        old(heap)@.wf(),
        1 <= size,
        old(heap)@.next_region + size + 3 * ELFMALLOC_PAGE_SIZE <= usize::MAX,
    ensures
        final(heap)@.wf(),
        !old(heap)@.live.contains_key(p),
        final(heap)@.live == old(heap)@.live.insert(
            p,
            (LiveObject { size, align: OS_PAGE_SIZE, ty: AllocType::Large }),
        ),
        final(heap)@.bytes == old(heap)@.bytes,
        final(heap)@.slabs == old(heap)@.slabs,
        forall|k: usize|
            #[trigger] old(heap)@.tags.contains_key(k) ==> final(heap)@.tags.contains_key(k)
                && final(heap)@.tags[k] == old(heap)@.tags[k],
        forall|k: usize|
            #[trigger] old(heap)@.headers.contains_key(k) ==> final(heap)@.headers.contains_key(k)
                && final(heap)@.headers[k] == old(heap)@.headers[k],
        old(heap)@.next_region <= final(heap)@.next_region,
        final(heap)@.next_region <= old(heap)@.next_region + size + 2 * ELFMALLOC_PAGE_SIZE,
        final(heap)@.live_ok(p, (LiveObject { size, align: OS_PAGE_SIZE, ty: AllocType::Large })),
        p % OS_PAGE_SIZE == 0,
    {
    proof {
        lemma_pow2_constants();
    }
    let region_size = size + ELFMALLOC_PAGE_SIZE;
    let base = align_up(heap.next_region, ELFMALLOC_SMALL_CUTOFF);
    let rem = region_size % ELFMALLOC_SMALL_CUTOFF;
    let n_pages = region_size / ELFMALLOC_SMALL_CUTOFF + (if rem > 0 {
        1
    } else {
        0
    });
    proof {
        lemma_fundamental_div_mod(region_size as int, ELFMALLOC_SMALL_CUTOFF as int);
        lemma_mod_division_less_than_divisor(region_size as int, ELFMALLOC_SMALL_CUTOFF as int);
        assert(region_size <= n_pages * ELFMALLOC_SMALL_CUTOFF <= region_size
            + ELFMALLOC_SMALL_CUTOFF);
    }
    let mapped = n_pages * ELFMALLOC_SMALL_CUTOFF;
    let res = base + ELFMALLOC_PAGE_SIZE;
    let ha = get_commitment_mut(res);
    proof {
        assert(base <= ha < res) by {
            lemma_align_down((res - 1) as int, ELFMALLOC_PAGE_SIZE as int);
        }
    }
    heap.tags.insert(ha, AllocType::Large);
    heap.headers.insert(ha, AllocInfo { ty: AllocType::Large, base, region_size });
    heap.next_region = base + mapped;
    let ghost m0 = old(heap)@;
    let ghost obj = LiveObject { size, align: OS_PAGE_SIZE, ty: AllocType::Large };
    proof {
        lemma_pow2_divides(ELFMALLOC_SMALL_CUTOFF as int, ELFMALLOC_PAGE_SIZE as int);
        lemma_add_mod_noop(base as int, ELFMALLOC_PAGE_SIZE as int, ELFMALLOC_SMALL_CUTOFF as int);
        vstd::arithmetic::div_mod::lemma_mod_self_0(ELFMALLOC_SMALL_CUTOFF as int);
        lemma_mod_trans(res as int, ELFMALLOC_SMALL_CUTOFF as int, OS_PAGE_SIZE as int);
        lemma_pow2_divides(OS_PAGE_SIZE as int, ELFMALLOC_SMALL_CUTOFF as int);
        assert(!m0.live.contains_key(res)) by {
            if m0.live.contains_key(res) {
                let o = m0.live[res];
                assert(m0.live_ok(res, o));
                assert(res + o.size <= m0.next_region);
                assert(o.size >= 1);
            }
        }
        heap.live@ = m0.live.insert(res, obj);
        assert(!m0.tags.contains_key(ha)) by {
            if m0.tags.contains_key(ha) {
            }
        }
        assert(!m0.headers.contains_key(ha)) by {
            if m0.headers.contains_key(ha) {
            }
        }
        assert forall|k: usize| #[trigger] m0.tags.contains_key(k) implies heap@.tags.contains_key(
            k,
        ) && heap@.tags[k] == m0.tags[k] by {}
        assert forall|k: usize| #[trigger] m0.headers.contains_key(k) implies
            heap@.headers.contains_key(k) && heap@.headers[k] == m0.headers[k] by {}
        assert(heap@.live_ok(res, obj));
        assert(heap@.wf()) by {
            assert forall|k: usize| #[trigger] heap@.tags.contains_key(k) implies HEAP_BASE <= k
                < heap@.next_region && k % ELFMALLOC_PAGE_SIZE == 0 by {
                if k != ha {
                    assert(m0.tags.contains_key(k));
                }
            }
            assert forall|k: usize| #[trigger] heap@.slabs.contains_key(k) implies HEAP_BASE <= k
                < heap@.next_region && k % crate::ELFMALLOC_SMALL_PAGE_SIZE == 0 by {
                assert(m0.slabs.contains_key(k));
            }
            assert forall|k: usize| #[trigger] heap@.headers.contains_key(k) implies HEAP_BASE <= k
                < heap@.next_region && k % ELFMALLOC_PAGE_SIZE == 0 by {
                if k != ha {
                    assert(m0.headers.contains_key(k));
                }
            }
            assert forall|k: usize| #[trigger] heap@.slabs.contains_key(k) implies !(
                heap@.group_base + heap@.group_used * crate::ELFMALLOC_SMALL_PAGE_SIZE <= k
                < heap@.group_base + ELFMALLOC_PAGE_SIZE) by {
                assert(m0.slabs.contains_key(k));
            }
            assert forall|q: usize| #[trigger] heap@.live.contains_key(q) implies heap@.live_ok(
                q,
                heap@.live[q],
            ) by {
                if q != res {
                    assert(m0.live.contains_key(q) && m0.live_ok(q, m0.live[q]));
                    crate::heap::lemma_object_ok_preserved(
                        m0,
                        heap@,
                        q,
                        m0.live[q].size,
                        m0.live[q].align,
                        m0.live[q].ty,
                    );
                }
            }
        }
    }
    res
}

/// Release the direct mapping that produced `item`: read its header, then
/// unmap the whole region, header unit included.
pub fn free(heap: &mut Heap, item: usize)
    requires
        old(heap)@.wf(),
        old(heap)@.live.contains_key(item),
        old(heap)@.live[item].ty == AllocType::Large,
    ensures
        final(heap)@.wf(),
        final(heap)@.live == old(heap)@.live.remove(item),
        final(heap)@.bytes == old(heap)@.bytes,
        final(heap)@.slabs == old(heap)@.slabs,
        forall|k: usize|
            #[trigger] old(heap)@.tags.contains_key(k) && old(heap)@.tags[k] != AllocType::Large
                ==> final(heap)@.tags.contains_key(k) && final(heap)@.tags[k] == old(heap)@.tags[k],
        final(heap)@.next_region == old(heap)@.next_region,
        final(heap)@.group_base == old(heap)@.group_base,
        final(heap)@.group_used == old(heap)@.group_used,
{
    proof {
        assert(old(heap)@.live_ok(item, old(heap)@.live[item]));
    }
    let (size, base_ptr) = get_commitment(heap, item);
    if size == 0 && base_ptr == 0 {
        // An all-zero header would mean an already-released mapping; treated
        // as a no-op.  A live pointer always carries a non-zero mapped size,
        // so this path never runs under this function's contract.
        return ;
    }
    let ha = get_commitment_mut(item);
    heap.headers.remove(&ha);
    heap.tags.remove(&ha);
    let ghost m0 = old(heap)@;
    let ghost o = m0.live[item];
    proof {
        heap.live@ = m0.live.remove(item);
        let ghost_ha = align_down_spec(item - 1, ELFMALLOC_PAGE_SIZE as int) as usize;
        assert(m0.tags[ghost_ha] == AllocType::Large);
        assert forall|k: usize|
            #[trigger] m0.tags.contains_key(k) && m0.tags[k] != AllocType::Large implies
            heap@.tags.contains_key(k) && heap@.tags[k] == m0.tags[k] by {}
        assert(heap@.wf()) by {
            if m0.group_base != 0 {
                assert(m0.tags[m0.group_base] == AllocType::SmallSlag);
            }
            assert forall|k: usize| #[trigger] heap@.tags.contains_key(k) implies HEAP_BASE <= k
                < heap@.next_region && k % ELFMALLOC_PAGE_SIZE == 0 by {
                assert(m0.tags.contains_key(k));
            }
            assert forall|k: usize| #[trigger] heap@.slabs.contains_key(k) implies HEAP_BASE <= k
                < heap@.next_region && k % crate::ELFMALLOC_SMALL_PAGE_SIZE == 0 by {
                assert(m0.slabs.contains_key(k));
            }
            assert forall|k: usize| #[trigger] heap@.headers.contains_key(k) implies HEAP_BASE <= k
                < heap@.next_region && k % ELFMALLOC_PAGE_SIZE == 0 by {
                assert(m0.headers.contains_key(k));
            }
            assert forall|k: usize| #[trigger] heap@.slabs.contains_key(k) implies !(
                heap@.group_base + heap@.group_used * crate::ELFMALLOC_SMALL_PAGE_SIZE <= k
                < heap@.group_base + ELFMALLOC_PAGE_SIZE) by {
                assert(m0.slabs.contains_key(k));
            }
            assert forall|q: usize| #[trigger] heap@.live.contains_key(q) implies heap@.live_ok(
                q,
                heap@.live[q],
            ) by {
                let oq = m0.live[q];
                assert(m0.live_ok(q, oq));
                match oq.ty {
                    AllocType::SmallSlag => {
                        assert(m0.tags[align_down_spec(
                            (q - oq.size) as int,
                            ELFMALLOC_PAGE_SIZE as int,
                        ) as usize] == AllocType::SmallSlag);
                    },
                    AllocType::BigSlag => {
                        assert(m0.tags[(q - oq.size) as usize] == AllocType::BigSlag);
                    },
                    AllocType::Large => {
                        let hq = align_down_spec(q - 1, ELFMALLOC_PAGE_SIZE as int) as usize;
                        if hq == ha {
                            // Two live direct mappings sharing a header slot
                            // would share a base, hence be the same pointer.
                            assert(m0.headers[hq].base == q - ELFMALLOC_PAGE_SIZE);
                            assert(m0.headers[ha].base == item - ELFMALLOC_PAGE_SIZE);
                            assert(q == item);
                        }
                    },
                }
            }
        }
    }
}

} // verus!
