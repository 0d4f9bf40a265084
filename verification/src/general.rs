//! The allocator proper: a family of handles over one shared backing, each
//! handle with its own size-class table, all dispatching small and medium
//! requests through the tiered classes and everything above the largest
//! class through the direct-mapping path.  Any handle of the family may free
//! a pointer produced by any other.

use vstd::prelude::*;

verus! {

use crate::alloc_type::AllocType;
use crate::heap::{Heap, HeapModel, LiveObject};
use crate::large_alloc;
use crate::num::{
    align_down, align_down_spec, lemma_align_down_exact, lemma_next_pow2_props,
    next_power_of_two, spec_next_pow2,
};
use crate::size_classes::{
    class_align, class_ty, lemma_tiered_wf_after_alloc, lemma_tiered_wf_preserved, spec_n_small,
    valid_class_plan, TieredSizeClasses,
};
use crate::{
    ELFMALLOC_PAGE_SIZE, ELFMALLOC_SMALL_CUTOFF, ELFMALLOC_SMALL_PAGE_SIZE, MULTIPLE,
    OS_PAGE_SIZE, WORD_SIZE,
};

/// Which path produced `item`, recovered from the address alone: the tag
/// byte at the 2 MiB boundary at or below `item - 1`.
pub fn get_type(heap: &Heap, item: usize) -> (t: AllocType)
    requires
        heap@.wf(),
        heap@.live.contains_key(item),
    ensures
        t == heap@.live[item].ty,
{
    proof {
        let o = heap@.live[item];
        assert(heap@.live_ok(item, o));
        match o.ty {
            AllocType::SmallSlag => {
                // item - 1 lies in the same 2 MiB group region as its page.
                let pb = (item - o.size) as int;
                let gb = align_down_spec(pb, ELFMALLOC_PAGE_SIZE as int);
                crate::num::lemma_align_down(pb, ELFMALLOC_PAGE_SIZE as int);
                assert((pb - gb) % (ELFMALLOC_SMALL_PAGE_SIZE as int) == 0) by {
                    crate::num::lemma_pow2_constants();
                    crate::num::lemma_pow2_divides(
                        ELFMALLOC_SMALL_PAGE_SIZE as int,
                        ELFMALLOC_PAGE_SIZE as int,
                    );
                    crate::num::lemma_mod_trans(
                        gb,
                        ELFMALLOC_PAGE_SIZE as int,
                        ELFMALLOC_SMALL_PAGE_SIZE as int,
                    );
                    vstd::arithmetic::div_mod::lemma_sub_mod_noop(
                        pb,
                        gb,
                        ELFMALLOC_SMALL_PAGE_SIZE as int,
                    );
                    vstd::arithmetic::div_mod::lemma_small_mod(
                        0nat,
                        ELFMALLOC_SMALL_PAGE_SIZE as nat,
                    );
                }
                assert(pb - gb <= ELFMALLOC_PAGE_SIZE - ELFMALLOC_SMALL_PAGE_SIZE) by {
                    vstd::arithmetic::div_mod::lemma_fundamental_div_mod(
                        pb - gb,
                        ELFMALLOC_SMALL_PAGE_SIZE as int,
                    );
                }
                lemma_align_down_exact(gb, item - 1 - gb, ELFMALLOC_PAGE_SIZE as int);
            },
            AllocType::BigSlag => {
                lemma_align_down_exact(
                    (item - o.size) as int,
                    o.size - 1,
                    ELFMALLOC_PAGE_SIZE as int,
                );
            },
            AllocType::Large => {},
        }
    }
    let rb = align_down(item - 1, ELFMALLOC_PAGE_SIZE);
    heap.read_tag(rb)
}

/// The layout the allocator actually gave `item`: the object size of its
/// slab's class and that class's alignment, or the usable size of its direct
/// mapping and the operating system's page alignment.
pub fn elfmalloc_get_layout(heap: &Heap, item: usize) -> (r: (usize, usize))
    requires
        heap@.wf(),
        heap@.live.contains_key(item),
    ensures
        r.0 == heap@.live[item].size,
        r.1 == heap@.live[item].align,
{
    proof {
        assert(heap@.live_ok(item, heap@.live[item]));
    }
    match get_type(heap, item) {
        AllocType::SmallSlag => {
            proof {
                lemma_align_down_exact(
                    (item - heap@.live[item].size) as int,
                    heap@.live[item].size as int,
                    ELFMALLOC_SMALL_PAGE_SIZE as int,
                );
            }
            let pb = align_down(item, ELFMALLOC_SMALL_PAGE_SIZE);
            let s = heap.slab_size(pb);
            let a = if crate::num::is_power_of_two(s) {
                s
            } else {
                WORD_SIZE
            };
            (s, a)
        },
        AllocType::BigSlag => {
            proof {
                lemma_align_down_exact(
                    (item - heap@.live[item].size) as int,
                    heap@.live[item].size as int,
                    ELFMALLOC_PAGE_SIZE as int,
                );
            }
            let pb = align_down(item, ELFMALLOC_PAGE_SIZE);
            let s = heap.slab_size(pb);
            let a = if crate::num::is_power_of_two(s) {
                s
            } else {
                WORD_SIZE
            };
            (s, a)
        },
        AllocType::Large => (large_alloc::get_size(heap, item), OS_PAGE_SIZE),
    }
}

/// The allocator: the modelled backing shared by the whole family, and one
/// size-class table per handle.  Handle 0 is the allocator's own front-end;
/// further handles are clones over the same backing.
pub struct ElfMalloc {
    pub heap: Heap,
    pub handles: Vec<Option<TieredSizeClasses>>,
    pub max_size: usize,
    pub start_from: usize,
    pub n_classes: usize,
}

impl ElfMalloc {
    /// The table of the allocator's own handle.
    pub open spec fn table(self) -> TieredSizeClasses {
        self.handles@[0].unwrap()
    }

    /// The live allocations of the whole family.
    pub open spec fn live_map(self) -> Map<usize, LiveObject> {
        self.heap@.live
    }

    /// `h` names a handle that has not been retired.
    pub open spec fn valid_handle(self, h: int) -> bool {
        0 <= h < self.handles.len() && self.handles@[h] is Some
    }

    /// Well-formedness: the backing is consistent, every live handle's table
    /// is consistent with it and shares the geometry of handle 0, and every
    /// live slab object's size is an exact class size.
    pub open spec fn wf(self) -> bool {
        &&& self.heap@.wf()
        &&& 1 <= self.handles.len()
        &&& self.handles@[0] is Some
        &&& forall|h: int|
            0 <= h < self.handles.len() && (#[trigger] self.handles@[h]) is Some
                ==> self.handles@[h].unwrap().wf(self.heap@)
                && self.handles@[h].unwrap().geometry() == self.table().geometry()
        &&& self.max_size == self.table().spec_max_key()
        &&& forall|q: usize|
            #[trigger] self.heap@.live.contains_key(q) && self.heap@.live[q].ty
                != AllocType::Large ==> self.table().is_class_size(self.heap@.live[q].size as int)
    }

    /// What an allocation of `n` bytes returns: an object of the class that
    /// covers `n`, or a direct mapping of exactly `n` usable bytes.
    pub open spec fn alloc_record(self, n: int) -> LiveObject {
        if n <= self.max_size {
            let cs = self.table().class_size_for(n);
            LiveObject {
                size: cs as usize,
                align: class_align(cs) as usize,
                ty: class_ty(cs),
            }
        } else {
            LiveObject { size: n as usize, align: OS_PAGE_SIZE, ty: AllocType::Large }
        }
    }

    /// The modelled address space still has room for a request of `n` bytes.
    pub open spec fn space_for(self, n: int) -> bool {
        self.heap@.next_region + n + 3 * ELFMALLOC_PAGE_SIZE <= usize::MAX
    }

    /// Build an allocator over a fresh backing for the given class plan.
    pub fn new_internal(start_from: usize, n_classes: usize) -> (r: ElfMalloc)
        requires
            valid_class_plan(start_from as int, n_classes as int),
        ensures
            r.wf(),
            r.live_map() == Map::<usize, LiveObject>::empty(),
            r.heap@.bytes == Map::<usize, u8>::empty(),
            r.heap@.next_region == crate::HEAP_BASE,
            r.start_from == start_from,
            r.n_classes == n_classes,
            r.handles.len() == 1,
            r.valid_handle(0),
            r.table().small_objs.starting_size == MULTIPLE,
            r.table().small_objs.classes.len() == spec_n_small(start_from as int, n_classes as int),
            r.table().small_objs.max_size == MULTIPLE * spec_n_small(
                start_from as int,
                n_classes as int,
            ),
            r.table().medium_objs.classes.len() == n_classes - spec_n_small(
                start_from as int,
                n_classes as int,
            ),
            r.table().medium_objs.starting_size == spec_next_pow2(
                MULTIPLE * spec_n_small(start_from as int, n_classes as int) + 1,
            ),
            r.max_size == spec_next_pow2(
                MULTIPLE * spec_n_small(start_from as int, n_classes as int) + 1,
            ) * vstd::arithmetic::power2::pow2(
                (n_classes - spec_n_small(start_from as int, n_classes as int) - 1) as nat,
            ),
    {
        let heap = Heap::new();
        let am = TieredSizeClasses::init_conserve(start_from, n_classes);
        let max_size = am.max_key();
        let mut handles: Vec<Option<TieredSizeClasses>> = Vec::new();
        handles.push(Some(am));
        let r = ElfMalloc { heap, handles, max_size, start_from, n_classes };
        proof {
            assert(r.table().wf(r.heap@));
        }
        r
    }

    /// The default allocator: a small page source of 256 KiB pages carved
    /// from 2 MiB-aligned groups, a large page source of 2 MiB pages, and a
    /// class plan starting at 8 bytes with 25 classes in all.
    pub fn new() -> (r: ElfMalloc)
        ensures
            r.wf(),
            r.live_map() == Map::<usize, LiveObject>::empty(),
            r.heap@.bytes == Map::<usize, u8>::empty(),
            r.heap@.next_region == crate::HEAP_BASE,
            r.handles.len() == 1,
            r.valid_handle(0),
            r.start_from == 8,
            r.n_classes == 25,
            r.table().small_objs.starting_size == 16,
            r.table().small_objs.classes.len() == 12,
            r.table().small_objs.max_size == 192,
            r.table().medium_objs.starting_size == 256,
            r.table().medium_objs.classes.len() == 13,
            r.max_size == 1048576,
    {
        proof {
            lemma_default_plan_valid();
        }
        let r = ElfMalloc::new_internal(8, 25);
        proof {
            assert(spec_n_small(8, 25) == 12);
            assert(spec_next_pow2(193int) == 256) by {
                crate::num::lemma_pow2_constants();
                lemma_next_pow2_props(193);
                crate::num::lemma_next_pow2_min(193, 256);
                crate::num::lemma_pow2_divides(spec_next_pow2(193), 256);
            }
            assert(vstd::arithmetic::power2::pow2(12nat) == 4096) by {
                vstd::arithmetic::power2::lemma2_to64();
            }
        }
        r
    }

    /// Serve a request of `size` bytes through handle `h`: the covering
    /// class below the largest class size, the direct-mapping path above it.
    #[verifier::rlimit(100)]
    pub fn alloc_on(&mut self, h: usize, size: usize) -> (p: usize)
        requires
            old(self).wf(),
            old(self).valid_handle(h as int),
            1 <= size,
            old(self).space_for(size as int),
        ensures
            final(self).wf(),
            final(self).live_map() == old(self).live_map().insert(
                p,
                old(self).alloc_record(size as int),
            ),
            !old(self).live_map().contains_key(p),
            p != 0,
            final(self).heap@.bytes == old(self).heap@.bytes,
            final(self).handles@.len() == old(self).handles@.len(),
            forall|g: int|
                0 <= g < old(self).handles@.len() ==> ((#[trigger] final(self).handles@[g])
                    is Some) == (old(self).handles@[g] is Some),
            final(self).max_size == old(self).max_size,
            final(self).table().geometry() == old(self).table().geometry(),
            final(self).heap@.next_region >= old(self).heap@.next_region,
            final(self).heap@.next_region <= old(self).heap@.next_region + size + 3
                * ELFMALLOC_PAGE_SIZE,
            final(self).heap@.live_ok(p, old(self).alloc_record(size as int)),
            old(self).alloc_record(size as int).size >= size,
            p % old(self).alloc_record(size as int).align == 0,
    {
        let ghost m0 = self.heap@;
        let ghost rec = old(self).alloc_record(size as int);
        let p: usize;
        if size <= self.max_size {
            let ts = self.handles[h].as_mut().unwrap();
            p = ts.alloc_in_class(&mut self.heap, size);
            proof {
                let m1 = self.heap@;
                assert(self.handles@[h as int].unwrap().wf(m1));
                assert forall|g: int|
                    0 <= g < self.handles@.len() && (#[trigger] self.handles@[g]) is Some implies
                    self.handles@[g].unwrap().wf(m1) && self.handles@[g].unwrap().geometry()
                    == self.table().geometry() by {
                    if g != h {
                        lemma_tiered_wf_after_alloc(
                            self.handles@[g].unwrap(),
                            m0,
                            m1,
                            p,
                            rec.size,
                            rec.align,
                            rec.ty,
                        );
                    }
                }
                assert forall|q: usize|
                    #[trigger] m1.live.contains_key(q) && m1.live[q].ty != AllocType::Large implies
                    self.table().is_class_size(m1.live[q].size as int) by {
                    if q != p {
                        assert(m0.live.contains_key(q));
                    }
                }
                assert(rec.size >= size);
            }
        } else {
            p = large_alloc::alloc_large(&mut self.heap, size);
            proof {
                let m1 = self.heap@;
                assert forall|g: int|
                    0 <= g < self.handles@.len() && (#[trigger] self.handles@[g]) is Some implies
                    self.handles@[g].unwrap().wf(m1) && self.handles@[g].unwrap().geometry()
                    == self.table().geometry() by {
                    lemma_tiered_wf_after_alloc(
                        self.handles@[g].unwrap(),
                        m0,
                        m1,
                        p,
                        rec.size,
                        rec.align,
                        rec.ty,
                    );
                }
                assert forall|q: usize|
                    #[trigger] m1.live.contains_key(q) && m1.live[q].ty != AllocType::Large implies
                    self.table().is_class_size(m1.live[q].size as int) by {
                    if q != p {
                        assert(m0.live.contains_key(q));
                    }
                }
            }
        }
        proof {
            assert(self.heap@.live_ok(p, rec));
        }
        p
    }

    /// The page size backing `item`, or `None` for a direct mapping.  A
    /// pointer off every 64 KiB boundary must be a small-slab object — small
    /// objects are never aligned to the cutoff, and everything larger always
    /// is — so most frees never read the tag byte.
    pub fn get_page_size(&self, item: usize) -> (r: Option<usize>)
        requires
            self.heap@.wf(),
            self.heap@.live.contains_key(item),
        ensures
            r == (match self.heap@.live[item].ty {
                AllocType::SmallSlag => Some(ELFMALLOC_SMALL_PAGE_SIZE),
                AllocType::BigSlag => Some(ELFMALLOC_PAGE_SIZE),
                AllocType::Large => None::<usize>,
            }),
    {
        proof {
            assert(self.heap@.live_ok(item, self.heap@.live[item]));
        }
        if item % ELFMALLOC_SMALL_CUTOFF != 0 {
            return Some(ELFMALLOC_SMALL_PAGE_SIZE);
        }
        match get_type(&self.heap, item) {
            AllocType::SmallSlag => Some(ELFMALLOC_SMALL_PAGE_SIZE),
            AllocType::BigSlag => Some(ELFMALLOC_PAGE_SIZE),
            AllocType::Large => None,
        }
    }

    /// Release `item` through handle `h`, whatever handle produced it: a
    /// null pointer is a no-op; otherwise the pointer's page size is
    /// recovered from its low-order bits or its tag byte, its class from the
    /// slab header, and the object goes back to the class cache — or the
    /// direct mapping is unmapped.
    #[verifier::rlimit(100)]
    pub fn free_on(&mut self, h: usize, item: usize)
        requires
            old(self).wf(),
            old(self).valid_handle(h as int),
            item == 0 || old(self).live_map().contains_key(item),
        ensures
            final(self).wf(),
            final(self).live_map() == (if item == 0 {
                old(self).live_map()
            } else {
                old(self).live_map().remove(item)
            }),
            final(self).heap@.bytes == old(self).heap@.bytes,
            final(self).handles@.len() == old(self).handles@.len(),
            forall|g: int|
                0 <= g < old(self).handles@.len() ==> ((#[trigger] final(self).handles@[g])
                    is Some) == (old(self).handles@[g] is Some),
            final(self).max_size == old(self).max_size,
            final(self).table().geometry() == old(self).table().geometry(),
            final(self).heap@.next_region == old(self).heap@.next_region,
    {
        if item == 0 {
            return ;
        }
        let ghost m0 = self.heap@;
        proof {
            assert(m0.live_ok(item, m0.live[item]));
        }
        let page_size: usize;
        match self.get_page_size(item) {
            Some(ps) => {
                page_size = ps;
            },
            None => {
                large_alloc::free(&mut self.heap, item);
                proof {
                    let m1 = self.heap@;
                    assert forall|g: int|
                        0 <= g < self.handles@.len() && (#[trigger] self.handles@[g]) is Some
                        implies self.handles@[g].unwrap().wf(m1)
                        && self.handles@[g].unwrap().geometry() == self.table().geometry() by {
                        lemma_tiered_wf_preserved(self.handles@[g].unwrap(), m0, m1);
                    }
                    assert forall|q: usize|
                        #[trigger] m1.live.contains_key(q) && m1.live[q].ty
                            != AllocType::Large implies self.table().is_class_size(
                        m1.live[q].size as int,
                    ) by {
                        assert(m0.live.contains_key(q));
                    }
                }
                return ;
            },
        }
        proof {
            lemma_align_down_exact(
                (item - m0.live[item].size) as int,
                m0.live[item].size as int,
                page_size as int,
            );
        }
        let pb = align_down(item, page_size);
        let object_size = self.heap.slab_size(pb);
        let ts = self.handles[h].as_mut().unwrap();
        ts.free_into_class(&mut self.heap, object_size, item);
        proof {
            let m1 = self.heap@;
            assert(self.handles@[h as int].unwrap().wf(m1));
            assert forall|g: int|
                0 <= g < self.handles@.len() && (#[trigger] self.handles@[g]) is Some implies
                self.handles@[g].unwrap().wf(m1) && self.handles@[g].unwrap().geometry()
                == self.table().geometry() by {
                if g != h {
                    lemma_tiered_wf_preserved(self.handles@[g].unwrap(), m0, m1);
                }
            }
            assert forall|q: usize|
                #[trigger] m1.live.contains_key(q) && m1.live[q].ty != AllocType::Large implies
                self.table().is_class_size(m1.live[q].size as int) by {
                assert(m0.live.contains_key(q));
            }
        }
    }

    /// Serve a request through the allocator's own handle.
    pub fn allocate(&mut self, size: usize) -> (p: usize)
        requires
            old(self).wf(),
            1 <= size,
            old(self).space_for(size as int),
        ensures
            final(self).wf(),
            final(self).live_map() == old(self).live_map().insert(
                p,
                old(self).alloc_record(size as int),
            ),
            !old(self).live_map().contains_key(p),
            p != 0,
            final(self).heap@.bytes == old(self).heap@.bytes,
            final(self).handles@.len() == old(self).handles@.len(),
            forall|g: int|
                0 <= g < old(self).handles@.len() ==> ((#[trigger] final(self).handles@[g])
                    is Some) == (old(self).handles@[g] is Some),
            final(self).max_size == old(self).max_size,
            final(self).table().geometry() == old(self).table().geometry(),
            final(self).heap@.next_region >= old(self).heap@.next_region,
            final(self).heap@.next_region <= old(self).heap@.next_region + size + 3
                * ELFMALLOC_PAGE_SIZE,
            final(self).heap@.live_ok(p, old(self).alloc_record(size as int)),
            old(self).alloc_record(size as int).size >= size,
            p % old(self).alloc_record(size as int).align == 0,
    {
        self.alloc_on(0, size)
    }

    /// Release a pointer through the allocator's own handle.
    pub fn free(&mut self, item: usize)
        requires
            old(self).wf(),
            item == 0 || old(self).live_map().contains_key(item),
        ensures
            final(self).wf(),
            final(self).live_map() == (if item == 0 {
                old(self).live_map()
            } else {
                old(self).live_map().remove(item)
            }),
            final(self).heap@.bytes == old(self).heap@.bytes,
            final(self).handles@.len() == old(self).handles@.len(),
            forall|g: int|
                0 <= g < old(self).handles@.len() ==> ((#[trigger] final(self).handles@[g])
                    is Some) == (old(self).handles@[g] is Some),
            final(self).max_size == old(self).max_size,
            final(self).table().geometry() == old(self).table().geometry(),
            final(self).heap@.next_region == old(self).heap@.next_region,
    {
        self.free_on(0, item)
    }
    /// The size actually requested when reallocating to `new_size` bytes at
    /// `new_alignment`: when more than word alignment is asked for, the size
    /// is rounded up to a power of two no smaller than the alignment, so
    /// that the destination class carries the requested alignment.
    pub open spec fn realloc_alloc_size(self, new_size: int, new_alignment: int) -> int {
        if new_alignment <= WORD_SIZE {
            new_size
        } else if spec_next_pow2(new_size) >= spec_next_pow2(new_alignment) {
            spec_next_pow2(new_size)
        } else {
            spec_next_pow2(new_alignment)
        }
    }

    /// Reallocate `item` to `new_size` bytes at `new_alignment` through
    /// handle `h`: a null pointer allocates (the request rounded so the
    /// destination carries the requested alignment), size zero frees, a
    /// layout that already fits is returned unchanged, and otherwise a
    /// fresh allocation receives the overlapping prefix of the payload and
    /// `item` is freed.
    #[verifier::rlimit(100)]
    pub fn realloc_on(&mut self, h: usize, item: usize, new_size: usize, new_alignment: usize) -> (r:
        usize)
        requires
            old(self).wf(),
            old(self).valid_handle(h as int),
            item == 0 || old(self).live_map().contains_key(item),
            !(item == 0 && new_size == 0),
            (item == 0 || (new_size != 0 && !(old(self).live_map()[item].align >= new_alignment
                && old(self).live_map()[item].size >= new_size))) ==> (if new_alignment
                <= WORD_SIZE {
                old(self).space_for(2 * new_size + 1)
            } else {
                old(self).space_for(2 * new_size + 2 * new_alignment + 1)
            }),
        ensures
            final(self).wf(),
            old(self).heap@.next_region <= final(self).heap@.next_region,
            final(self).heap@.next_region <= old(self).heap@.next_region + 2 * new_size + 2
                * new_alignment + 4 * ELFMALLOC_PAGE_SIZE,
            final(self).handles@.len() == old(self).handles@.len(),
            forall|g: int|
                0 <= g < old(self).handles@.len() ==> ((#[trigger] final(self).handles@[g])
                    is Some) == (old(self).handles@[g] is Some),
            final(self).max_size == old(self).max_size,
            final(self).table().geometry() == old(self).table().geometry(),
            item == 0 ==> {
                let asize = old(self).realloc_alloc_size(new_size as int, new_alignment as int);
                let rec = old(self).alloc_record(asize);
                &&& r != 0
                &&& !old(self).live_map().contains_key(r)
                &&& final(self).live_map() == old(self).live_map().insert(r, rec)
                &&& final(self).heap@.bytes == old(self).heap@.bytes
                &&& rec.size >= new_size
                &&& (new_alignment <= OS_PAGE_SIZE ==> rec.align >= new_alignment)
            },
            (item != 0 && new_size == 0) ==> {
                &&& r == 0
                &&& final(self).live_map() == old(self).live_map().remove(item)
                &&& final(self).heap@.bytes == old(self).heap@.bytes
                &&& final(self).heap@.next_region == old(self).heap@.next_region
            },
            (item != 0 && new_size != 0 && old(self).live_map()[item].align >= new_alignment && old(
                self,
            ).live_map()[item].size >= new_size) ==> {
                &&& r == item
                &&& final(self).live_map() == old(self).live_map()
                &&& final(self).heap@.bytes == old(self).heap@.bytes
                &&& final(self).heap@.next_region == old(self).heap@.next_region
            },
            (item != 0 && new_size != 0 && !(old(self).live_map()[item].align >= new_alignment
                && old(self).live_map()[item].size >= new_size)) ==> {
                let asize = old(self).realloc_alloc_size(new_size as int, new_alignment as int);
                let rec = old(self).alloc_record(asize);
                let m = (if old(self).live_map()[item].size <= asize {
                    old(self).live_map()[item].size as int
                } else {
                    asize
                });
                &&& r != 0
                &&& r != item
                &&& !old(self).live_map().contains_key(r)
                &&& final(self).live_map() == old(self).live_map().remove(item).insert(r, rec)
                &&& rec.size >= new_size
                &&& (new_alignment <= OS_PAGE_SIZE ==> rec.align >= new_alignment)
                &&& forall|i: int|
                    0 <= i < m ==> #[trigger] final(self).heap@.read((r + i) as usize) == old(
                        self,
                    ).heap@.read((item + i) as usize)
                &&& forall|k: usize|
                    !(r <= k < r + m) ==> #[trigger] final(self).heap@.read(k) == old(
                        self,
                    ).heap@.read(k)
            },
    {
        if item == 0 {
            let alloc_size = if new_alignment <= WORD_SIZE {
                new_size
            } else {
                let t = next_power_of_two(new_size);
                let u = next_power_of_two(new_alignment);
                if t >= u {
                    t
                } else {
                    u
                }
            };
            proof {
                lemma_next_pow2_props(new_size as int);
                lemma_next_pow2_props(new_alignment as int);
                lemma_realloc_record_facts(*old(self), new_size as int, new_alignment as int);
            }
            return self.alloc_on(h, alloc_size);
        }
        if new_size == 0 {
            self.free_on(h, item);
            return 0;
        }
        let (old_size, old_alignment) = elfmalloc_get_layout(&self.heap, item);
        if old_alignment >= new_alignment && old_size >= new_size {
            return item;
        }
        let alloc_size = if new_alignment <= WORD_SIZE {
            new_size
        } else {
            let t = next_power_of_two(new_size);
            let u = next_power_of_two(new_alignment);
            if t >= u {
                t
            } else {
                u
            }
        };
        proof {
            lemma_next_pow2_props(new_size as int);
            lemma_next_pow2_props(new_alignment as int);
            lemma_realloc_record_facts(*old(self), new_size as int, new_alignment as int);
            assert(old(self).heap@.live_ok(item, old(self).heap@.live[item]));
        }
        let ghost m0 = self.heap@;
        let ghost rec = old(self).alloc_record(alloc_size as int);
        let new_mem = self.alloc_on(h, alloc_size);
        let ghost m1 = self.heap@;
        let copy_len = if old_size <= alloc_size {
            old_size
        } else {
            alloc_size
        };
        proof {
            assert(m1.live_ok(new_mem, rec));
        }
        self.heap.copy_bytes(item, new_mem, copy_len);
        proof {
            let m2 = self.heap@;
            assert forall|g: int|
                0 <= g < self.handles@.len() && (#[trigger] self.handles@[g]) is Some implies
                self.handles@[g].unwrap().wf(m2) && self.handles@[g].unwrap().geometry()
                == self.table().geometry() by {
                lemma_tiered_wf_preserved(self.handles@[g].unwrap(), m1, m2);
            }
            assert forall|q: usize|
                #[trigger] m2.live.contains_key(q) && m2.live[q].ty != AllocType::Large implies
                self.table().is_class_size(m2.live[q].size as int) by {
                assert(m1.live.contains_key(q));
            }
        }
        let ghost m2 = self.heap@;
        self.free_on(h, item);
        proof {
            assert(self.live_map() =~= old(self).live_map().remove(item).insert(new_mem, rec));
            let mf = self.heap@;
            assert forall|i: int|
                0 <= i < copy_len implies #[trigger] mf.read((new_mem + i) as usize) == m0.read(
                (item + i) as usize,
            ) by {
                assert(m2.read((new_mem + i) as usize) == m1.read((item + i) as usize));
            }
            assert forall|k: usize|
                !(new_mem <= k < new_mem + copy_len) implies #[trigger] mf.read(k) == m0.read(
                k,
            ) by {
                assert(m2.read(k) == m1.read(k));
            }
        }
        new_mem
    }

    /// Create a new handle over the same backing: a fresh, empty set of
    /// size-class caches with the same geometry.  Allocations and frees
    /// through the new handle interleave freely with every other handle's.
    pub fn clone_handle(&mut self) -> (h: usize)
        requires
            old(self).wf(),
        ensures
            final(self).wf(),
            final(self).valid_handle(h as int),
            h != 0,
            h == old(self).handles@.len(),
            final(self).handles@.len() == old(self).handles@.len() + 1,
            forall|g: int|
                0 <= g < old(self).handles@.len() ==> final(self).handles@[g] == old(
                    self,
                ).handles@[g],
            final(self).heap == old(self).heap,
            final(self).max_size == old(self).max_size,
            final(self).table().geometry() == old(self).table().geometry(),
    {
        let ts = self.handles[0].as_ref().unwrap().clone_fresh();
        self.handles.push(Some(ts));
        self.handles.len() - 1
    }

    /// Retire a handle: its caches are dropped, and every pointer the family
    /// has handed out stays live and freeable through any other handle.
    pub fn retire_handle(&mut self, h: usize)
        requires
            old(self).wf(),
            old(self).valid_handle(h as int),
            h != 0,
        ensures
            final(self).wf(),
            final(self).handles@.len() == old(self).handles@.len(),
            final(self).handles@[h as int] is None,
            forall|g: int|
                0 <= g < old(self).handles@.len() && g != h ==> final(self).handles@[g] == old(
                    self,
                ).handles@[g],
            final(self).heap == old(self).heap,
            final(self).max_size == old(self).max_size,
            final(self).table().geometry() == old(self).table().geometry(),
    {
        let _ = self.handles.remove(h);
        self.handles.insert(h, None);
        proof {
            assert(self.handles@ =~= old(self).handles@.update(h as int, None));
        }
    }

    /// Write one byte at `offset` into the allocation at `item`.
    pub fn write_byte(&mut self, item: usize, offset: usize, v: u8)
        requires
            old(self).wf(),
            old(self).live_map().contains_key(item),
            offset < old(self).live_map()[item].size,
        ensures
            final(self).wf(),
            final(self).heap@ == (HeapModel {
                bytes: old(self).heap@.bytes.insert((item + offset) as usize, v),
                ..old(self).heap@
            }),
            final(self).handles == old(self).handles,
            final(self).max_size == old(self).max_size,
    {
        proof {
            assert(self.heap@.live_ok(item, self.heap@.live[item]));
        }
        let ghost m0 = self.heap@;
        self.heap.write_byte_at(item + offset, v);
        proof {
            let m1 = self.heap@;
            assert forall|g: int|
                0 <= g < self.handles@.len() && (#[trigger] self.handles@[g]) is Some implies
                self.handles@[g].unwrap().wf(m1) && self.handles@[g].unwrap().geometry()
                == self.table().geometry() by {
                lemma_tiered_wf_preserved(self.handles@[g].unwrap(), m0, m1);
            }
            assert forall|q: usize|
                #[trigger] m1.live.contains_key(q) && m1.live[q].ty != AllocType::Large implies
                self.table().is_class_size(m1.live[q].size as int) by {
                assert(m0.live.contains_key(q));
            }
        }
    }

    /// Read one byte at `offset` from the allocation at `item`.
    pub fn read_byte(&self, item: usize, offset: usize) -> (v: u8)
        requires
            self.wf(),
            self.live_map().contains_key(item),
            offset < self.live_map()[item].size,
        ensures
            v == self.heap@.read((item + offset) as usize),
    {
        proof {
            assert(self.heap@.live_ok(item, self.heap@.live[item]));
        }
        self.heap.read_byte_at(item + offset)
    }
}

/// The allocator with its defaults: the tiered small and large page sources
/// behind 25 size classes starting at 8 bytes, plus the direct-mapping path.
/// Any handle of the family may free any pointer of the family.
pub struct DynamicAllocator(pub ElfMalloc);

impl View for DynamicAllocator {
    type V = HeapModel;

    open spec fn view(&self) -> HeapModel {
        self.0.heap@
    }
}

impl DynamicAllocator {
    /// Well-formedness of the allocator and all its handles.
    pub open spec fn wf(self) -> bool {
        self.0.wf()
    }

    /// `h` names a handle that has not been retired.
    pub open spec fn valid_handle(self, h: int) -> bool {
        self.0.valid_handle(h)
    }

    /// What an allocation of `n` bytes returns.
    pub open spec fn alloc_record(self, n: int) -> LiveObject {
        self.0.alloc_record(n)
    }

    /// The modelled address space still has room for a request of `n` bytes.
    pub open spec fn space_for(self, n: int) -> bool {
        self.0.space_for(n)
    }

    /// A fresh allocator with the default class plan: classes start at 8
    /// bytes, the largest class is 1 MiB, and the modelled address space is
    /// untouched.
    pub fn new() -> (r: DynamicAllocator)
        ensures
            r.wf(),
            r@.live == Map::<usize, LiveObject>::empty(),
            r@.bytes == Map::<usize, u8>::empty(),
            r@.next_region == crate::HEAP_BASE,
            r.valid_handle(0),
            r.0.handles@.len() == 1,
            r.0.max_size == 1048576,
            r.0.table().small_objs.starting_size == 16,
            r.0.table().small_objs.classes.len() == 12,
            r.0.table().small_objs.max_size == 192,
            r.0.table().medium_objs.starting_size == 256,
            r.0.table().medium_objs.classes.len() == 13,
    {
        DynamicAllocator(ElfMalloc::new())
    }

    /// Allocate `size` bytes: the returned pointer is fresh, aligned at
    /// least to the word size, tagged with the path that produced it, and
    /// its recorded layout covers the request.
    pub fn allocate(&mut self, size: usize) -> (p: usize)
        requires
            old(self).wf(),
            1 <= size,
            old(self).space_for(size as int),
        ensures
            final(self).wf(),
            final(self)@.live == old(self)@.live.insert(p, old(self).alloc_record(size as int)),
            !old(self)@.live.contains_key(p),
            p != 0,
            final(self)@.bytes == old(self)@.bytes,
            old(self)@.next_region <= final(self)@.next_region,
            final(self)@.next_region <= old(self)@.next_region + size + 3 * ELFMALLOC_PAGE_SIZE,
            old(self).alloc_record(size as int).size >= size,
            p % old(self).alloc_record(size as int).align == 0,
            forall|g: int| final(self).valid_handle(g) <==> old(self).valid_handle(g),
    {
        self.0.allocate(size)
    }

    /// Free a pointer previously returned by any handle of the family; a
    /// null pointer is a no-op.
    pub fn free(&mut self, item: usize)
        requires
            old(self).wf(),
            item == 0 || old(self)@.live.contains_key(item),
        ensures
            final(self).wf(),
            final(self)@.live == (if item == 0 {
                old(self)@.live
            } else {
                old(self)@.live.remove(item)
            }),
            final(self)@.bytes == old(self)@.bytes,
            final(self)@.next_region == old(self)@.next_region,
            forall|g: int| final(self).valid_handle(g) <==> old(self).valid_handle(g),
    {
        self.0.free(item)
    }

    /// Reallocate to `new_size` bytes at word alignment.  The recorded
    /// alignment of any allocation is at least the word size, so a request
    /// that still fits is always returned unchanged.
    pub fn realloc(&mut self, item: usize, new_size: usize) -> (r: usize)
        requires
            old(self).wf(),
            item == 0 || old(self)@.live.contains_key(item),
            !(item == 0 && new_size == 0),
            (item == 0 || (new_size != 0 && old(self)@.live[item].size < new_size)) ==> old(
                self,
            ).space_for(2 * new_size + 1),
        ensures
            final(self).wf(),
            forall|g: int| final(self).valid_handle(g) <==> old(self).valid_handle(g),
            old(self)@.next_region <= final(self)@.next_region,
            final(self)@.next_region <= old(self)@.next_region + 2 * new_size + 2 * WORD_SIZE + 4
                * ELFMALLOC_PAGE_SIZE,
            item == 0 ==> {
                &&& r != 0
                &&& !old(self)@.live.contains_key(r)
                &&& final(self)@.live == old(self)@.live.insert(
                    r,
                    old(self).alloc_record(new_size as int),
                )
                &&& final(self)@.bytes == old(self)@.bytes
            },
            (item != 0 && new_size == 0) ==> {
                &&& r == 0
                &&& final(self)@.live == old(self)@.live.remove(item)
                &&& final(self)@.bytes == old(self)@.bytes
            },
            (item != 0 && new_size != 0 && old(self)@.live[item].size >= new_size) ==> {
                &&& r == item
                &&& final(self)@.live == old(self)@.live
                &&& final(self)@.bytes == old(self)@.bytes
            },
            (item != 0 && new_size != 0 && old(self)@.live[item].size < new_size) ==> {
                let rec = old(self).alloc_record(new_size as int);
                let m = old(self)@.live[item].size as int;
                &&& r != 0
                &&& r != item
                &&& !old(self)@.live.contains_key(r)
                &&& final(self)@.live == old(self)@.live.remove(item).insert(r, rec)
                &&& forall|i: int|
                    0 <= i < m ==> #[trigger] final(self)@.read((r + i) as usize) == old(
                        self,
                    )@.read((item + i) as usize)
                &&& forall|k: usize|
                    !(r <= k < r + m) ==> #[trigger] final(self)@.read(k) == old(self)@.read(k)
            },
    {
        proof {
            if item != 0 {
                assert(old(self)@.live_ok(item, old(self)@.live[item]));
            }
        }
        self.0.realloc_on(0, item, new_size, WORD_SIZE)
    }

    /// Reallocate to `new_size` bytes at `new_alignment`.
    pub fn aligned_realloc(&mut self, item: usize, new_size: usize, new_alignment: usize) -> (r:
        usize)
        requires
            old(self).wf(),
            item == 0 || old(self)@.live.contains_key(item),
            !(item == 0 && new_size == 0),
            (item == 0 || (new_size != 0 && !(old(self)@.live[item].align >= new_alignment && old(
                self,
            )@.live[item].size >= new_size))) ==> (if new_alignment <= WORD_SIZE {
                old(self).space_for(2 * new_size + 1)
            } else {
                old(self).space_for(2 * new_size + 2 * new_alignment + 1)
            }),
        ensures
            final(self).wf(),
            forall|g: int| final(self).valid_handle(g) <==> old(self).valid_handle(g),
            old(self)@.next_region <= final(self)@.next_region,
            final(self)@.next_region <= old(self)@.next_region + 2 * new_size + 2 * new_alignment
                + 4 * ELFMALLOC_PAGE_SIZE,
            item == 0 ==> {
                let rec = old(self).alloc_record(
                    old(self).0.realloc_alloc_size(new_size as int, new_alignment as int),
                );
                &&& r != 0
                &&& !old(self)@.live.contains_key(r)
                &&& final(self)@.live == old(self)@.live.insert(r, rec)
                &&& final(self)@.bytes == old(self)@.bytes
                &&& rec.size >= new_size
                &&& (new_alignment <= OS_PAGE_SIZE ==> rec.align >= new_alignment)
            },
            (item != 0 && new_size == 0) ==> {
                &&& r == 0
                &&& final(self)@.live == old(self)@.live.remove(item)
                &&& final(self)@.bytes == old(self)@.bytes
            },
            (item != 0 && new_size != 0 && old(self)@.live[item].align >= new_alignment && old(
                self,
            )@.live[item].size >= new_size) ==> {
                &&& r == item
                &&& final(self)@.live == old(self)@.live
                &&& final(self)@.bytes == old(self)@.bytes
            },
            (item != 0 && new_size != 0 && !(old(self)@.live[item].align >= new_alignment && old(
                self,
            )@.live[item].size >= new_size)) ==> {
                let asize = old(self).0.realloc_alloc_size(new_size as int, new_alignment as int);
                let rec = old(self).alloc_record(asize);
                let m = (if old(self)@.live[item].size <= asize {
                    old(self)@.live[item].size as int
                } else {
                    asize
                });
                &&& r != 0
                &&& r != item
                &&& !old(self)@.live.contains_key(r)
                &&& final(self)@.live == old(self)@.live.remove(item).insert(r, rec)
                &&& rec.size >= new_size
                &&& (new_alignment <= OS_PAGE_SIZE ==> rec.align >= new_alignment)
                &&& forall|i: int|
                    0 <= i < m ==> #[trigger] final(self)@.read((r + i) as usize) == old(
                        self,
                    )@.read((item + i) as usize)
                &&& forall|k: usize|
                    !(r <= k < r + m) ==> #[trigger] final(self)@.read(k) == old(self)@.read(k)
            },
    {
        self.0.realloc_on(0, item, new_size, new_alignment)
    }

    /// The layout the allocator actually gave `item`: at least the size
    /// requested, at least the alignment guaranteed.
    pub fn get_layout(&self, item: usize) -> (r: (usize, usize))
        requires
            self.wf(),
            self@.live.contains_key(item),
        ensures
            r.0 == self@.live[item].size,
            r.1 == self@.live[item].align,
    {
        elfmalloc_get_layout(&self.0.heap, item)
    }

    /// The tag recovered for `item` from the address alone.
    pub fn get_type(&self, item: usize) -> (t: AllocType)
        requires
            self.wf(),
            self@.live.contains_key(item),
        ensures
            t == self@.live[item].ty,
    {
        get_type(&self.0.heap, item)
    }

    /// Write one byte at `offset` into the allocation at `item`.
    pub fn write_byte(&mut self, item: usize, offset: usize, v: u8)
        requires
            old(self).wf(),
            old(self)@.live.contains_key(item),
            offset < old(self)@.live[item].size,
        ensures
            final(self).wf(),
            final(self)@ == (HeapModel {
                bytes: old(self)@.bytes.insert((item + offset) as usize, v),
                ..old(self)@
            }),
            forall|g: int| final(self).valid_handle(g) <==> old(self).valid_handle(g),
    {
        self.0.write_byte(item, offset, v)
    }

    /// Read one byte at `offset` from the allocation at `item`.
    pub fn read_byte(&self, item: usize, offset: usize) -> (v: u8)
        requires
            self.wf(),
            self@.live.contains_key(item),
            offset < self@.live[item].size,
        ensures
            v == self@.read((item + offset) as usize),
    {
        self.0.read_byte(item, offset)
    }

    /// Create a new handle over the same backing.
    pub fn clone_handle(&mut self) -> (h: usize)
        requires
            old(self).wf(),
        ensures
            final(self).wf(),
            final(self).valid_handle(h as int),
            h != 0,
            h == old(self).0.handles@.len(),
            final(self)@ == old(self)@,
            forall|g: int| old(self).valid_handle(g) ==> final(self).valid_handle(g),
            final(self).0.handles@.len() == old(self).0.handles@.len() + 1,
    {
        self.0.clone_handle()
    }

    /// Retire a handle; every live pointer of the family stays live.
    pub fn retire_handle(&mut self, h: usize)
        requires
            old(self).wf(),
            old(self).valid_handle(h as int),
            h != 0,
        ensures
            final(self).wf(),
            final(self)@ == old(self)@,
            !final(self).valid_handle(h as int),
            forall|g: int|
                0 <= g < old(self).0.handles@.len() && g != h ==> (final(self).valid_handle(g)
                    <==> old(self).valid_handle(g)),
    {
        self.0.retire_handle(h)
    }

    /// Serve a request of `size` bytes through handle `h`.
    pub fn alloc_on(&mut self, h: usize, size: usize) -> (p: usize)
        requires
            old(self).wf(),
            old(self).valid_handle(h as int),
            1 <= size,
            old(self).space_for(size as int),
        ensures
            final(self).wf(),
            final(self)@.live == old(self)@.live.insert(p, old(self).alloc_record(size as int)),
            !old(self)@.live.contains_key(p),
            p != 0,
            final(self)@.bytes == old(self)@.bytes,
            old(self)@.next_region <= final(self)@.next_region,
            final(self)@.next_region <= old(self)@.next_region + size + 3 * ELFMALLOC_PAGE_SIZE,
            old(self).alloc_record(size as int).size >= size,
            p % old(self).alloc_record(size as int).align == 0,
            forall|g: int| final(self).valid_handle(g) <==> old(self).valid_handle(g),
    {
        self.0.alloc_on(h, size)
    }

    /// Release `item` through handle `h`, whatever handle produced it.
    pub fn free_on(&mut self, h: usize, item: usize)
        requires
            old(self).wf(),
            old(self).valid_handle(h as int),
            item == 0 || old(self)@.live.contains_key(item),
        ensures
            final(self).wf(),
            final(self)@.live == (if item == 0 {
                old(self)@.live
            } else {
                old(self)@.live.remove(item)
            }),
            final(self)@.bytes == old(self)@.bytes,
            final(self)@.next_region == old(self)@.next_region,
            forall|g: int| final(self).valid_handle(g) <==> old(self).valid_handle(g),
    {
        self.0.free_on(h, item)
    }

    /// The size of the largest class; anything above goes to the direct
    /// mapping path.
    pub fn max_size(&self) -> (r: usize)
        ensures
            r == self.0.max_size,
    {
        self.0.max_size
    }
}

impl Default for DynamicAllocator {
    /// The default allocator, exactly as `new` builds it.
    fn default() -> (r: DynamicAllocator)
        ensures
            r.wf(),
            r@.live == Map::<usize, LiveObject>::empty(),
            r@.bytes == Map::<usize, u8>::empty(),
            r@.next_region == crate::HEAP_BASE,
            r.valid_handle(0),
            r.0.max_size == 1048576,
    {
        DynamicAllocator::new()
    }
}

/// What a reallocation request is recorded as: the destination covers the
/// requested size, and when more than word alignment is asked for (up to the
/// operating system's page size, beyond which no path promises more) the
/// destination carries at least that alignment.
pub proof fn lemma_realloc_record_facts(a: ElfMalloc, new_size: int, new_alignment: int)
    requires
        a.wf(),
        1 <= new_size,
        new_size <= usize::MAX / 2,
        0 <= new_alignment <= usize::MAX / 2,
    ensures
        a.realloc_alloc_size(new_size, new_alignment) >= new_size,
        a.alloc_record(a.realloc_alloc_size(new_size, new_alignment)).size >= new_size,
        a.alloc_record(a.realloc_alloc_size(new_size, new_alignment)).align >= WORD_SIZE,
        new_alignment <= OS_PAGE_SIZE ==> a.alloc_record(
            a.realloc_alloc_size(new_size, new_alignment),
        ).align >= new_alignment,
{
    let asize = a.realloc_alloc_size(new_size, new_alignment);
    let ts = a.table();
    assert(ts.wf(a.heap@));
    lemma_next_pow2_props(new_size);
    lemma_next_pow2_props(new_alignment);
    crate::num::lemma_pow2_constants();
    // The rounded size still fits the machine word.
    assert(asize <= usize::MAX);
    if asize <= a.max_size {
        crate::laws::lemma_class_size_covers(ts, asize);
        let cs = ts.class_size_for(asize);
        // Every class's alignment is at least the word size: the word class
        // is exactly 8 bytes, and every other class is at least 16.
        assert(cs == WORD_SIZE || cs >= 2 * WORD_SIZE) by {
            if asize > WORD_SIZE && asize <= ts.small_objs.max_size {
                crate::num::lemma_align_down(asize + 15, 16);
            }
        }
        // The covering class never leaves the table, so it fits a usize.
        assert(cs <= ts.small_objs.max_size + MULTIPLE || cs <= ts.medium_objs.max_size) by {
            if asize <= WORD_SIZE {
            } else if asize <= ts.small_objs.max_size {
                crate::num::lemma_align_down(asize + 15, 16);
            } else {
                // The largest class is a power of two, so the rounded size
                // stays at or below it.
                let last = ts.medium_objs.classes.len() - 1;
                assert(vstd::arithmetic::power2::is_pow2(
                    ts.medium_objs.classes@[last].object_size as int,
                ));
                assert(ts.medium_objs.classes@[last].object_size
                    == ts.medium_objs.starting_size * vstd::arithmetic::power2::pow2(last as nat));
                crate::num::lemma_next_pow2_min(asize, ts.medium_objs.max_size as int);
            }
        }
        assert((cs as usize) >= new_size);
    }
    if new_alignment > WORD_SIZE {
        // The requested size was rounded to a power of two no smaller than
        // the alignment, so the destination class (or the page-aligned
        // direct mapping) carries it.
        let u = spec_next_pow2(new_alignment);
        assert(asize >= u);
        // asize is one of the two powers of two, whichever is larger.
        assert(vstd::arithmetic::power2::is_pow2(asize)) by {
            assert(asize == spec_next_pow2(new_size) || asize == u);
        }
        assert(asize >= 2 * WORD_SIZE) by {
            crate::num::lemma_pow2_divides(WORD_SIZE as int, u);
        }
        if asize <= a.max_size {
            crate::laws::lemma_power_of_two_class_exact(ts, asize);
        }
    }
}

/// The default class plan — 8-byte start, 25 classes — satisfies every side
/// condition: 12 classes at multiples of 16 up to 192, then 13 powers of two
/// from 256 up to 1 MiB, half the 2 MiB page.
pub proof fn lemma_default_plan_valid()
    ensures
        valid_class_plan(8, 25),
{
    crate::num::lemma_pow2_constants();
    assert(crate::size_classes::spec_n_small(8, 25) == 12);
    assert(spec_next_pow2(193int) == 256) by {
        crate::num::lemma_next_pow2_props(193);
        crate::num::lemma_next_pow2_min(193, 256);
        crate::num::lemma_pow2_divides(spec_next_pow2(193), 256);
    }
    assert(vstd::arithmetic::power2::pow2(12nat) == 4096) by {
        vstd::arithmetic::power2::lemma2_to64();
    }
    let ns = spec_n_small(8, 25);
    assert(MULTIPLE + MULTIPLE * (ns - 1) + 1 == 193);
    assert(spec_next_pow2(MULTIPLE + MULTIPLE * (ns - 1) + 1) * vstd::arithmetic::power2::pow2(
        (25 - ns - 1) as nat,
    ) == 1048576);
    assert(valid_class_plan(8, 25));
}

} // verus!
