//! The size-class table: an arithmetic run of classes spaced 16 bytes apart,
//! followed by a run of powers of two, with a distinguished word-sized class
//! in front.  Each class owns a cache that carves objects out of slab pages
//! and takes freed objects back.

use vstd::prelude::*;

verus! {

use vstd::arithmetic::power2::is_pow2;
use crate::alloc_type::AllocType;
use crate::heap::{
    Heap, HeapModel, LiveObject, lemma_object_ok_preserved, lemma_object_ok_same_addr,
};
use crate::num::{
    is_power_of_two, lemma_next_pow2_exact, lemma_next_pow2_min, lemma_next_pow2_props,
    next_power_of_two, round_up, round_up16_spec, spec_next_pow2,
};
use crate::{
    ELFMALLOC_PAGE_SIZE, ELFMALLOC_SMALL_CUTOFF, ELFMALLOC_SMALL_PAGE_SIZE, MULTIPLE, WORD_SIZE,
};

/// The alignment every object of a class carries: the class size itself for a
/// power of two, the word size otherwise.
pub open spec fn class_align(s: int) -> int {
    if is_pow2(s) {
        s
    } else {
        WORD_SIZE as int
    }
}

/// The path that serves a class: small slab pages below the cutoff, big slab
/// pages at and above it.
pub open spec fn class_ty(s: int) -> AllocType {
    if s < ELFMALLOC_SMALL_CUTOFF {
        AllocType::SmallSlag
    } else {
        AllocType::BigSlag
    }
}

/// One size class's front-end cache: the class geometry, and the objects that
/// have been freed into this cache.
///
/// On the allocator's own paths, `alloc_one` always carves a fresh object
/// and `free_one` parks the freed one here: whether and when a parked object
/// is handed out again is the out-of-scope cache policy's choice, and this
/// model never re-issues one.  The standalone object-allocator interface of
/// the cache (`UntypedObjectAlloc`) is the opposite corner of that freedom:
/// it serves parked objects only.
pub struct Cache {
    pub object_size: usize,
    pub align: usize,
    pub ty: AllocType,
    pub free_list: Vec<usize>,
}

impl Cache {
    /// The cache's geometry is a valid class: word-aligned small sizes below
    /// the cutoff, power-of-two sizes up to half a page at and above it.
    pub open spec fn class_wf(self) -> bool {
        &&& WORD_SIZE <= self.object_size
        &&& self.ty == class_ty(self.object_size as int)
        &&& self.object_size < ELFMALLOC_SMALL_CUTOFF ==> self.object_size % WORD_SIZE == 0
        &&& self.object_size >= ELFMALLOC_SMALL_CUTOFF ==> (is_pow2(self.object_size as int)
            && self.object_size <= ELFMALLOC_PAGE_SIZE / 2)
        &&& self.align == class_align(self.object_size as int)
    }

    /// Every object parked in the cache is a well-recorded, non-live object
    /// of this class.
    pub open spec fn wf(self, m: HeapModel) -> bool {
        &&& self.class_wf()
        &&& forall|i: int|
            0 <= i < self.free_list.len() ==> m.object_ok(
                #[trigger] self.free_list@[i],
                self.object_size,
                self.align,
                self.ty,
            ) && !m.live.contains_key(self.free_list@[i])
    }

    /// A fresh, empty cache for one size class.
    pub fn new(object_size: usize) -> (c: Cache)
        requires
            WORD_SIZE <= object_size,
            object_size < ELFMALLOC_SMALL_CUTOFF ==> object_size % WORD_SIZE == 0,
            object_size >= ELFMALLOC_SMALL_CUTOFF ==> (is_pow2(object_size as int) && object_size
                <= ELFMALLOC_PAGE_SIZE / 2),
        ensures
            c.class_wf(),
            c.object_size == object_size,
            c.free_list@.len() == 0,
    {
        let two_pow = is_power_of_two(object_size);
        Cache {
            object_size,
            align: if two_pow {
                object_size
            } else {
                WORD_SIZE
            },
            ty: if object_size < ELFMALLOC_SMALL_CUTOFF {
                AllocType::SmallSlag
            } else {
                AllocType::BigSlag
            },
            free_list: Vec::new(),
        }
    }

    /// Serve one object of this class: carve it out of a fresh slab page of
    /// the right page source.
    pub fn alloc_one(&mut self, heap: &mut Heap) -> (p: usize)
        requires
            old(self).wf(old(heap)@),
            old(heap)@.wf(),
            old(heap)@.next_region + 3 * ELFMALLOC_PAGE_SIZE <= usize::MAX,
        ensures
            *final(self) == *old(self),
            final(self).wf(final(heap)@),
            final(heap)@.wf(),
            !old(heap)@.live.contains_key(p),
            final(heap)@.live == old(heap)@.live.insert(
                p,
                (LiveObject {
                    size: old(self).object_size,
                    align: old(self).align,
                    ty: old(self).ty,
                }),
            ),
            final(heap)@.bytes == old(heap)@.bytes,
            final(heap)@.headers == old(heap)@.headers,
            forall|k: usize|
                #[trigger] old(heap)@.tags.contains_key(k) ==> final(heap)@.tags.contains_key(k)
                    && final(heap)@.tags[k] == old(heap)@.tags[k],
            forall|k: usize|
                #[trigger] old(heap)@.slabs.contains_key(k) ==> final(heap)@.slabs.contains_key(k)
                    && final(heap)@.slabs[k] == old(heap)@.slabs[k],
            old(heap)@.next_region <= final(heap)@.next_region,
            final(heap)@.next_region <= old(heap)@.next_region + 2 * ELFMALLOC_PAGE_SIZE,
            final(heap)@.live_ok(
                p,
                (LiveObject {
                    size: old(self).object_size,
                    align: old(self).align,
                    ty: old(self).ty,
                }),
            ),
            !old(heap)@.slabs.contains_key((p - old(self).object_size) as usize),
    {
        let p: usize = if self.object_size < ELFMALLOC_SMALL_CUTOFF {
            heap.alloc_small_object(self.object_size, self.align)
        } else {
            heap.alloc_medium_object(self.object_size)
        };
        proof {
            let m0 = old(heap)@;
            let m1 = heap@;
            assert forall|i: int|
                0 <= i < self.free_list.len() implies m1.object_ok(
                #[trigger] self.free_list@[i],
                self.object_size,
                self.align,
                self.ty,
            ) && !m1.live.contains_key(self.free_list@[i]) by {
                let q = self.free_list@[i];
                assert(m0.object_ok(q, self.object_size, self.align, self.ty));
                lemma_object_ok_preserved(m0, m1, q, self.object_size, self.align, self.ty);
                if q == p {
                    // The parked object and the fresh one would be the same
                    // object of the same class, but the fresh one sits on a
                    // page that had no slab header yet.
                    assert(m0.slabs.contains_key((p - self.object_size) as usize));
                }
            }
        }
        p
    }

    /// Take one freed object of this class back into the cache.
    pub fn free_one(&mut self, heap: &mut Heap, p: usize)
        requires
            old(self).wf(old(heap)@),
            old(heap)@.wf(),
            old(heap)@.live.contains_key(p),
            old(heap)@.live[p] == (LiveObject {
                size: old(self).object_size,
                align: old(self).align,
                ty: old(self).ty,
            }),
        ensures
            final(self).object_size == old(self).object_size,
            final(self).align == old(self).align,
            final(self).ty == old(self).ty,
            final(self).wf(final(heap)@),
            final(heap)@.wf(),
            final(heap)@ == (HeapModel { live: old(heap)@.live.remove(p), ..old(heap)@ }),
    {
        proof {
            assert(old(heap)@.live_ok(p, old(heap)@.live[p]));
        }
        heap.retire_object(p);
        self.free_list.push(p);
        proof {
            let m0 = old(heap)@;
            let m1 = heap@;
            assert forall|i: int|
                0 <= i < self.free_list.len() implies m1.object_ok(
                #[trigger] self.free_list@[i],
                self.object_size,
                self.align,
                self.ty,
            ) && !m1.live.contains_key(self.free_list@[i]) by {
                let q = self.free_list@[i];
                if i < self.free_list.len() - 1 {
                    assert(m0.object_ok(q, self.object_size, self.align, self.ty));
                    lemma_object_ok_preserved(m0, m1, q, self.object_size, self.align, self.ty);
                } else {
                    assert(q == p);
                    lemma_object_ok_preserved(m0, m1, p, self.object_size, self.align, self.ty);
                }
            }
        }
    }
}

/// A parked object stays well-recorded across any step that keeps the slab
/// headers and the slab tags in place and does not resurrect it.  The tag
/// preservation hypothesis is conditional so that unmapping a direct mapping
/// (which removes a `Large` tag) qualifies.
pub proof fn lemma_cache_wf_preserved(c: Cache, m0: HeapModel, m1: HeapModel)
    requires
        c.wf(m0),
        m0.next_region <= m1.next_region,
        forall|k: usize|
            #[trigger] m0.tags.contains_key(k) && m0.tags[k] != AllocType::Large
                ==> m1.tags.contains_key(k) && m1.tags[k] == m0.tags[k],
        forall|k: usize|
            #[trigger] m0.slabs.contains_key(k) ==> m1.slabs.contains_key(k) && m1.slabs[k]
                == m0.slabs[k],
        forall|q: usize| #[trigger] m1.live.contains_key(q) ==> m0.live.contains_key(q),
    ensures
        c.wf(m1),
{
    assert forall|i: int|
        0 <= i < c.free_list.len() implies m1.object_ok(
        #[trigger] c.free_list@[i],
        c.object_size,
        c.align,
        c.ty,
    ) && !m1.live.contains_key(c.free_list@[i]) by {
        let q = c.free_list@[i];
        assert(m0.object_ok(q, c.object_size, c.align, c.ty));
        match c.ty {
            AllocType::SmallSlag => {
                let pb = (q - c.object_size) as usize;
                assert(m0.slabs.contains_key(pb));
                assert(m0.tags.contains_key(
                    crate::num::align_down_spec(pb as int, ELFMALLOC_PAGE_SIZE as int) as usize,
                ));
            },
            AllocType::BigSlag => {
                let pb = (q - c.object_size) as usize;
                assert(m0.slabs.contains_key(pb));
                assert(m0.tags.contains_key(pb));
            },
            AllocType::Large => {
                assert(false);
            },
        }
        if m1.live.contains_key(q) {
            assert(m0.live.contains_key(q));
        }
    }
}

/// A parked object of some other cache is untouched by a fresh allocation:
/// the fresh object lies on a page that had no slab header, while every
/// parked object's page has one.
pub proof fn lemma_cache_wf_after_alloc(
    c: Cache,
    m0: HeapModel,
    m1: HeapModel,
    p: usize,
    size: usize,
    align: usize,
    ty: AllocType,
)
    requires
        c.wf(m0),
        m0.next_region <= m1.next_region,
        m1.live == m0.live.insert(p, (LiveObject { size, align, ty })),
        m1.object_ok(p, size, align, ty),
        ty != AllocType::Large ==> !m0.slabs.contains_key((p - size) as usize),
        ty == AllocType::Large || ty == class_ty(size as int),
        forall|k: usize|
            #[trigger] m0.tags.contains_key(k) ==> m1.tags.contains_key(k) && m1.tags[k]
                == m0.tags[k],
        forall|k: usize|
            #[trigger] m0.slabs.contains_key(k) ==> m1.slabs.contains_key(k) && m1.slabs[k]
                == m0.slabs[k],
        forall|k: usize|
            #[trigger] m0.headers.contains_key(k) ==> m1.headers.contains_key(k) && m1.headers[k]
                == m0.headers[k],
    ensures
        c.wf(m1),
{
    assert forall|i: int|
        0 <= i < c.free_list.len() implies m1.object_ok(
        #[trigger] c.free_list@[i],
        c.object_size,
        c.align,
        c.ty,
    ) && !m1.live.contains_key(c.free_list@[i]) by {
        let q = c.free_list@[i];
        assert(m0.object_ok(q, c.object_size, c.align, c.ty));
        lemma_object_ok_preserved(m0, m1, q, c.object_size, c.align, c.ty);
        if q == p {
            lemma_object_ok_same_addr(m1, p, c.object_size, c.align, c.ty, size, align, ty);
            assert(m0.slabs.contains_key((p - size) as usize));
        }
    }
}

/// An array of size classes at multiples of 16.
pub struct Multiples {
    pub starting_size: usize,
    pub max_size: usize,
    pub classes: Vec<Cache>,
}

impl Multiples {
    /// The size of class `i`.
    pub open spec fn class_size(self, i: int) -> int {
        self.starting_size + MULTIPLE * i
    }

    /// The arithmetic shape of the table.
    pub open spec fn structure_wf(self) -> bool {
        &&& MULTIPLE <= self.starting_size
        &&& self.starting_size % MULTIPLE == 0
        &&& 1 <= self.classes.len()
        &&& self.max_size == self.class_size(self.classes.len() - 1)
        &&& self.max_size <= ELFMALLOC_SMALL_CUTOFF
        &&& forall|i: int|
            0 <= i < self.classes.len() ==> (#[trigger] self.classes@[i]).object_size
                == self.class_size(i) && self.classes@[i].class_wf()
    }

    /// The table and every cache in it are consistent with the heap.
    pub open spec fn wf(self, m: HeapModel) -> bool {
        &&& self.structure_wf()
        &&& forall|i: int| 0 <= i < self.classes.len() ==> (#[trigger] self.classes@[i]).wf(m)
    }

    /// Build the table: `n_classes` caches at sizes `round_up(start)`,
    /// `round_up(start) + 16`, and so on, in increasing order.
    pub fn init_conserve(start: usize, n_classes: usize) -> (r: Multiples)
        requires
            1 <= start,
            1 <= n_classes,
            round_up16_spec(start as int) + MULTIPLE * (n_classes - 1) <= ELFMALLOC_SMALL_CUTOFF,
        ensures
            r.structure_wf(),
            r.starting_size == round_up16_spec(start as int),
            r.classes.len() == n_classes,
            r.max_size == round_up16_spec(start as int) + MULTIPLE * (n_classes - 1),
            forall|i: int| 0 <= i < n_classes ==> (#[trigger] r.classes@[i]).free_list@.len() == 0,
    {
        let starting_size = round_up(start);
        let mut classes: Vec<Cache> = Vec::new();
        let mut cur_size = starting_size;
        proof {
            crate::num::lemma_pow2_constants();
        }
        while classes.len() < n_classes
            invariant
                classes.len() <= n_classes,
                MULTIPLE <= starting_size,
                starting_size % MULTIPLE == 0,
                starting_size + MULTIPLE * (n_classes - 1) <= ELFMALLOC_SMALL_CUTOFF,
                cur_size == starting_size + MULTIPLE * classes.len(),
                forall|i: int|
                    0 <= i < classes.len() ==> (#[trigger] classes@[i]).object_size == starting_size
                        + MULTIPLE * i && classes@[i].class_wf() && classes@[i].free_list@.len()
                        == 0,
            decreases n_classes - classes.len(),
        {
            proof {
                crate::num::lemma_pow2_constants();
                assert(cur_size <= ELFMALLOC_SMALL_CUTOFF);
                assert(cur_size % WORD_SIZE == 0) by {
                    crate::num::lemma_mod_trans(cur_size as int, MULTIPLE as int, WORD_SIZE as int);
                    assert(cur_size % MULTIPLE == 0) by {
                        vstd::arithmetic::div_mod::lemma_add_mod_noop(
                            starting_size as int,
                            MULTIPLE * classes.len(),
                            MULTIPLE as int,
                        );
                        vstd::arithmetic::div_mod::lemma_mod_multiples_basic(
                            classes.len() as int,
                            MULTIPLE as int,
                        );
                        vstd::arithmetic::div_mod::lemma_small_mod(0nat, MULTIPLE as nat);
                    }
                }
                if cur_size >= ELFMALLOC_SMALL_CUTOFF {
                    assert(cur_size == ELFMALLOC_SMALL_CUTOFF);
                }
            }
            let c = Cache::new(cur_size);
            classes.push(c);
            cur_size = cur_size + MULTIPLE;
        }
        Multiples { starting_size, max_size: cur_size - MULTIPLE, classes }
    }

    /// Index of the class that serves a request of `n` bytes: the smallest
    /// class at least `n`.
    pub fn get_raw(&self, n: usize) -> (idx: usize)
        requires
            self.structure_wf(),
            self.starting_size <= round_up16_spec(n as int) <= self.max_size,
            n + MULTIPLE <= usize::MAX,
        ensures
            idx < self.classes.len(),
            self.classes@[idx as int].object_size == round_up16_spec(n as int),
    {
        let class = round_up(n);
        let idx = (class - self.starting_size) / MULTIPLE;
        proof {
            let d: int = class - self.starting_size;
            assert(d % (MULTIPLE as int) == 0) by {
                vstd::arithmetic::div_mod::lemma_sub_mod_noop(
                    class as int,
                    self.starting_size as int,
                    MULTIPLE as int,
                );
                vstd::arithmetic::div_mod::lemma_small_mod(0nat, MULTIPLE as nat);
            }
            vstd::arithmetic::div_mod::lemma_fundamental_div_mod(d, MULTIPLE as int);
            assert(MULTIPLE * (d / (MULTIPLE as int)) == d);
            assert(self.class_size(idx as int) == class);
        }
        idx
    }

    /// The size of the largest class.
    pub fn max_key(&self) -> (r: usize)
        ensures
            r == self.max_size,
    {
        self.max_size
    }
}

/// An array of size classes at successive powers of two.
pub struct PowersOfTwo {
    pub starting_size: usize,
    pub max_size: usize,
    pub classes: Vec<Cache>,
}

impl PowersOfTwo {
    /// The geometric shape of the table: class `i` holds objects of
    /// `starting_size * 2^i` bytes.
    pub open spec fn structure_wf(self) -> bool {
        &&& is_pow2(self.starting_size as int)
        &&& 1 <= self.classes.len()
        &&& self.max_size == self.starting_size * vstd::arithmetic::power2::pow2(
            (self.classes.len() - 1) as nat,
        )
        &&& forall|i: int|
            0 <= i < self.classes.len() ==> (#[trigger] self.classes@[i]).object_size
                == self.starting_size * vstd::arithmetic::power2::pow2(i as nat)
        &&& forall|i: int|
            0 <= i < self.classes.len() ==> is_pow2((#[trigger] self.classes@[i]).object_size as int)
                && self.classes@[i].class_wf() && self.starting_size <= self.classes@[i].object_size
                <= self.max_size
    }

    /// The table and every cache in it are consistent with the heap.
    pub open spec fn wf(self, m: HeapModel) -> bool {
        &&& self.structure_wf()
        &&& forall|i: int| 0 <= i < self.classes.len() ==> (#[trigger] self.classes@[i]).wf(m)
    }

    /// An empty table that will start from the smallest power of two at
    /// least `start_from`.
    pub fn new(start_from: usize, n_classes: usize) -> (r: PowersOfTwo)
        requires
            start_from <= usize::MAX / 2,
        ensures
            r.starting_size == spec_next_pow2(start_from as int),
            is_pow2(r.starting_size as int),
            r.classes.len() == 0,
            r.max_size == 0,
    {
        PowersOfTwo {
            starting_size: next_power_of_two(start_from),
            max_size: 0,  // filled in when the classes are built
            classes: Vec::with_capacity(n_classes),
        }
    }

    /// Build the table: `n_classes` caches at successive powers of two from
    /// the smallest power of two at least `start`, in increasing order.
    #[verifier::rlimit(100)]
    pub fn init_conserve(start: usize, n_classes: usize) -> (r: PowersOfTwo)
        requires
            1 <= start,
            start <= usize::MAX / 2,
            1 <= n_classes,
            WORD_SIZE <= spec_next_pow2(start as int),
            spec_next_pow2(start as int) * vstd::arithmetic::power2::pow2((n_classes - 1) as nat)
                <= ELFMALLOC_PAGE_SIZE / 2,
        ensures
            r.structure_wf(),
            r.starting_size == spec_next_pow2(start as int),
            r.classes.len() == n_classes,
            r.max_size == spec_next_pow2(start as int) * vstd::arithmetic::power2::pow2(
                (n_classes - 1) as nat,
            ),
            forall|i: int| 0 <= i < n_classes ==> (#[trigger] r.classes@[i]).free_list@.len() == 0,
    {
        let mut res = PowersOfTwo::new(start, n_classes);
        let mut cur_size = res.starting_size;
        proof {
            crate::num::lemma_pow2_constants();
            vstd::arithmetic::power2::lemma_pow2_pos(0nat);
            assert(vstd::arithmetic::power2::pow2(0nat) == 1) by {
                vstd::arithmetic::power2::lemma2_to64();
            }
        }
        while res.classes.len() < n_classes
            invariant
                res.classes.len() <= n_classes,
                res.starting_size == spec_next_pow2(start as int),
                is_pow2(res.starting_size as int),
                WORD_SIZE <= res.starting_size,
                spec_next_pow2(start as int) * vstd::arithmetic::power2::pow2(
                    (n_classes - 1) as nat,
                ) <= ELFMALLOC_PAGE_SIZE / 2,
                cur_size == res.starting_size * vstd::arithmetic::power2::pow2(
                    res.classes.len() as nat,
                ),
                is_pow2(cur_size as int),
                res.classes.len() == 0 ==> cur_size == res.starting_size,
                forall|i: int|
                    0 <= i < res.classes.len() ==> (#[trigger] res.classes@[i]).class_wf()
                        && res.classes@[i].free_list@.len() == 0 && is_pow2(
                        res.classes@[i].object_size as int,
                    ) && res.starting_size <= res.classes@[i].object_size,
                forall|i: int|
                    0 <= i < res.classes.len() ==> (#[trigger] res.classes@[i]).object_size
                        == res.starting_size * vstd::arithmetic::power2::pow2(i as nat),
                forall|i: int|
                    0 <= i < res.classes.len() ==> (#[trigger] res.classes@[i]).object_size
                        < cur_size,
            decreases n_classes - res.classes.len(),
        {
            proof {
                crate::num::lemma_pow2_constants();
                // The current size stays within the half-page bound because
                // the exponent still has room to grow.
                assert(cur_size <= ELFMALLOC_PAGE_SIZE / 2) by {
                    let e1: nat = res.classes.len() as nat;
                    let e2: nat = (n_classes - 1) as nat;
                    if e1 < e2 {
                        vstd::arithmetic::power2::lemma_pow2_strictly_increases(e1, e2);
                    }
                    vstd::arithmetic::power2::lemma_pow2_pos(e1);
                    vstd::arithmetic::power2::lemma_pow2_pos(e2);
                    assert(vstd::arithmetic::power2::pow2(e1) <= vstd::arithmetic::power2::pow2(e2)
                        ==> res.starting_size * vstd::arithmetic::power2::pow2(e1)
                        <= res.starting_size * vstd::arithmetic::power2::pow2(e2)) by (nonlinear_arith)
                        requires
                            res.starting_size >= 1,
                    ;
                }
                assert(cur_size >= res.starting_size) by {
                    vstd::arithmetic::power2::lemma_pow2_pos(res.classes.len() as nat);
                    assert(vstd::arithmetic::power2::pow2(res.classes.len() as nat) >= 1);
                    assert(res.starting_size * vstd::arithmetic::power2::pow2(
                        res.classes.len() as nat,
                    ) >= res.starting_size * 1) by (nonlinear_arith)
                        requires
                            res.starting_size >= 0,
                            vstd::arithmetic::power2::pow2(res.classes.len() as nat) >= 1,
                    ;
                }
                assert(cur_size % WORD_SIZE == 0) by {
                    crate::num::lemma_pow2_divides(WORD_SIZE as int, cur_size as int);
                }
            }
            let c = Cache::new(cur_size);
            res.classes.push(c);
            cur_size = cur_size * 2;
            proof {
                crate::num::lemma_pow2_double((cur_size / 2) as int);
                assert(cur_size == res.starting_size * vstd::arithmetic::power2::pow2(
                    res.classes.len() as nat,
                )) by {
                    vstd::arithmetic::power2::lemma_pow2_unfold(res.classes.len() as nat);
                    assert(res.starting_size * (2 * vstd::arithmetic::power2::pow2(
                        (res.classes.len() - 1) as nat,
                    )) == 2 * (res.starting_size * vstd::arithmetic::power2::pow2(
                        (res.classes.len() - 1) as nat,
                    ))) by (nonlinear_arith);
                }
            }
        }
        proof {
            assert(res.classes.len() == n_classes);
            assert(res.classes@[n_classes - 1].object_size == res.starting_size
                * vstd::arithmetic::power2::pow2((n_classes - 1) as nat));
        }
        res.max_size = cur_size / 2;
        proof {
            // cur_size == starting * pow2(n); halving steps back one class.
            vstd::arithmetic::power2::lemma_pow2_unfold(n_classes as nat);
            assert(res.max_size == res.starting_size * vstd::arithmetic::power2::pow2(
                (n_classes - 1) as nat,
            )) by (nonlinear_arith)
                requires
                    cur_size == res.starting_size * vstd::arithmetic::power2::pow2(
                        n_classes as nat,
                    ),
                    vstd::arithmetic::power2::pow2(n_classes as nat) == 2
                        * vstd::arithmetic::power2::pow2((n_classes - 1) as nat),
                    res.max_size == cur_size / 2,
            ;
            assert(res.max_size == res.classes@[res.classes.len() - 1].object_size);
            assert(cur_size == 2 * res.max_size) by (nonlinear_arith)
                requires
                    cur_size == res.starting_size * vstd::arithmetic::power2::pow2(
                        n_classes as nat,
                    ),
                    res.max_size == res.starting_size * vstd::arithmetic::power2::pow2(
                        (n_classes - 1) as nat,
                    ),
                    vstd::arithmetic::power2::pow2(n_classes as nat) == 2
                        * vstd::arithmetic::power2::pow2((n_classes - 1) as nat),
            ;
            assert forall|i: int|
                0 <= i < res.classes.len() implies (#[trigger] res.classes@[i]).object_size
                <= res.max_size by {
                if res.classes@[i].object_size > res.max_size {
                    // Both are powers of two below cur_size == 2 * max_size.
                    crate::num::lemma_pow2_divides(
                        res.max_size as int,
                        res.classes@[i].object_size as int,
                    );
                }
            }
        }
        res
    }

    /// Index of the class that serves a request of `k` bytes: the smallest
    /// class at least `k`.
    #[verifier::rlimit(50)]
    pub fn get_raw(&self, k: usize) -> (idx: usize)
        requires
            self.structure_wf(),
            1 <= k,
            k <= self.max_size,
        ensures
            idx < self.classes.len(),
            self.classes@[idx as int].object_size == (if spec_next_pow2(k as int)
                >= self.starting_size {
                spec_next_pow2(k as int)
            } else {
                self.starting_size as int
            }),
    {
        let mut idx: usize = 0;
        while idx + 1 < self.classes.len() && self.classes[idx].object_size < k
            invariant
                self.structure_wf(),
                1 <= k <= self.max_size,
                idx < self.classes.len(),
                forall|j: int| 0 <= j < idx ==> (#[trigger] self.classes@[j]).object_size < k,
            decreases self.classes.len() - idx,
        {
            idx = idx + 1;
        }
        proof {
            let s = self.classes@[idx as int].object_size;
            lemma_next_pow2_props(k as int);
            assert(vstd::arithmetic::power2::pow2(0nat) == 1) by {
                vstd::arithmetic::power2::lemma2_to64();
            }
            assert(self.classes@[self.classes.len() - 1].object_size == self.max_size);
            if self.classes@[idx as int].object_size < k {
                // Only possible at the last slot, contradicting k <= max.
                assert(idx == self.classes.len() - 1);
                assert(false);
            }
            if idx == 0 {
                // Smallest class: either k fits below the starting size, or
                // k's power of two is exactly the starting size.
                lemma_next_pow2_min(k as int, self.starting_size as int);
            } else {
                assert(self.classes@[idx - 1].object_size < k);
                assert(s == 2 * self.classes@[idx - 1].object_size) by {
                    vstd::arithmetic::power2::lemma_pow2_unfold(idx as nat);
                    assert(self.starting_size * vstd::arithmetic::power2::pow2(idx as nat) == 2 * (
                    self.starting_size * vstd::arithmetic::power2::pow2(
                        (idx - 1) as nat,
                    ))) by (nonlinear_arith)
                        requires
                            vstd::arithmetic::power2::pow2(idx as nat) == 2
                                * vstd::arithmetic::power2::pow2((idx - 1) as nat),
                    ;
                }
                lemma_next_pow2_min(k as int, s as int);
                // s/2 < k and s is the next power of two, so s <= next_pow2(k).
                assert(spec_next_pow2(k as int) > self.classes@[idx - 1].object_size);
                crate::num::lemma_pow2_divides(
                    self.classes@[idx - 1].object_size as int,
                    spec_next_pow2(k as int),
                );
                assert(spec_next_pow2(k as int) >= s);
                assert(s >= self.starting_size);
            }
        }
        idx
    }

    /// The size of the largest class.
    pub fn max_key(&self) -> (r: usize)
        ensures
            r == self.max_size,
    {
        self.max_size
    }
}

/// How many of the `n_classes` classes the small (multiples-of-16) run gets
/// when the table starts at `start`: enough to reach the cutoff, but at most
/// half of all classes.
pub open spec fn spec_n_small(start: int, n_classes: int) -> int {
    let a = (ELFMALLOC_SMALL_CUTOFF as int) / (MULTIPLE as int) - start / (MULTIPLE as int);
    let b = n_classes / 2;
    if a < b {
        a
    } else {
        b
    }
}

/// A class plan the table can be built from: the platform's word size as the
/// start, at least one class in each run, and a largest class that still
/// leaves room for its slab header inside a 2 MiB page.
pub open spec fn valid_class_plan(start: int, n_classes: int) -> bool {
    let ns = spec_n_small(start, n_classes);
    let nm = n_classes - ns;
    &&& start == WORD_SIZE
    &&& 2 <= n_classes
    &&& 1 <= ns
    &&& 1 <= nm
    &&& spec_next_pow2(MULTIPLE + MULTIPLE * (ns - 1) + 1) * vstd::arithmetic::power2::pow2(
        (nm - 1) as nat,
    ) <= ELFMALLOC_PAGE_SIZE / 2
}

/// The full size-class table: a distinguished word-sized class, the
/// multiples-of-16 run, and the powers-of-two run.
pub struct TieredSizeClasses {
    pub word_objs: Option<Cache>,
    pub small_objs: Multiples,
    pub medium_objs: PowersOfTwo,
}

impl TieredSizeClasses {
    /// The shape of the table: the word class is present (the platform's
    /// minimum alignment is the word size), the multiples start at 16, and
    /// the powers of two pick up exactly where the multiples stop.
    pub open spec fn structure_wf(self) -> bool {
        &&& self.word_objs is Some
        &&& self.word_objs.unwrap().object_size == WORD_SIZE
        &&& self.word_objs.unwrap().class_wf()
        &&& self.small_objs.structure_wf()
        &&& self.medium_objs.structure_wf()
        &&& self.small_objs.starting_size == MULTIPLE
        &&& self.medium_objs.starting_size == spec_next_pow2(self.small_objs.max_size + 1)
    }

    /// The table and every cache in it are consistent with the heap.
    pub open spec fn wf(self, m: HeapModel) -> bool {
        &&& self.structure_wf()
        &&& self.word_objs.unwrap().wf(m)
        &&& self.small_objs.wf(m)
        &&& self.medium_objs.wf(m)
    }

    /// The numbers that determine every class size of the table.  Two tables
    /// with equal geometry serve every request with the same class.
    pub open spec fn geometry(self) -> (int, int, int, int, int, int) {
        (
            self.small_objs.starting_size as int,
            self.small_objs.classes.len() as int,
            self.small_objs.max_size as int,
            self.medium_objs.starting_size as int,
            self.medium_objs.classes.len() as int,
            self.medium_objs.max_size as int,
        )
    }

    /// The size of the largest class.
    pub open spec fn spec_max_key(self) -> int {
        self.medium_objs.max_size as int
    }

    /// The class that serves a request of `n` bytes: the word class up to the
    /// word size, the smallest multiple of 16 through the small run, and the
    /// smallest power of two through the medium run.
    pub open spec fn class_size_for(self, n: int) -> int {
        if n <= WORD_SIZE {
            WORD_SIZE as int
        } else if n <= self.small_objs.max_size {
            round_up16_spec(n)
        } else if spec_next_pow2(n) >= self.medium_objs.starting_size {
            spec_next_pow2(n)
        } else {
            self.medium_objs.starting_size as int
        }
    }

    /// Whether `s` is the exact size of one of the table's classes.
    pub open spec fn is_class_size(self, s: int) -> bool {
        ||| s == WORD_SIZE
        ||| (self.small_objs.starting_size <= s <= self.small_objs.max_size && s % (
        MULTIPLE as int) == 0)
        ||| (self.medium_objs.starting_size <= s <= self.medium_objs.max_size && is_pow2(s))
    }

    /// Build the table for a plan of `n_classes` classes starting at `start`
    /// bytes: the small run gets `spec_n_small` classes, the medium run the
    /// rest, and the word class is built last, exactly as the constructor is
    /// handed back after the two runs are filled.
    #[verifier::rlimit(100)]
    pub fn init_conserve(start: usize, n_classes: usize) -> (r: TieredSizeClasses)
        requires
            valid_class_plan(start as int, n_classes as int),
        ensures
            r.structure_wf(),
            r.small_objs.classes.len() == spec_n_small(start as int, n_classes as int),
            r.medium_objs.classes.len() == n_classes - spec_n_small(
                start as int,
                n_classes as int,
            ),
            r.small_objs.max_size == MULTIPLE * spec_n_small(start as int, n_classes as int),
            r.spec_max_key() == spec_next_pow2(
                MULTIPLE * spec_n_small(start as int, n_classes as int) + 1,
            ) * vstd::arithmetic::power2::pow2(
                (n_classes - spec_n_small(start as int, n_classes as int) - 1) as nat,
            ),
            forall|m: HeapModel| #[trigger] r.wf(m),
    {
        let n_small = {
            let a = ELFMALLOC_SMALL_CUTOFF / MULTIPLE - start / MULTIPLE;
            let b = n_classes / 2;
            if a < b {
                a
            } else {
                b
            }
        };
        let n_medium = n_classes - n_small;
        proof {
            assert(round_up16_spec(start as int) == MULTIPLE) by {
                crate::num::lemma_align_down(start + 15, 16);
            }
            assert(MULTIPLE + MULTIPLE * (n_small - 1) <= ELFMALLOC_SMALL_CUTOFF);
            crate::num::lemma_next_pow2_props(MULTIPLE + MULTIPLE * (n_small - 1) + 1);
        }
        let small_classes = Multiples::init_conserve(start, n_small);
        let medium_classes = PowersOfTwo::init_conserve(small_classes.max_key() + 1, n_medium);
        let word_objs = Cache::new(WORD_SIZE);
        let r = TieredSizeClasses {
            word_objs: Some(word_objs),
            small_objs: small_classes,
            medium_objs: medium_classes,
        };
        proof {
            assert forall|m: HeapModel| #[trigger] r.wf(m) by {
                assert forall|i: int| 0 <= i < r.small_objs.classes.len() implies (
                #[trigger] r.small_objs.classes@[i]).wf(m) by {}
                assert forall|i: int| 0 <= i < r.medium_objs.classes.len() implies (
                #[trigger] r.medium_objs.classes@[i]).wf(m) by {}
            }
        }
        r
    }

    /// The size of the largest class.
    pub fn max_key(&self) -> (r: usize)
        ensures
            r == self.spec_max_key(),
    {
        self.medium_objs.max_key()
    }

    /// Serve a request of `n` bytes from the class that covers it.
    #[verifier::rlimit(100)]
    pub fn alloc_in_class(&mut self, heap: &mut Heap, n: usize) -> (p: usize)
        requires
            old(self).wf(old(heap)@),
            old(heap)@.wf(),
            1 <= n,
            n <= old(self).spec_max_key(),
            old(heap)@.next_region + 3 * ELFMALLOC_PAGE_SIZE <= usize::MAX,
        ensures
            final(self).wf(final(heap)@),
            final(heap)@.wf(),
            final(self).geometry() == old(self).geometry(),
            !old(heap)@.live.contains_key(p),
            final(heap)@.live == old(heap)@.live.insert(
                p,
                (LiveObject {
                    size: old(self).class_size_for(n as int) as usize,
                    align: class_align(old(self).class_size_for(n as int)) as usize,
                    ty: class_ty(old(self).class_size_for(n as int)),
                }),
            ),
            final(heap)@.bytes == old(heap)@.bytes,
            final(heap)@.headers == old(heap)@.headers,
            forall|k: usize|
                #[trigger] old(heap)@.tags.contains_key(k) ==> final(heap)@.tags.contains_key(k)
                    && final(heap)@.tags[k] == old(heap)@.tags[k],
            forall|k: usize|
                #[trigger] old(heap)@.slabs.contains_key(k) ==> final(heap)@.slabs.contains_key(k)
                    && final(heap)@.slabs[k] == old(heap)@.slabs[k],
            old(heap)@.next_region <= final(heap)@.next_region,
            final(heap)@.next_region <= old(heap)@.next_region + 2 * ELFMALLOC_PAGE_SIZE,
            old(self).is_class_size(old(self).class_size_for(n as int)),
            n <= old(self).class_size_for(n as int),
            !old(heap)@.slabs.contains_key(
                (p - old(self).class_size_for(n as int)) as usize,
            ),
            final(heap)@.live_ok(p, final(heap)@.live[p]),
    {
        let ghost m0 = old(heap)@;
        let ghost cs = old(self).class_size_for(n as int);
        proof {
            crate::num::lemma_pow2_constants();
            lemma_next_pow2_props(n as int);
        }
        let p: usize;
        if n <= WORD_SIZE {
            let c = self.word_objs.as_mut().unwrap();
            p = c.alloc_one(heap);
            proof {
                assert(cs == WORD_SIZE as int);
            }
        } else if n <= self.small_objs.max_key() {
            proof {
                crate::num::lemma_round16_mono(n as int, self.small_objs.max_size as int);
                crate::num::lemma_round16_fixed(self.small_objs.max_size as int);
                crate::num::lemma_align_down(n + 15, 16);
            }
            let i = self.small_objs.get_raw(n);
            let c = &mut self.small_objs.classes[i];
            p = c.alloc_one(heap);
            proof {
                assert(cs == round_up16_spec(n as int));
            }
        } else {
            let i = self.medium_objs.get_raw(n);
            let c = &mut self.medium_objs.classes[i];
            p = c.alloc_one(heap);
        }
        proof {
            let m1 = heap@;
            let obj = LiveObject {
                size: cs as usize,
                align: class_align(cs) as usize,
                ty: class_ty(cs),
            };
            assert(m1.live == m0.live.insert(p, obj));
            assert(m1.object_ok(p, obj.size, obj.align, obj.ty));
            if self.word_objs.unwrap().object_size != cs {
                lemma_cache_wf_after_alloc(
                    self.word_objs.unwrap(),
                    m0,
                    m1,
                    p,
                    obj.size,
                    obj.align,
                    obj.ty,
                );
            }
            assert forall|j: int| 0 <= j < self.small_objs.classes.len() implies (
            #[trigger] self.small_objs.classes@[j]).wf(m1) by {
                if !self.small_objs.classes@[j].wf(m1) {
                    lemma_cache_wf_after_alloc(
                        self.small_objs.classes@[j],
                        m0,
                        m1,
                        p,
                        obj.size,
                        obj.align,
                        obj.ty,
                    );
                }
            }
            assert forall|j: int| 0 <= j < self.medium_objs.classes.len() implies (
            #[trigger] self.medium_objs.classes@[j]).wf(m1) by {
                if !self.medium_objs.classes@[j].wf(m1) {
                    lemma_cache_wf_after_alloc(
                        self.medium_objs.classes@[j],
                        m0,
                        m1,
                        p,
                        obj.size,
                        obj.align,
                        obj.ty,
                    );
                }
            }
            assert(self.word_objs.unwrap().wf(m1)) by {
                if !self.word_objs.unwrap().wf(m1) {
                    lemma_cache_wf_after_alloc(
                        self.word_objs.unwrap(),
                        m0,
                        m1,
                        p,
                        obj.size,
                        obj.align,
                        obj.ty,
                    );
                }
            }
        }
        p
    }

    /// Hand a freed object of exact class size `s` back to the class that
    /// owns it.
    #[verifier::rlimit(100)]
    pub fn free_into_class(&mut self, heap: &mut Heap, s: usize, item: usize)
        requires
            old(self).wf(old(heap)@),
            old(heap)@.wf(),
            old(self).is_class_size(s as int),
            old(heap)@.live.contains_key(item),
            old(heap)@.live[item].size == s,
            old(heap)@.live[item].ty != AllocType::Large,
        ensures
            final(self).wf(final(heap)@),
            final(heap)@.wf(),
            final(self).geometry() == old(self).geometry(),
            final(heap)@ == (HeapModel { live: old(heap)@.live.remove(item), ..old(heap)@ }),
    {
        let ghost m0 = old(heap)@;
        proof {
            crate::num::lemma_pow2_constants();
            assert(m0.live_ok(item, m0.live[item]));
            // The medium run starts strictly above the small run, so the
            // three membership cases of `is_class_size` do not overlap.
            lemma_next_pow2_props(self.small_objs.max_size + 1);
            // The recorded alignment and provenance are functions of the
            // recorded size.
            assert(m0.live[item].align == class_align(s as int));
            assert(m0.live[item].ty == class_ty(s as int));
        }
        if s <= WORD_SIZE {
            let c = self.word_objs.as_mut().unwrap();
            c.free_one(heap, item);
        } else if s <= self.small_objs.max_key() {
            proof {
                crate::num::lemma_round16_fixed(s as int);
            }
            let i = self.small_objs.get_raw(s);
            let c = &mut self.small_objs.classes[i];
            c.free_one(heap, item);
        } else {
            proof {
                lemma_next_pow2_exact(s as int);
            }
            let i = self.medium_objs.get_raw(s);
            let c = &mut self.medium_objs.classes[i];
            c.free_one(heap, item);
        }
        proof {
            let m1 = heap@;
            assert forall|j: int| 0 <= j < self.small_objs.classes.len() implies (
            #[trigger] self.small_objs.classes@[j]).wf(m1) by {
                if !self.small_objs.classes@[j].wf(m1) {
                    lemma_cache_wf_preserved(self.small_objs.classes@[j], m0, m1);
                }
            }
            assert forall|j: int| 0 <= j < self.medium_objs.classes.len() implies (
            #[trigger] self.medium_objs.classes@[j]).wf(m1) by {
                if !self.medium_objs.classes@[j].wf(m1) {
                    lemma_cache_wf_preserved(self.medium_objs.classes@[j], m0, m1);
                }
            }
            assert(self.word_objs.unwrap().wf(m1)) by {
                if !self.word_objs.unwrap().wf(m1) {
                    lemma_cache_wf_preserved(self.word_objs.unwrap(), m0, m1);
                }
            }
        }
    }

    /// Visit every class size once: the word class, then the multiples,
    /// then the powers of two, each run in increasing order.  Used when a
    /// handle's caches are torn down or rebuilt.
    #[verifier::rlimit(100)]
    pub fn class_sizes(&self) -> (sizes: Vec<usize>)
        requires
            self.structure_wf(),
        ensures
            sizes.len() == 1 + self.small_objs.classes.len() + self.medium_objs.classes.len(),
            sizes@[0] == WORD_SIZE,
            forall|i: int|
                0 <= i < self.small_objs.classes.len() ==> sizes@[1 + i]
                    == self.small_objs.classes@[i].object_size,
            forall|j: int|
                0 <= j < self.medium_objs.classes.len() ==> sizes@[1
                    + self.small_objs.classes.len() + j] == self.medium_objs.classes@[j].object_size,
    {
        let mut sizes: Vec<usize> = Vec::new();
        sizes.push(WORD_SIZE);
        let mut i: usize = 0;
        while i < self.small_objs.classes.len()
            invariant
                self.structure_wf(),
                i <= self.small_objs.classes.len(),
                sizes.len() == 1 + i,
                sizes@[0] == WORD_SIZE,
                forall|k: int|
                    0 <= k < i ==> sizes@[1 + k] == self.small_objs.classes@[k].object_size,
            decreases self.small_objs.classes.len() - i,
        {
            sizes.push(self.small_objs.classes[i].object_size);
            i = i + 1;
        }
        let mut j: usize = 0;
        while j < self.medium_objs.classes.len()
            invariant
                self.structure_wf(),
                j <= self.medium_objs.classes.len(),
                sizes.len() == 1 + self.small_objs.classes.len() + j,
                sizes@[0] == WORD_SIZE,
                forall|k: int|
                    0 <= k < self.small_objs.classes.len() ==> sizes@[1 + k]
                        == self.small_objs.classes@[k].object_size,
                forall|k: int|
                    0 <= k < j ==> sizes@[1 + self.small_objs.classes.len() + k]
                        == self.medium_objs.classes@[k].object_size,
            decreases self.medium_objs.classes.len() - j,
        {
            sizes.push(self.medium_objs.classes[j].object_size);
            j = j + 1;
        }
        sizes
    }

    /// A fresh handle's table: the same geometry, with every cache empty, as
    /// cloning a front-end hands each class a new cache over the shared page
    /// sources.
    #[verifier::rlimit(100)]
    pub fn clone_fresh(&self) -> (r: TieredSizeClasses)
        requires
            self.structure_wf(),
        ensures
            r.structure_wf(),
            r.geometry() == self.geometry(),
            forall|m: HeapModel| #[trigger] r.wf(m),
    {
        proof {
            crate::num::lemma_pow2_constants();
        }
        let mut small: Vec<Cache> = Vec::new();
        let mut i: usize = 0;
        while i < self.small_objs.classes.len()
            invariant
                self.structure_wf(),
                i <= self.small_objs.classes.len(),
                small.len() == i,
                forall|j: int|
                    0 <= j < i ==> (#[trigger] small@[j]).object_size
                        == self.small_objs.classes@[j].object_size && small@[j].class_wf()
                        && small@[j].free_list@.len() == 0,
            decreases self.small_objs.classes.len() - i,
        {
            let c = Cache::new(self.small_objs.classes[i].object_size);
            small.push(c);
            i = i + 1;
        }
        let mut medium: Vec<Cache> = Vec::new();
        let mut j: usize = 0;
        while j < self.medium_objs.classes.len()
            invariant
                self.structure_wf(),
                j <= self.medium_objs.classes.len(),
                medium.len() == j,
                forall|k: int|
                    0 <= k < j ==> (#[trigger] medium@[k]).object_size
                        == self.medium_objs.classes@[k].object_size && medium@[k].class_wf()
                        && medium@[k].free_list@.len() == 0,
            decreases self.medium_objs.classes.len() - j,
        {
            let c = Cache::new(self.medium_objs.classes[j].object_size);
            medium.push(c);
            j = j + 1;
        }
        let word = Cache::new(WORD_SIZE);
        let r = TieredSizeClasses {
            word_objs: Some(word),
            small_objs: Multiples {
                starting_size: self.small_objs.starting_size,
                max_size: self.small_objs.max_size,
                classes: small,
            },
            medium_objs: PowersOfTwo {
                starting_size: self.medium_objs.starting_size,
                max_size: self.medium_objs.max_size,
                classes: medium,
            },
        };
        proof {
            assert forall|jj: int|
                0 <= jj < r.small_objs.classes.len() implies (
            #[trigger] r.small_objs.classes@[jj]).object_size == r.small_objs.class_size(jj)
                && r.small_objs.classes@[jj].class_wf() by {
                assert(self.small_objs.classes@[jj].object_size == self.small_objs.class_size(jj));
            }
            assert forall|jj: int|
                0 <= jj < r.medium_objs.classes.len() implies (
            #[trigger] r.medium_objs.classes@[jj]).object_size == r.medium_objs.starting_size
                * vstd::arithmetic::power2::pow2(jj as nat) by {
                assert(self.medium_objs.classes@[jj].object_size == self.medium_objs.starting_size
                    * vstd::arithmetic::power2::pow2(jj as nat));
            }
            assert forall|jj: int|
                0 <= jj < r.medium_objs.classes.len() implies is_pow2(
                (#[trigger] r.medium_objs.classes@[jj]).object_size as int,
            ) && r.medium_objs.classes@[jj].class_wf() && r.medium_objs.starting_size
                <= r.medium_objs.classes@[jj].object_size <= r.medium_objs.max_size by {
                assert(is_pow2(self.medium_objs.classes@[jj].object_size as int));
                assert(self.medium_objs.starting_size <= self.medium_objs.classes@[jj].object_size
                    <= self.medium_objs.max_size);
            }
            assert(r.structure_wf());
            assert forall|m: HeapModel| #[trigger] r.wf(m) by {
                assert forall|jj: int| 0 <= jj < r.small_objs.classes.len() implies (
                #[trigger] r.small_objs.classes@[jj]).wf(m) by {}
                assert forall|jj: int| 0 <= jj < r.medium_objs.classes.len() implies (
                #[trigger] r.medium_objs.classes@[jj]).wf(m) by {}
            }
        }
        r
    }
}

/// Every cache of a table stays consistent across a step that keeps slab
/// headers and slab tags in place and does not resurrect parked objects.
pub proof fn lemma_tiered_wf_preserved(ts: TieredSizeClasses, m0: HeapModel, m1: HeapModel)
    requires
        ts.wf(m0),
        m0.next_region <= m1.next_region,
        forall|k: usize|
            #[trigger] m0.tags.contains_key(k) && m0.tags[k] != AllocType::Large
                ==> m1.tags.contains_key(k) && m1.tags[k] == m0.tags[k],
        forall|k: usize|
            #[trigger] m0.slabs.contains_key(k) ==> m1.slabs.contains_key(k) && m1.slabs[k]
                == m0.slabs[k],
        forall|q: usize| #[trigger] m1.live.contains_key(q) ==> m0.live.contains_key(q),
    ensures
        ts.wf(m1),
{
    lemma_cache_wf_preserved(ts.word_objs.unwrap(), m0, m1);
    assert forall|j: int| 0 <= j < ts.small_objs.classes.len() implies (
    #[trigger] ts.small_objs.classes@[j]).wf(m1) by {
        lemma_cache_wf_preserved(ts.small_objs.classes@[j], m0, m1);
    }
    assert forall|j: int| 0 <= j < ts.medium_objs.classes.len() implies (
    #[trigger] ts.medium_objs.classes@[j]).wf(m1) by {
        lemma_cache_wf_preserved(ts.medium_objs.classes@[j], m0, m1);
    }
}

/// Every cache of a table stays consistent when a fresh object enters the
/// live map.
pub proof fn lemma_tiered_wf_after_alloc(
    ts: TieredSizeClasses,
    m0: HeapModel,
    m1: HeapModel,
    p: usize,
    size: usize,
    align: usize,
    ty: AllocType,
)
    requires
        ts.wf(m0),
        m0.next_region <= m1.next_region,
        m1.live == m0.live.insert(p, (LiveObject { size, align, ty })),
        m1.object_ok(p, size, align, ty),
        ty != AllocType::Large ==> !m0.slabs.contains_key((p - size) as usize),
        ty == AllocType::Large || ty == class_ty(size as int),
        forall|k: usize|
            #[trigger] m0.tags.contains_key(k) ==> m1.tags.contains_key(k) && m1.tags[k]
                == m0.tags[k],
        forall|k: usize|
            #[trigger] m0.slabs.contains_key(k) ==> m1.slabs.contains_key(k) && m1.slabs[k]
                == m0.slabs[k],
        forall|k: usize|
            #[trigger] m0.headers.contains_key(k) ==> m1.headers.contains_key(k) && m1.headers[k]
                == m0.headers[k],
    ensures
        ts.wf(m1),
{
    lemma_cache_wf_after_alloc(ts.word_objs.unwrap(), m0, m1, p, size, align, ty);
    assert forall|j: int| 0 <= j < ts.small_objs.classes.len() implies (
    #[trigger] ts.small_objs.classes@[j]).wf(m1) by {
        lemma_cache_wf_after_alloc(ts.small_objs.classes@[j], m0, m1, p, size, align, ty);
    }
    assert forall|j: int| 0 <= j < ts.medium_objs.classes.len() implies (
    #[trigger] ts.medium_objs.classes@[j]).wf(m1) by {
        lemma_cache_wf_after_alloc(ts.medium_objs.classes@[j], m0, m1, p, size, align, ty);
    }
}

} // verus!
