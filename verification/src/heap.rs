//! The modelled machine: an address space carved into pages, the tag byte at
//! the base of every 2 MiB region, per-page slab metadata, large-object
//! headers, and the written payload bytes.
//!
//! Addresses are plain `usize` values.  The model hands out fresh, aligned
//! page regions from a growing frontier, exactly as the page sources of the
//! allocator obtain aligned batches from the operating system, and records
//! what the real allocator would have written into the memory itself: the tag
//! stamped at each region base, the object size in each slab header, and the
//! sidecar header of each direct mapping.

use vstd::prelude::*;

verus! {

use vstd::arithmetic::power2::is_pow2;
use vstd::hash_map::HashMapWithView;
use crate::alloc_type::AllocType;
use crate::large_alloc::AllocInfo;
use crate::num::{
    align_down, align_down_spec, align_up, lemma_align_down, lemma_align_down_exact,
    lemma_mod_trans, lemma_pow2_constants, lemma_pow2_divides,
};
use crate::{
    ELFMALLOC_PAGE_SIZE, ELFMALLOC_SMALL_CUTOFF, ELFMALLOC_SMALL_PAGE_SIZE, HEAP_BASE,
    OS_PAGE_SIZE, PAGES_PER_GROUP, WORD_SIZE,
};

/// What the allocator knows about one live allocation: the size and alignment
/// its layout reports, and which path produced it.
pub struct LiveObject {
    pub size: usize,
    pub align: usize,
    pub ty: AllocType,
}

/// The mathematical state of the modelled machine.
pub struct HeapModel {
    /// Frontier of the modelled address space: every region handed out so far
    /// lies below it.
    pub next_region: usize,
    /// Base of the 2 MiB group the small page source is currently carving,
    /// or 0 before the first group is mapped.
    pub group_base: usize,
    /// Number of 256 KiB pages of the current group already handed out.
    pub group_used: usize,
    /// The tag byte at the base of each 2 MiB region the allocator produced.
    pub tags: Map<usize, AllocType>,
    /// Object size recorded in the slab header at each page base.
    pub slabs: Map<usize, usize>,
    /// Sidecar header of each direct mapping, at the 2 MiB boundary below the
    /// returned pointer.
    pub headers: Map<usize, AllocInfo>,
    /// Every byte written through the allocator's memory; unwritten memory
    /// reads as zero, as fresh mappings do.
    pub bytes: Map<usize, u8>,
    /// The live allocations: every pointer returned by an allocation and not
    /// yet freed.
    pub live: Map<usize, LiveObject>,
}

impl HeapModel {
    /// A read of modelled memory: unwritten addresses read as zero.
    pub open spec fn read(self, addr: usize) -> u8 {
        if self.bytes.contains_key(addr) {
            self.bytes[addr]
        } else {
            0
        }
    }

    /// The facts the tag byte, the slab header or the sidecar header record
    /// about an object at `p` with layout size `size`, alignment `align` and
    /// provenance `ty`.  They hold of every live object and of every object
    /// parked in a size-class cache, and are exactly what `free` and the
    /// layout query rely on to reclassify `p` from the address alone.
    pub open spec fn object_ok(self, p: usize, size: usize, align: usize, ty: AllocType) -> bool {
        match ty {
            AllocType::SmallSlag => {
                &&& WORD_SIZE <= size < ELFMALLOC_SMALL_CUTOFF
                &&& size % WORD_SIZE == 0
                &&& ((align == size && is_pow2(size as int)) || (align == WORD_SIZE && !is_pow2(
                    size as int,
                )))
                &&& size <= p
                &&& {
                    let pb = (p - size) as usize;
                    &&& HEAP_BASE <= pb
                    &&& pb % ELFMALLOC_SMALL_PAGE_SIZE == 0
                    &&& self.slabs.contains_key(pb)
                    &&& self.slabs[pb] == size
                    &&& self.tags.contains_key(align_down_spec(pb as int, ELFMALLOC_PAGE_SIZE as int) as usize)
                    &&& self.tags[align_down_spec(pb as int, ELFMALLOC_PAGE_SIZE as int) as usize]
                        == AllocType::SmallSlag
                }
                &&& p % ELFMALLOC_SMALL_CUTOFF != 0
                &&& p % align == 0
                &&& p + size <= self.next_region
            },
            AllocType::BigSlag => {
                &&& ELFMALLOC_SMALL_CUTOFF <= size
                &&& size <= ELFMALLOC_PAGE_SIZE / 2
                &&& is_pow2(size as int)
                &&& align == size
                &&& size <= p
                &&& {
                    let pb = (p - size) as usize;
                    &&& HEAP_BASE <= pb
                    &&& pb % ELFMALLOC_PAGE_SIZE == 0
                    &&& self.slabs.contains_key(pb)
                    &&& self.slabs[pb] == size
                    &&& self.tags.contains_key(pb)
                    &&& self.tags[pb] == AllocType::BigSlag
                }
                &&& p % ELFMALLOC_SMALL_CUTOFF == 0
                &&& p % align == 0
                &&& p + size <= self.next_region
            },
            AllocType::Large => {
                &&& 1 <= size
                &&& align == OS_PAGE_SIZE
                &&& HEAP_BASE + ELFMALLOC_PAGE_SIZE <= p
                &&& (p - ELFMALLOC_PAGE_SIZE) % (ELFMALLOC_SMALL_CUTOFF as int) == 0
                &&& p % ELFMALLOC_SMALL_CUTOFF == 0
                &&& {
                    let ha = align_down_spec(p - 1, ELFMALLOC_PAGE_SIZE as int) as usize;
                    &&& self.tags.contains_key(ha)
                    &&& self.tags[ha] == AllocType::Large
                    &&& self.headers.contains_key(ha)
                    &&& self.headers[ha] == (AllocInfo {
                        ty: AllocType::Large,
                        base: (p - ELFMALLOC_PAGE_SIZE) as usize,
                        region_size: (size + ELFMALLOC_PAGE_SIZE) as usize,
                    })
                }
                &&& p + size <= self.next_region
            },
        }
    }

    /// The record a live pointer carries is consistent with what the memory
    /// model holds for it.
    pub open spec fn live_ok(self, p: usize, o: LiveObject) -> bool {
        self.object_ok(p, o.size, o.align, o.ty)
    }

    /// Well-formedness of the modelled machine.
    pub open spec fn wf(self) -> bool {
        &&& HEAP_BASE <= self.next_region
        &&& self.group_used <= PAGES_PER_GROUP
        &&& (self.group_base == 0 ==> self.group_used == PAGES_PER_GROUP)
        &&& (self.group_base != 0 ==> {
            &&& HEAP_BASE <= self.group_base
            &&& self.group_base % ELFMALLOC_PAGE_SIZE == 0
            &&& self.group_base + ELFMALLOC_PAGE_SIZE <= self.next_region
            &&& 1 <= self.group_used
            &&& self.tags.contains_key(self.group_base)
            &&& self.tags[self.group_base] == AllocType::SmallSlag
        })
        &&& forall|k: usize|
            #[trigger] self.tags.contains_key(k) ==> HEAP_BASE <= k < self.next_region && k
                % ELFMALLOC_PAGE_SIZE == 0
        &&& forall|k: usize|
            #[trigger] self.slabs.contains_key(k) ==> HEAP_BASE <= k < self.next_region && k
                % ELFMALLOC_SMALL_PAGE_SIZE == 0
        &&& forall|k: usize|
            #[trigger] self.headers.contains_key(k) ==> HEAP_BASE <= k < self.next_region && k
                % ELFMALLOC_PAGE_SIZE == 0
        // The still-unconsumed tail of the current group holds no slab yet.
        &&& forall|k: usize|
            #[trigger] self.slabs.contains_key(k) ==> !(self.group_base + self.group_used
                * ELFMALLOC_SMALL_PAGE_SIZE <= k < self.group_base + ELFMALLOC_PAGE_SIZE)
        &&& forall|p: usize| #[trigger] self.live.contains_key(p) ==> self.live_ok(p, self.live[p])
    }
}

/// An object's recorded facts survive any step that keeps the existing tag
/// bytes, slab headers and sidecar headers in place and only moves the
/// frontier forward.
pub proof fn lemma_object_ok_preserved(
    m0: HeapModel,
    m1: HeapModel,
    q: usize,
    size: usize,
    align: usize,
    ty: AllocType,
)
    requires
        m0.object_ok(q, size, align, ty),
        m0.next_region <= m1.next_region,
        forall|k: usize|
            #[trigger] m0.tags.contains_key(k) ==> m1.tags.contains_key(k) && m1.tags[k]
                == m0.tags[k],
        forall|k: usize|
            #[trigger] m0.slabs.contains_key(k) ==> m1.slabs.contains_key(k) && m1.slabs[k]
                == m0.slabs[k],
        forall|k: usize|
            #[trigger] m0.headers.contains_key(k) ==> m1.headers.contains_key(k) && m1.headers[k]
                == m0.headers[k],
    ensures
        m1.object_ok(q, size, align, ty),
{
    match ty {
        AllocType::SmallSlag => {
            let pb = (q - size) as usize;
            assert(m0.slabs.contains_key(pb));
            assert(m0.tags.contains_key(
                align_down_spec(pb as int, ELFMALLOC_PAGE_SIZE as int) as usize,
            ));
        },
        AllocType::BigSlag => {
            let pb = (q - size) as usize;
            assert(m0.slabs.contains_key(pb));
            assert(m0.tags.contains_key(pb));
        },
        AllocType::Large => {
            let ha = align_down_spec(q - 1, ELFMALLOC_PAGE_SIZE as int) as usize;
            assert(m0.tags.contains_key(ha));
            assert(m0.headers.contains_key(ha));
        },
    }
}

/// One address carries at most one object record: two sets of recorded facts
/// about the same address agree on size, alignment and provenance.  The
/// address alone pins the page base and the offset inside it, and the tag
/// byte of the region tells the three paths apart.
pub proof fn lemma_object_ok_same_addr(
    m: HeapModel,
    p: usize,
    s1: usize,
    a1: usize,
    t1: AllocType,
    s2: usize,
    a2: usize,
    t2: AllocType,
)
    requires
        m.object_ok(p, s1, a1, t1),
        m.object_ok(p, s2, a2, t2),
    ensures
        s1 == s2,
        a1 == a2,
        t1 == t2,
{
    if t1 is SmallSlag {
        lemma_align_down_exact((p - s1) as int, s1 as int, ELFMALLOC_SMALL_PAGE_SIZE as int);
    }
    if t2 is SmallSlag {
        lemma_align_down_exact((p - s2) as int, s2 as int, ELFMALLOC_SMALL_PAGE_SIZE as int);
    }
    if t1 is BigSlag {
        lemma_align_down_exact((p - s1) as int, s1 as int, ELFMALLOC_PAGE_SIZE as int);
    }
    if t2 is BigSlag {
        lemma_align_down_exact((p - s2) as int, s2 as int, ELFMALLOC_PAGE_SIZE as int);
    }
    match (t1, t2) {
        (AllocType::BigSlag, AllocType::Large) => {
            // The big-slab page base is also the 2 MiB boundary below p - 1,
            // where the direct mapping's tag would sit: the tag byte cannot
            // be both.
            lemma_align_down_exact((p - s1) as int, (s1 - 1) as int, ELFMALLOC_PAGE_SIZE as int);
            assert(m.tags[(p - s1) as usize] == AllocType::BigSlag);
            assert(align_down_spec(p - 1, ELFMALLOC_PAGE_SIZE as int) == p - s1);
            assert(false);
        },
        (AllocType::Large, AllocType::BigSlag) => {
            lemma_align_down_exact((p - s2) as int, (s2 - 1) as int, ELFMALLOC_PAGE_SIZE as int);
            assert(m.tags[(p - s2) as usize] == AllocType::BigSlag);
            assert(align_down_spec(p - 1, ELFMALLOC_PAGE_SIZE as int) == p - s2);
            assert(false);
        },
        _ => {},
    }
}

/// The modelled machine, executable: hash maps stand for what the allocator
/// wrote into memory, and a ghost map tracks which pointers are live.
pub struct Heap {
    pub next_region: usize,
    pub group_base: usize,
    pub group_used: usize,
    pub tags: HashMapWithView<usize, AllocType>,
    pub slabs: HashMapWithView<usize, usize>,
    pub headers: HashMapWithView<usize, AllocInfo>,
    pub bytes: HashMapWithView<usize, u8>,
    pub live: Ghost<Map<usize, LiveObject>>,
}

impl View for Heap {
    type V = HeapModel;

    open spec fn view(&self) -> HeapModel {
        HeapModel {
            next_region: self.next_region,
            group_base: self.group_base,
            group_used: self.group_used,
            tags: self.tags@,
            slabs: self.slabs@,
            headers: self.headers@,
            bytes: self.bytes@,
            live: self.live@,
        }
    }
}

impl Heap {
    /// A fresh machine: nothing mapped, nothing live, the frontier at the
    /// lowest modelled address.
    pub fn new() -> (h: Heap)
        ensures
            h@.wf(),
            h@.live == Map::<usize, LiveObject>::empty(),
            h@.bytes == Map::<usize, u8>::empty(),
            h@.next_region == HEAP_BASE,
    {
        Heap {
            next_region: HEAP_BASE,
            group_base: 0,
            group_used: PAGES_PER_GROUP,
            tags: HashMapWithView::new(),
            slabs: HashMapWithView::new(),
            headers: HashMapWithView::new(),
            bytes: HashMapWithView::new(),
            live: Ghost(Map::empty()),
        }
    }

    /// Read the tag byte stamped at a region base.
    pub fn read_tag(&self, rb: usize) -> (t: AllocType)
        requires
            self@.tags.contains_key(rb),
        ensures
            t == self@.tags[rb],
    {
        *self.tags.get(&rb).unwrap()
    }

    /// Read the object size recorded in the slab header at a page base.
    pub fn slab_size(&self, pb: usize) -> (s: usize)
        requires
            self@.slabs.contains_key(pb),
        ensures
            s == self@.slabs[pb],
    {
        *self.slabs.get(&pb).unwrap()
    }

    /// Mark the object at `p` as no longer live.  The tag byte and slab
    /// header it relied on stay in place: the object is merely handed back to
    /// a cache.
    pub fn retire_object(&mut self, p: usize)
        ensures
            final(self)@ == (HeapModel { live: old(self)@.live.remove(p), ..old(self)@ }),
            old(self)@.wf() ==> final(self)@.wf(),
    {
        proof {
            let m0 = self@;
            self.live@ = m0.live.remove(p);
            if m0.wf() {
                assert forall|q: usize| #[trigger] self@.live.contains_key(q) implies self@.live_ok(
                    q,
                    self@.live[q],
                ) by {
                    assert(m0.live_ok(q, m0.live[q]));
                }
            }
        }
    }

    /// Read one byte of modelled memory; unwritten memory reads as zero.
    pub fn read_byte_at(&self, addr: usize) -> (v: u8)
        ensures
            v == self@.read(addr),
    {
        match self.bytes.get(&addr) {
            Some(v) => *v,
            None => 0,
        }
    }

    /// Write one byte of modelled memory.
    pub fn write_byte_at(&mut self, addr: usize, v: u8)
        ensures
            final(self)@ == (HeapModel { bytes: old(self)@.bytes.insert(addr, v), ..old(self)@ }),
            old(self)@.wf() ==> final(self)@.wf(),
    {
        self.bytes.insert(addr, v);
    }

    /// Copy `len` bytes of modelled memory from `src` to `dst`, as the
    /// reallocation path does when it moves a payload.  The source bytes are
    /// read before anything is written, so the result is exact even for
    /// overlapping ranges.
    pub fn copy_bytes(&mut self, src: usize, dst: usize, len: usize)
        requires
            src + len <= usize::MAX,
            dst + len <= usize::MAX,
        ensures
            final(self)@.next_region == old(self)@.next_region,
            final(self)@.group_base == old(self)@.group_base,
            final(self)@.group_used == old(self)@.group_used,
            final(self)@.tags == old(self)@.tags,
            final(self)@.slabs == old(self)@.slabs,
            final(self)@.headers == old(self)@.headers,
            final(self)@.live == old(self)@.live,
            forall|i: int|
                0 <= i < len ==> #[trigger] final(self)@.read((dst + i) as usize) == old(
                    self,
                )@.read((src + i) as usize),
            forall|k: usize|
                !(dst <= k < dst + len) ==> final(self)@.read(k) == old(self)@.read(k),
            old(self)@.wf() ==> final(self)@.wf(),
    {
        let mut buf: Vec<u8> = Vec::new();
        let mut i: usize = 0;
        while i < len
            invariant
                i <= len,
                src + len <= usize::MAX,
                dst + len <= usize::MAX,
                buf.len() == i,
                forall|j: int| 0 <= j < i ==> buf[j] == old(self)@.read((src + j) as usize),
                *self == *old(self),
            decreases len - i,
        {
            let b = self.read_byte_at(src + i);
            buf.push(b);
            i = i + 1;
        }
        let mut j: usize = 0;
        while j < len
            invariant
                j <= len,
                src + len <= usize::MAX,
                dst + len <= usize::MAX,
                buf.len() == len,
                forall|k: int| 0 <= k < len ==> buf[k] == old(self)@.read((src + k) as usize),
                self@.next_region == old(self)@.next_region,
                self@.group_base == old(self)@.group_base,
                self@.group_used == old(self)@.group_used,
                self@.tags == old(self)@.tags,
                self@.slabs == old(self)@.slabs,
                self@.headers == old(self)@.headers,
                self@.live == old(self)@.live,
                forall|k: int| 0 <= k < j ==> self@.read((dst + k) as usize) == buf[k],
                forall|k: usize| !(dst <= k < dst + j) ==> self@.read(k) == old(self)@.read(k),
            decreases len - j,
        {
            self.bytes.insert(dst + j, buf[j]);
            j = j + 1;
        }
        proof {
            assert forall|i: int|
                0 <= i < len implies #[trigger] self@.read((dst + i) as usize) == old(self)@.read(
                (src + i) as usize,
            ) by {
                assert(self@.read((dst + i) as usize) == buf[i]);
            }
            if old(self)@.wf() {
                assert forall|p: usize| #[trigger] self@.live.contains_key(p) implies self@.live_ok(
                    p,
                    self@.live[p],
                ) by {
                    assert(old(self)@.live_ok(p, old(self)@.live[p]));
                }
            }
        }
    }

    /// Hand out the next fresh 256 KiB page of the small page source,
    /// mapping and tag-stamping a fresh 2 MiB group when the current one is
    /// used up.  The page is unused: no slab header has been written to it
    /// yet.
    fn fresh_small_page(&mut self) -> (pb: usize)
        requires
            old(self)@.wf(),
            old(self)@.next_region + 3 * ELFMALLOC_PAGE_SIZE <= usize::MAX,
        ensures
            final(self)@.wf(),
            final(self)@.slabs == old(self)@.slabs,
            final(self)@.headers == old(self)@.headers,
            final(self)@.bytes == old(self)@.bytes,
            final(self)@.live == old(self)@.live,
            forall|k: usize|
                #[trigger] old(self)@.tags.contains_key(k) ==> final(self)@.tags.contains_key(k)
                    && final(self)@.tags[k] == old(self)@.tags[k],
            old(self)@.next_region <= final(self)@.next_region,
            final(self)@.next_region <= old(self)@.next_region + 2 * ELFMALLOC_PAGE_SIZE,
            pb % ELFMALLOC_SMALL_PAGE_SIZE == 0,
            HEAP_BASE <= pb,
            pb + ELFMALLOC_SMALL_PAGE_SIZE <= final(self)@.next_region,
            !old(self)@.slabs.contains_key(pb),
            final(self)@.tags.contains_key(
                align_down_spec(pb as int, ELFMALLOC_PAGE_SIZE as int) as usize,
            ),
            final(self)@.tags[align_down_spec(pb as int, ELFMALLOC_PAGE_SIZE as int) as usize]
                == AllocType::SmallSlag,
            // The page is off the unconsumed tail of the current group, so a
            // slab header may be written to it without breaking the heap.
            !(final(self)@.group_base + final(self)@.group_used * ELFMALLOC_SMALL_PAGE_SIZE <= pb
                < final(self)@.group_base + ELFMALLOC_PAGE_SIZE),
    {
        proof {
            lemma_pow2_constants();
            lemma_pow2_divides(ELFMALLOC_SMALL_PAGE_SIZE as int, ELFMALLOC_PAGE_SIZE as int);
        }
        if self.group_used < PAGES_PER_GROUP {
            let pb = self.group_base + self.group_used * ELFMALLOC_SMALL_PAGE_SIZE;
            self.group_used = self.group_used + 1;
            proof {
                lemma_mod_trans(
                    self.group_base as int,
                    ELFMALLOC_PAGE_SIZE as int,
                    ELFMALLOC_SMALL_PAGE_SIZE as int,
                );
                assert(pb % ELFMALLOC_SMALL_PAGE_SIZE == 0) by {
                    let g: int = self.group_used - 1;
                    assert(g * ELFMALLOC_SMALL_PAGE_SIZE % (ELFMALLOC_SMALL_PAGE_SIZE as int)
                        == 0) by {
                        vstd::arithmetic::div_mod::lemma_mod_multiples_basic(
                            g,
                            ELFMALLOC_SMALL_PAGE_SIZE as int,
                        );
                    }
                    vstd::arithmetic::div_mod::lemma_add_mod_noop(
                        self.group_base as int,
                        g * ELFMALLOC_SMALL_PAGE_SIZE,
                        ELFMALLOC_SMALL_PAGE_SIZE as int,
                    );
                    vstd::arithmetic::div_mod::lemma_mod_self_0(ELFMALLOC_SMALL_PAGE_SIZE as int);
                    vstd::arithmetic::div_mod::lemma_small_mod(0nat, ELFMALLOC_SMALL_PAGE_SIZE as nat);
                }
                lemma_align_down_exact(
                    self.group_base as int,
                    pb - self.group_base,
                    ELFMALLOC_PAGE_SIZE as int,
                );
                assert(!old(self)@.slabs.contains_key(pb));
                assert(self@.wf()) by {
                    let m0 = old(self)@;
                    assert forall|k: usize| #[trigger] self@.tags.contains_key(k) implies HEAP_BASE
                        <= k < self@.next_region && k % ELFMALLOC_PAGE_SIZE == 0 by {
                        assert(m0.tags.contains_key(k));
                    }
                    assert forall|k: usize| #[trigger] self@.slabs.contains_key(k) implies HEAP_BASE
                        <= k < self@.next_region && k % ELFMALLOC_SMALL_PAGE_SIZE == 0 by {
                        assert(m0.slabs.contains_key(k));
                    }
                    assert forall|k: usize| #[trigger] self@.headers.contains_key(k) implies
                        HEAP_BASE <= k < self@.next_region && k % ELFMALLOC_PAGE_SIZE == 0 by {
                        assert(m0.headers.contains_key(k));
                    }
                    assert forall|k: usize| #[trigger] self@.slabs.contains_key(k) implies !(
                        self@.group_base + self@.group_used * ELFMALLOC_SMALL_PAGE_SIZE <= k
                        < self@.group_base + ELFMALLOC_PAGE_SIZE) by {
                        assert(m0.slabs.contains_key(k));
                    }
                    assert forall|q: usize| #[trigger] self@.live.contains_key(q) implies
                        self@.live_ok(q, self@.live[q]) by {
                        assert(m0.live.contains_key(q) && m0.live_ok(q, m0.live[q]));
                        lemma_object_ok_preserved(
                            m0,
                            self@,
                            q,
                            m0.live[q].size,
                            m0.live[q].align,
                            m0.live[q].ty,
                        );
                    }
                }
            }
            pb
        } else {
            // Map a fresh 2 MiB-aligned group and stamp its tag byte.
            let gb = align_up(self.next_region, ELFMALLOC_PAGE_SIZE);
            self.tags.insert(gb, AllocType::SmallSlag);
            self.next_region = gb + ELFMALLOC_PAGE_SIZE;
            self.group_base = gb;
            self.group_used = 1;
            proof {
                lemma_mod_trans(
                    gb as int,
                    ELFMALLOC_PAGE_SIZE as int,
                    ELFMALLOC_SMALL_PAGE_SIZE as int,
                );
                lemma_align_down_exact(gb as int, 0, ELFMALLOC_PAGE_SIZE as int);
                let m0 = old(self)@;
                assert(!m0.tags.contains_key(gb)) by {
                    if m0.tags.contains_key(gb) {
                    }
                }
                assert forall|k: usize| #[trigger] m0.tags.contains_key(k) implies
                    self@.tags.contains_key(k) && self@.tags[k] == m0.tags[k] by {}
                assert(self@.wf()) by {
                    assert forall|k: usize| #[trigger] self@.tags.contains_key(k) implies HEAP_BASE
                        <= k < self@.next_region && k % ELFMALLOC_PAGE_SIZE == 0 by {
                        if k != gb {
                            assert(m0.tags.contains_key(k));
                        }
                    }
                    assert forall|k: usize| #[trigger] self@.slabs.contains_key(k) implies HEAP_BASE
                        <= k < self@.next_region && k % ELFMALLOC_SMALL_PAGE_SIZE == 0 by {
                        assert(m0.slabs.contains_key(k));
                    }
                    assert forall|k: usize| #[trigger] self@.headers.contains_key(k) implies
                        HEAP_BASE <= k < self@.next_region && k % ELFMALLOC_PAGE_SIZE == 0 by {
                        assert(m0.headers.contains_key(k));
                    }
                    assert forall|k: usize| #[trigger] self@.slabs.contains_key(k) implies !(
                        self@.group_base + self@.group_used * ELFMALLOC_SMALL_PAGE_SIZE <= k
                        < self@.group_base + ELFMALLOC_PAGE_SIZE) by {
                        assert(m0.slabs.contains_key(k));
                    }
                    assert forall|q: usize| #[trigger] self@.live.contains_key(q) implies
                        self@.live_ok(q, self@.live[q]) by {
                        assert(m0.live.contains_key(q) && m0.live_ok(q, m0.live[q]));
                        lemma_object_ok_preserved(
                            m0,
                            self@,
                            q,
                            m0.live[q].size,
                            m0.live[q].align,
                            m0.live[q].ty,
                        );
                    }
                }
            }
            gb
        }
    }

    /// Carve one small object of the given class out of the small page
    /// source: take a fresh 256 KiB page, record the object size in the
    /// page's slab header, and return the object's address one object into
    /// the page.
    pub fn alloc_small_object(&mut self, size: usize, align: usize) -> (p: usize)
        requires
            old(self)@.wf(),
            WORD_SIZE <= size < ELFMALLOC_SMALL_CUTOFF,
            size % WORD_SIZE == 0,
            (align == size && is_pow2(size as int)) || (align == WORD_SIZE && !is_pow2(size as int)),
            old(self)@.next_region + 3 * ELFMALLOC_PAGE_SIZE <= usize::MAX,
        ensures
            final(self)@.wf(),
            !old(self)@.live.contains_key(p),
            final(self)@.live == old(self)@.live.insert(
                p,
                (LiveObject { size, align, ty: AllocType::SmallSlag }),
            ),
            final(self)@.bytes == old(self)@.bytes,
            final(self)@.headers == old(self)@.headers,
            forall|k: usize|
                #[trigger] old(self)@.tags.contains_key(k) ==> final(self)@.tags.contains_key(k)
                    && final(self)@.tags[k] == old(self)@.tags[k],
            forall|k: usize|
                #[trigger] old(self)@.slabs.contains_key(k) ==> final(self)@.slabs.contains_key(k)
                    && final(self)@.slabs[k] == old(self)@.slabs[k],
            old(self)@.next_region <= final(self)@.next_region,
            final(self)@.next_region <= old(self)@.next_region + 2 * ELFMALLOC_PAGE_SIZE,
            final(self)@.live_ok(p, (LiveObject { size, align, ty: AllocType::SmallSlag })),
            !old(self)@.slabs.contains_key((p - size) as usize),
            p % ELFMALLOC_SMALL_PAGE_SIZE == size,
    {
        let pb = self.fresh_small_page();
        let ghost m1 = self@;
        self.slabs.insert(pb, size);
        let p = pb + size;
        proof {
            lemma_pow2_constants();
            // The object offset keeps the returned pointer off every 64 KiB
            // boundary and on its own alignment.
            lemma_align_down_exact(pb as int, size as int, ELFMALLOC_SMALL_PAGE_SIZE as int);
            lemma_pow2_divides(ELFMALLOC_SMALL_CUTOFF as int, ELFMALLOC_SMALL_PAGE_SIZE as int);
            lemma_align_down_exact(pb as int, size as int, ELFMALLOC_SMALL_CUTOFF as int);
            assert(size % align == 0 && pb % align == 0) by {
                if align == size {
                    vstd::arithmetic::div_mod::lemma_mod_self_0(align as int);
                    lemma_pow2_divides(align as int, ELFMALLOC_SMALL_PAGE_SIZE as int);
                } else {
                    lemma_pow2_divides(WORD_SIZE as int, ELFMALLOC_SMALL_PAGE_SIZE as int);
                }
                lemma_mod_trans(pb as int, ELFMALLOC_SMALL_PAGE_SIZE as int, align as int);
            }
            assert(p % align == 0) by {
                vstd::arithmetic::div_mod::lemma_add_mod_noop(pb as int, size as int, align as int);
                vstd::arithmetic::div_mod::lemma_small_mod(0nat, align as nat);
            }
            let m0 = old(self)@;
            let obj = LiveObject { size, align, ty: AllocType::SmallSlag };
            assert(!m0.live.contains_key(p)) by {
                if m0.live.contains_key(p) {
                    let o = m0.live[p];
                    assert(m0.live_ok(p, o));
                    match o.ty {
                        AllocType::SmallSlag => {
                            lemma_align_down_exact(
                                (p - o.size) as int,
                                o.size as int,
                                ELFMALLOC_SMALL_PAGE_SIZE as int,
                            );
                            // Same 256 KiB offset forces the same size, hence
                            // the same page, which was still unmapped.
                            assert(o.size == size);
                            assert(m0.slabs.contains_key((p - size) as usize));
                        },
                        AllocType::BigSlag => {
                            assert(p % ELFMALLOC_SMALL_CUTOFF == 0);
                        },
                        AllocType::Large => {
                            assert(p % ELFMALLOC_SMALL_CUTOFF == 0);
                        },
                    }
                }
            }
            self.live@ = m0.live.insert(p, obj);
            assert forall|k: usize| #[trigger] m1.slabs.contains_key(k) implies
                self@.slabs.contains_key(k) && self@.slabs[k] == m1.slabs[k] by {
                assert(k != pb);
            }
            assert(self@.live_ok(p, obj));
            assert(self@.wf()) by {
                assert forall|k: usize| #[trigger] self@.tags.contains_key(k) implies HEAP_BASE <= k
                    < self@.next_region && k % ELFMALLOC_PAGE_SIZE == 0 by {
                    assert(m1.tags.contains_key(k));
                }
                assert forall|k: usize| #[trigger] self@.slabs.contains_key(k) implies HEAP_BASE
                    <= k < self@.next_region && k % ELFMALLOC_SMALL_PAGE_SIZE == 0 by {
                    if k != pb {
                        assert(m1.slabs.contains_key(k));
                    }
                }
                assert forall|k: usize| #[trigger] self@.headers.contains_key(k) implies HEAP_BASE
                    <= k < self@.next_region && k % ELFMALLOC_PAGE_SIZE == 0 by {
                    assert(m1.headers.contains_key(k));
                }
                assert forall|k: usize| #[trigger] self@.slabs.contains_key(k) implies !(
                    self@.group_base + self@.group_used * ELFMALLOC_SMALL_PAGE_SIZE <= k
                    < self@.group_base + ELFMALLOC_PAGE_SIZE) by {
                    if k != pb {
                        assert(m1.slabs.contains_key(k));
                    }
                }
                assert forall|q: usize| #[trigger] self@.live.contains_key(q) implies self@.live_ok(
                    q,
                    self@.live[q],
                ) by {
                    if q != p {
                        assert(m1.live.contains_key(q) && m1.live_ok(q, m1.live[q]));
                        lemma_object_ok_preserved(
                            m1,
                            self@,
                            q,
                            m1.live[q].size,
                            m1.live[q].align,
                            m1.live[q].ty,
                        );
                    }
                }
            }
        }
        p
    }

    /// Carve one medium object of the given power-of-two class out of the
    /// large page source: map a fresh 2 MiB page, stamp its tag, record the
    /// object size in its slab header, and return the size-aligned address
    /// one object into the page.
    pub fn alloc_medium_object(&mut self, size: usize) -> (p: usize)
        requires
            old(self)@.wf(),
            ELFMALLOC_SMALL_CUTOFF <= size,
            size <= ELFMALLOC_PAGE_SIZE / 2,
            is_pow2(size as int),
            old(self)@.next_region + 3 * ELFMALLOC_PAGE_SIZE <= usize::MAX,
        ensures
            final(self)@.wf(),
            !old(self)@.live.contains_key(p),
            final(self)@.live == old(self)@.live.insert(
                p,
                (LiveObject { size, align: size, ty: AllocType::BigSlag }),
            ),
            final(self)@.bytes == old(self)@.bytes,
            final(self)@.headers == old(self)@.headers,
            forall|k: usize|
                #[trigger] old(self)@.tags.contains_key(k) ==> final(self)@.tags.contains_key(k)
                    && final(self)@.tags[k] == old(self)@.tags[k],
            forall|k: usize|
                #[trigger] old(self)@.slabs.contains_key(k) ==> final(self)@.slabs.contains_key(k)
                    && final(self)@.slabs[k] == old(self)@.slabs[k],
            old(self)@.next_region <= final(self)@.next_region,
            final(self)@.next_region <= old(self)@.next_region + 2 * ELFMALLOC_PAGE_SIZE,
            final(self)@.live_ok(p, (LiveObject { size, align: size, ty: AllocType::BigSlag })),
            !old(self)@.slabs.contains_key((p - size) as usize),
            p % ELFMALLOC_PAGE_SIZE == size,
    {
        proof {
            lemma_pow2_constants();
        }
        let pb = align_up(self.next_region, ELFMALLOC_PAGE_SIZE);
        self.tags.insert(pb, AllocType::BigSlag);
        self.slabs.insert(pb, size);
        self.next_region = pb + ELFMALLOC_PAGE_SIZE;
        let p = pb + size;
        proof {
            lemma_mod_trans(pb as int, ELFMALLOC_PAGE_SIZE as int, ELFMALLOC_SMALL_PAGE_SIZE as int);
            lemma_pow2_divides(ELFMALLOC_SMALL_PAGE_SIZE as int, ELFMALLOC_PAGE_SIZE as int);
            lemma_align_down_exact(pb as int, size as int, ELFMALLOC_PAGE_SIZE as int);
            assert(p % size == 0) by {
                lemma_pow2_divides(size as int, ELFMALLOC_PAGE_SIZE as int);
                lemma_mod_trans(pb as int, ELFMALLOC_PAGE_SIZE as int, size as int);
                vstd::arithmetic::div_mod::lemma_add_mod_noop(pb as int, size as int, size as int);
                vstd::arithmetic::div_mod::lemma_mod_self_0(size as int);
                vstd::arithmetic::div_mod::lemma_small_mod(0nat, size as nat);
            }
            assert(p % ELFMALLOC_SMALL_CUTOFF == 0) by {
                lemma_pow2_divides(ELFMALLOC_SMALL_CUTOFF as int, size as int);
                lemma_mod_trans(p as int, size as int, ELFMALLOC_SMALL_CUTOFF as int);
            }
            let m0 = old(self)@;
            let obj = LiveObject { size, align: size, ty: AllocType::BigSlag };
            assert(!m0.live.contains_key(p)) by {
                if m0.live.contains_key(p) {
                    let o = m0.live[p];
                    assert(m0.live_ok(p, o));
                    // Every old object ends below the old frontier, but the
                    // fresh page starts at or above it.
                    assert(p + o.size <= m0.next_region);
                    assert(m0.next_region <= pb);
                    assert(o.size >= 1);
                }
            }
            self.live@ = m0.live.insert(p, obj);
            assert(!m0.tags.contains_key(pb)) by {
                if m0.tags.contains_key(pb) {
                }
            }
            assert(!m0.slabs.contains_key(pb)) by {
                if m0.slabs.contains_key(pb) {
                }
            }
            assert forall|k: usize| #[trigger] m0.tags.contains_key(k) implies
                self@.tags.contains_key(k) && self@.tags[k] == m0.tags[k] by {}
            assert forall|k: usize| #[trigger] m0.slabs.contains_key(k) implies
                self@.slabs.contains_key(k) && self@.slabs[k] == m0.slabs[k] by {}
            assert(self@.live_ok(p, obj));
            assert(self@.wf()) by {
                assert forall|k: usize| #[trigger] self@.tags.contains_key(k) implies HEAP_BASE <= k
                    < self@.next_region && k % ELFMALLOC_PAGE_SIZE == 0 by {
                    if k != pb {
                        assert(m0.tags.contains_key(k));
                    }
                }
                assert forall|k: usize| #[trigger] self@.slabs.contains_key(k) implies HEAP_BASE
                    <= k < self@.next_region && k % ELFMALLOC_SMALL_PAGE_SIZE == 0 by {
                    if k != pb {
                        assert(m0.slabs.contains_key(k));
                    }
                }
                assert forall|k: usize| #[trigger] self@.headers.contains_key(k) implies HEAP_BASE
                    <= k < self@.next_region && k % ELFMALLOC_PAGE_SIZE == 0 by {
                    assert(m0.headers.contains_key(k));
                }
                assert forall|k: usize| #[trigger] self@.slabs.contains_key(k) implies !(
                    self@.group_base + self@.group_used * ELFMALLOC_SMALL_PAGE_SIZE <= k
                    < self@.group_base + ELFMALLOC_PAGE_SIZE) by {
                    if k != pb {
                        assert(m0.slabs.contains_key(k));
                    }
                }
                assert forall|q: usize| #[trigger] self@.live.contains_key(q) implies self@.live_ok(
                    q,
                    self@.live[q],
                ) by {
                    if q != p {
                        assert(m0.live.contains_key(q) && m0.live_ok(q, m0.live[q]));
                        lemma_object_ok_preserved(
                            m0,
                            self@,
                            q,
                            m0.live[q].size,
                            m0.live[q].align,
                            m0.live[q].ty,
                        );
                    }
                }
            }
        }
        p
    }
}

} // verus!
