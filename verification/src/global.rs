//! The global front-end: a canonical allocator instance that per-thread
//! handles are cloned from, an idempotent handle teardown that hands the
//! dying thread's caches to a reclamation worker instead of dropping them
//! inline, and the fast-path routing decisions used when thread-local
//! storage is not available (not yet initialized, or already being torn
//! down).

use vstd::prelude::*;

verus! {

use crate::alloc_type::AllocType;
use crate::general::ElfMalloc;
use crate::heap::LiveObject;
use crate::ELFMALLOC_SMALL_CUTOFF;

/// The canonical allocator instance that every per-thread handle is cloned
/// from.
pub struct GlobalAllocProvider {
    pub inner: Option<ElfMalloc>,
}

impl GlobalAllocProvider {
    /// The canonical instance is present and consistent.
    pub open spec fn wf(self) -> bool {
        &&& self.inner is Some
        &&& self.inner.unwrap().wf()
    }

    /// Initialize the canonical instance: the default class plan over a
    /// fresh backing.
    pub fn new() -> (r: GlobalAllocProvider)
        ensures
            r.wf(),
            r.inner.unwrap().live_map() == Map::<usize, LiveObject>::empty(),
            r.inner.unwrap().heap@.bytes == Map::<usize, u8>::empty(),
            r.inner.unwrap().heap@.next_region == crate::HEAP_BASE,
            r.inner.unwrap().handles@.len() == 1,
            r.inner.unwrap().max_size == 1048576,
    {
        GlobalAllocProvider { inner: Some(ElfMalloc::new()) }
    }
}

/// A per-thread handle onto the canonical instance.  Its teardown is
/// idempotent: the host platform has been observed to run a slot's
/// destructor more than once, so only the first call hands the handle over.
pub struct GlobalAllocator {
    pub handle: usize,
    pub dropped: bool,
}

impl GlobalAllocator {
    /// The handle is still usable against the given provider.
    pub open spec fn wf(self, p: GlobalAllocProvider) -> bool {
        &&& !self.dropped
        &&& self.handle != 0
        &&& p.inner.unwrap().valid_handle(self.handle as int)
    }

    /// Tear the handle down, idempotently: the first call retires the
    /// thread's caches through the provider and reports that a retirement
    /// was sent; any further call is a no-op.  Every pointer the family has
    /// handed out stays live.
    pub fn retire(&mut self, provider: &mut GlobalAllocProvider) -> (sent: bool)
        requires
            old(provider).wf(),
            !old(self).dropped ==> old(self).wf(*old(provider)),
        ensures
            final(provider).wf(),
            final(self).dropped,
            final(self).handle == old(self).handle,
            sent == !old(self).dropped,
            old(self).dropped ==> *final(provider) == *old(provider),
            !old(self).dropped ==> {
                &&& !final(provider).inner.unwrap().valid_handle(old(self).handle as int)
                &&& final(provider).inner.unwrap().handles@.len() == old(
                    provider,
                ).inner.unwrap().handles@.len()
                &&& forall|g: int|
                    0 <= g < old(provider).inner.unwrap().handles@.len() && g != old(
                        self,
                    ).handle ==> final(provider).inner.unwrap().handles@[g] == old(
                        provider,
                    ).inner.unwrap().handles@[g]
                &&& final(provider).inner.unwrap().heap == old(provider).inner.unwrap().heap
            },
            final(provider).inner.unwrap().live_map() == old(
                provider,
            ).inner.unwrap().live_map(),
            final(provider).inner.unwrap().heap@.bytes == old(
                provider,
            ).inner.unwrap().heap@.bytes,
    {
        if self.dropped {
            return false;
        }
        let inner = provider.inner.as_mut().unwrap();
        inner.retire_handle(self.handle);
        self.dropped = true;
        true
    }
}

/// Create a fresh per-thread handle by cloning the canonical instance's
/// front-end.
pub fn new_handle(provider: &mut GlobalAllocProvider) -> (g: GlobalAllocator)
    requires
        old(provider).wf(),
    ensures
        final(provider).wf(),
        g.wf(*final(provider)),
        g.handle == old(provider).inner.unwrap().handles@.len(),
        final(provider).inner.unwrap().handles@.len() == old(
            provider,
        ).inner.unwrap().handles@.len() + 1,
        forall|g2: int|
            0 <= g2 < old(provider).inner.unwrap().handles@.len()
                ==> final(provider).inner.unwrap().handles@[g2] == old(
                provider,
            ).inner.unwrap().handles@[g2],
        final(provider).inner.unwrap().heap == old(provider).inner.unwrap().heap,
        final(provider).inner.unwrap().live_map() == old(provider).inner.unwrap().live_map(),
        final(provider).inner.unwrap().heap@.bytes == old(provider).inner.unwrap().heap@.bytes,
{
    let inner = provider.inner.as_mut().unwrap();
    let h = inner.clone_handle();
    GlobalAllocator { handle: h, dropped: false }
}

/// A message to the reclamation worker: a dying thread's handle to retire, a
/// pointer to free on behalf of a thread whose storage is already gone, or a
/// slab page to touch for the dirtying policy.
pub enum Husk {
    Array(GlobalAllocator),
    Ptr(usize),
    Slag(usize),
}

/// Where the public allocation fast path sends a request: through the
/// thread's own handle when its storage is ready; otherwise directly to the
/// large-object path for big requests, or through a transient clone for
/// small ones (thread storage may be mid-initialization, and creating the
/// permanent handle could recurse into the allocator).
#[derive(PartialEq, Eq, Structural, Debug)]
pub enum AllocRoute {
    UseHandle,
    DirectLarge,
    TransientClone,
}

/// Where the public free fast path sends a pointer: through the thread's own
/// handle when its storage is ready; otherwise a direct mapping is unmapped
/// in place, and anything else is sent to the reclamation worker — never
/// allocate or build a handle while thread storage is dying.
#[derive(PartialEq, Eq, Structural, Debug)]
pub enum FreeRoute {
    UseHandle,
    DirectLargeFree,
    SendToWorker,
}

/// The allocation fast-path decision.
pub fn route_alloc(tls_ready: bool, size: usize) -> (r: AllocRoute)
    ensures
        r == (if tls_ready {
            AllocRoute::UseHandle
        } else if size > ELFMALLOC_SMALL_CUTOFF {
            AllocRoute::DirectLarge
        } else {
            AllocRoute::TransientClone
        }),
{
    if tls_ready {
        AllocRoute::UseHandle
    } else if size > ELFMALLOC_SMALL_CUTOFF {
        AllocRoute::DirectLarge
    } else {
        AllocRoute::TransientClone
    }
}

/// The free fast-path decision, given the tag recovered from the pointer.
pub fn route_free(tls_ready: bool, ty: AllocType) -> (r: FreeRoute)
    ensures
        r == (if tls_ready {
            FreeRoute::UseHandle
        } else if ty is Large {
            FreeRoute::DirectLargeFree
        } else {
            FreeRoute::SendToWorker
        }),
{
    if tls_ready {
        FreeRoute::UseHandle
    } else {
        match ty {
            AllocType::Large => FreeRoute::DirectLargeFree,
            AllocType::SmallSlag => FreeRoute::SendToWorker,
            AllocType::BigSlag => FreeRoute::SendToWorker,
        }
    }
}

/// One step of the reclamation worker: retire a dying thread's handle, free
/// a pointer through the worker's own handle, or touch a slab page (the
/// dirtying policy has no observable effect on the model).
pub fn worker_process(provider: &mut GlobalAllocProvider, worker_handle: usize, msg: Husk)
    requires
        old(provider).wf(),
        old(provider).inner.unwrap().valid_handle(worker_handle as int),
        (msg matches Husk::Ptr(p) ==> p == 0 || old(provider).inner.unwrap(
        ).live_map().contains_key(p)),
        (msg matches Husk::Array(g) ==> !g.dropped ==> g.wf(*old(provider))),
    ensures
        final(provider).wf(),
        final(provider).inner.unwrap().live_map() == (match msg {
            Husk::Ptr(p) => if p == 0 {
                old(provider).inner.unwrap().live_map()
            } else {
                old(provider).inner.unwrap().live_map().remove(p)
            },
            _ => old(provider).inner.unwrap().live_map(),
        }),
        (match msg {
            Husk::Array(g) => {
                &&& (!g.dropped ==> !final(provider).inner.unwrap().valid_handle(g.handle as int))
                &&& final(provider).inner.unwrap().handles@.len() == old(
                    provider,
                ).inner.unwrap().handles@.len()
                &&& forall|g2: int|
                    0 <= g2 < old(provider).inner.unwrap().handles@.len() && g2 != g.handle
                        ==> final(provider).inner.unwrap().handles@[g2] == old(
                        provider,
                    ).inner.unwrap().handles@[g2]
            },
            Husk::Ptr(_) => {
                &&& final(provider).inner.unwrap().handles@.len() == old(
                    provider,
                ).inner.unwrap().handles@.len()
                &&& forall|g2: int|
                    0 <= g2 < old(provider).inner.unwrap().handles@.len() ==> ((
                    #[trigger] final(provider).inner.unwrap().handles@[g2]) is Some) == (old(
                        provider,
                    ).inner.unwrap().handles@[g2] is Some)
            },
            Husk::Slag(_) => *final(provider) == *old(provider),
        }),
{
    match msg {
        Husk::Array(g) => {
            let mut g = g;
            let _ = g.retire(provider);
        },
        Husk::Ptr(p) => {
            let inner = provider.inner.as_mut().unwrap();
            inner.free_on(worker_handle, p);
        },
        Husk::Slag(_s) => {},
    }
}

} // verus!
