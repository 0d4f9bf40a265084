//! The global front-end pieces: the canonical provider, per-thread handles
//! with idempotent teardown, the reclamation worker's dispatch, the
//! fast-path routing, and the object-allocator interface of a cache.

use elfmalloc::alloc_type::AllocType;
use elfmalloc::global::{
    new_handle, route_alloc, route_free, worker_process, AllocRoute, FreeRoute,
    GlobalAllocProvider, Husk,
};
use elfmalloc::object_alloc::{Exhausted, ObjectLayout, UntypedObjectAlloc};
use elfmalloc::size_classes::Cache;

#[test]
fn provider_and_handles() {
    let mut provider = GlobalAllocProvider::new();
    let g = new_handle(&mut provider);
    let inner = provider.inner.as_mut().unwrap();
    let p = inner.alloc_on(g.handle, 64);
    // Any handle may free it, including the provider's own.
    inner.free(p);
    let mut g = g;
    assert!(g.retire(&mut provider));
}

#[test]
fn teardown_is_idempotent() {
    let mut provider = GlobalAllocProvider::new();
    let mut g = new_handle(&mut provider);
    assert!(g.retire(&mut provider));
    // A spurious second destructor call is a no-op.
    assert!(!g.retire(&mut provider));
    assert!(g.dropped);
}

#[test]
fn worker_retires_and_frees() {
    let mut provider = GlobalAllocProvider::new();
    let worker = new_handle(&mut provider);
    let dying = new_handle(&mut provider);
    let p = provider.inner.as_mut().unwrap().alloc_on(dying.handle, 128);
    // The dying thread's handle and its orphaned pointer both reach the
    // worker's queue.
    worker_process(&mut provider, worker.handle, Husk::Array(dying));
    worker_process(&mut provider, worker.handle, Husk::Ptr(p));
    worker_process(&mut provider, worker.handle, Husk::Ptr(0));
    worker_process(&mut provider, worker.handle, Husk::Slag(4096));
}

#[test]
fn fast_path_routing() {
    assert_eq!(route_alloc(true, 8), AllocRoute::UseHandle);
    assert_eq!(route_alloc(true, 1 << 21), AllocRoute::UseHandle);
    assert_eq!(route_alloc(false, 8), AllocRoute::TransientClone);
    assert_eq!(route_alloc(false, 65536), AllocRoute::TransientClone);
    assert_eq!(route_alloc(false, 65537), AllocRoute::DirectLarge);

    assert_eq!(route_free(true, AllocType::SmallSlag), FreeRoute::UseHandle);
    assert_eq!(route_free(false, AllocType::Large), FreeRoute::DirectLargeFree);
    assert_eq!(route_free(false, AllocType::SmallSlag), FreeRoute::SendToWorker);
    assert_eq!(route_free(false, AllocType::BigSlag), FreeRoute::SendToWorker);
}

#[test]
fn cache_object_alloc_interface() {
    let mut c = Cache::new(48);
    assert_eq!(c.layout(), ObjectLayout { size: 48, align: 8 });
    // A standalone cache has no page source: it is exhausted until an
    // object is handed back.
    assert_eq!(c.allocate(), Err(Exhausted));
    c.deallocate(0x40030);
    c.deallocate(0x40060);
    assert_eq!(c.allocate(), Ok(0x40060));
    assert_eq!(c.allocate(), Ok(0x40030));
    assert_eq!(c.allocate(), Err(Exhausted));

    let c2 = Cache::new(512);
    assert_eq!(c2.layout(), ObjectLayout { size: 512, align: 512 });
}
