//! Interfaces for allocators of fixed-size objects, as consumed by the
//! size-class caches: a typed flavour, an untyped flavour reporting its
//! layout, and the error raised when an allocator cannot serve a request
//! without new backing memory.

use vstd::prelude::*;

verus! {

use crate::size_classes::Cache;

/// An error indicating that no memory is available.
///
/// The error strongly implies that some sequence of deallocations would
/// allow a subsequent reissuing of the original allocation request to
/// succeed.
#[derive(Clone, PartialEq, Eq, Structural, Debug)]
pub struct Exhausted;

/// The layout an untyped object allocator serves: every object it returns
/// has at least this size and alignment.
#[derive(Clone, Copy, PartialEq, Eq, Structural, Debug)]
pub struct ObjectLayout {
    pub size: usize,
    pub align: usize,
}

/// Allocators which allocate objects of a particular type.  The address
/// returned stands for storage holding a valid instance of `T`: either the
/// configured initial value, or the state of an object previously handed
/// back through `deallocate`.  This is the typed interface offered to
/// clients that bring their own object allocator; the size-class caches
/// implement the untyped flavour below.
pub trait ObjectAlloc<T> {
    /// Allocate an object of type `T`, or report exhaustion.
    fn allocate(&mut self) -> Result<usize, Exhausted>;

    /// Hand an object previously returned by `allocate` back to the
    /// allocator; it may be cached to serve future allocations.
    fn deallocate(&mut self, x: usize);
}

/// Allocators of fixed-size untyped objects.
pub trait UntypedObjectAlloc {
    /// The layout every returned object satisfies.
    fn layout(&self) -> ObjectLayout;

    /// Allocate one object, or report exhaustion.
    fn allocate(&mut self) -> Result<usize, Exhausted>;

    /// Hand an object previously returned by `allocate` back.
    fn deallocate(&mut self, x: usize);
}

impl UntypedObjectAlloc for Cache {
    /// The class's object size, and its alignment: the size itself for a
    /// power-of-two class, the word size otherwise.
    fn layout(&self) -> (r: ObjectLayout)
        ensures
            r.size == self.object_size,
            r.align == self.align,
    {
        ObjectLayout { size: self.object_size, align: self.align }
    }

    /// Serve one object from the cache alone: pop the most recently freed
    /// object, or report exhaustion when the cache is empty — a standalone
    /// cache has no page source to fall back to, and some sequence of
    /// deallocations would let the request succeed.
    fn allocate(&mut self) -> (r: Result<usize, Exhausted>)
        ensures
            old(self).free_list@.len() == 0 ==> (r == Result::<usize, Exhausted>::Err(Exhausted)
                && final(self).free_list@ == old(self).free_list@ && final(self).object_size == old(
                self,
            ).object_size && final(self).align == old(self).align && final(self).ty == old(
                self,
            ).ty),
            old(self).free_list@.len() > 0 ==> (r == Result::<usize, Exhausted>::Ok(
                old(self).free_list@.last(),
            ) && final(self).free_list@ == old(self).free_list@.drop_last()
                && final(self).object_size == old(self).object_size && final(self).align == old(
                self,
            ).align && final(self).ty == old(self).ty),
    {
        match self.free_list.pop() {
            Some(p) => Ok(p),
            None => Err(Exhausted),
        }
    }

    /// Park one object of this class in the cache.
    fn deallocate(&mut self, x: usize)
        ensures
            final(self).free_list@ == old(self).free_list@.push(x),
            final(self).object_size == old(self).object_size,
            final(self).align == old(self).align,
            final(self).ty == old(self).ty,
    {
        self.free_list.push(x);
    }
}

} // verus!
