//! A verified model of a tiered `malloc`-style dynamic memory allocator.
//!
//! Requests are routed through a dense size-class table (an arithmetic run of
//! multiples of 16 followed by a run of powers of two), each class served by a
//! per-handle cache backed by slab pages, while requests above the largest
//! class go to a direct page-mapped large path with a sidecar header.  Every
//! returned address can be classified again from the address alone, through a
//! one-byte tag stamped at the base of each 2 MiB region the allocator hands
//! out.
//!
//! Machine memory is modelled by plain values: addresses are `usize`, the tag
//! bytes, slab metadata, large-object headers and written payload bytes are
//! finite maps.  The allocator logic — class geometry, tag stamping and
//! recovery, the large-object arithmetic, reallocation, and the handle
//! lifecycle — is executable and verified against that model.
//!
//! The model keeps no memory accounting: its address frontier only grows
//! (each operation's contract bounds the growth), direct mappings are
//! dropped from the maps when unmapped, and objects freed into a class
//! cache stay parked there.  How much of that parked memory the real slab
//! layer would return to the operating system is that out-of-scope
//! component's policy.

use vstd::prelude::*;

pub mod alloc_type;
pub mod general;
pub mod global;
pub mod heap;
pub mod large_alloc;
pub mod laws;
pub mod num;
pub mod object_alloc;
pub mod size_classes;

verus! {

/// Small size classes are spaced this many bytes apart.
pub const MULTIPLE: usize = 16;

/// Natural page size of the large page source: 2 MiB.
pub const ELFMALLOC_PAGE_SIZE: usize = 2097152;

/// Natural page size of the small page source: 256 KiB.
pub const ELFMALLOC_SMALL_PAGE_SIZE: usize = 262144;

/// Size classes at least this large are served from large (2 MiB) pages;
/// classes below it from small (256 KiB) pages.  Also the alignment of every
/// direct mapping: 64 KiB.
pub const ELFMALLOC_SMALL_CUTOFF: usize = 65536;

/// Small pages are carved out of 2 MiB-aligned groups of this many pages.
pub const PAGES_PER_GROUP: usize = 8;

/// Minimum alignment of every returned pointer.
pub const WORD_SIZE: usize = 8;

/// The operating system's page size, reported as the alignment of direct
/// mappings.
pub const OS_PAGE_SIZE: usize = 4096;

/// Lowest address the modelled address space hands out; keeps every returned
/// address distinct from the null address 0.
pub const HEAP_BASE: usize = 2097152;

} // verus!
