//! The one-byte discriminator stamped at the base of every 2 MiB region the
//! allocator produces.

use vstd::prelude::*;

verus! {

/// Which path produced a pointer: a 256 KiB small-slab page, a 2 MiB
/// big-slab page, or a direct mapping.  For any returned pointer `p`, the
/// byte at the 2 MiB boundary at or below `p - 1` is one of these.
#[derive(Clone, Copy, PartialEq, Eq, Structural, Debug)]
pub enum AllocType {
    SmallSlag,
    BigSlag,
    Large,
}

} // verus!
