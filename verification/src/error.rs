//! Errors reported by the layers above the buffer pool.

use vstd::prelude::*;

verus! {

/// Why a storage iterator could not advance.
#[derive(Debug, Clone, Copy, PartialEq, Eq, Structural)]
pub enum Error {
    /// Every frame of the buffer pool is pinned, so the next page cannot be
    /// brought into memory.
    PoolExhausted,
}

} // verus!
