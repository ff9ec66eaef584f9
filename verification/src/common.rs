//! Identifiers and sizes shared by the whole crate.

use vstd::prelude::*;

verus! {

/// Identifier of a page on disk.
pub type PageID = i32;

/// Index of a frame of the buffer pool.
pub type FrameID = i32;

/// The page id of a frame that holds no page.
pub const INVALID_PAGE_ID: PageID = -1;

/// Number of bytes in a page.
pub const PAGE_SIZE: usize = 4096;

/// The contents of a page that was never written: `PAGE_SIZE` zero bytes.
pub open spec fn zero_page() -> Seq<u8> {
    Seq::new(PAGE_SIZE as nat, |i: int| 0u8)
}

} // verus!
