//! The in-memory image of one page.

use vstd::prelude::*;
use crate::common::{PageID, INVALID_PAGE_ID, PAGE_SIZE, zero_page};

verus! {

/// One page held in a frame: its bytes and a header describing it.
///
/// A page has no behaviour of its own. The buffer pool fills in the header
/// when it hands the page to a caller; the pool's own bookkeeping never
/// reads it back, so a holder may change any field without harming the pool.
pub struct Page {
    /// Id of the page on disk, or `INVALID_PAGE_ID` for an empty frame.
    pub page_id: PageID,
    /// The page's bytes.
    pub data: [u8; PAGE_SIZE],
    /// Number of holders at the time the page was handed out.
    pub pin_count: i32,
    /// Whether the bytes are known to differ from the copy on disk.
    pub is_dirty: bool,
}

impl Page {
    /// An empty page: no id, zeroed bytes, no holder, clean.
    pub fn new() -> (page: Page)
        ensures
            page.page_id == INVALID_PAGE_ID,
            page.data@ == zero_page(),
            page.pin_count == 0,
            !page.is_dirty,
    {
        let page = Page {
            page_id: INVALID_PAGE_ID,
            data: [0u8; PAGE_SIZE],
            pin_count: 0,
            is_dirty: false,
        };
        assert(page.data@ =~= zero_page());
        page
    }

    /// Zeroes the page's bytes and leaves the header as it is.
    pub fn reset_memory(&mut self)
        ensures
            final(self).data@ == zero_page(),
            final(self).page_id == old(self).page_id,
            final(self).pin_count == old(self).pin_count,
            final(self).is_dirty == old(self).is_dirty,
    {
        self.data = [0u8; PAGE_SIZE];
        assert(self.data@ =~= zero_page());
    }
}

} // verus!
