//! A disk of fixed-size pages.

use vstd::prelude::*;
use std::collections::HashMap;
use crate::common::{PageID, PAGE_SIZE, zero_page};

verus! {

/// What a disk holds and what it was asked to do.
pub struct DiskView {
    /// The bytes last written for each page that was ever written.
    pub image: Map<PageID, Seq<u8>>,
    /// Every write the disk has received, oldest first.
    pub writes: Seq<(PageID, Seq<u8>)>,
}

impl DiskView {
    /// A disk that was never written.
    pub open spec fn empty() -> DiskView {
        DiskView { image: Map::empty(), writes: Seq::empty() }
    }

    /// The bytes a read of `page_id` returns: the last image written, or
    /// zeros for a page that was never written.
    pub open spec fn read(self, page_id: PageID) -> Seq<u8> {
        if self.image.contains_key(page_id) {
            self.image[page_id]
        } else {
            zero_page()
        }
    }

    /// The disk after `data` was written as the image of `page_id`.
    pub open spec fn write(self, page_id: PageID, data: Seq<u8>) -> DiskView {
        DiskView {
            image: self.image.insert(page_id, data),
            writes: self.writes.push((page_id, data)),
        }
    }

    /// The number of writes the disk's counter shows: it stops at
    /// `u64::MAX`.
    pub open spec fn counted_writes(self) -> nat {
        if self.writes.len() <= u64::MAX {
            self.writes.len()
        } else {
            u64::MAX as nat
        }
    }
}

/// A disk manager that keeps the page images in memory.
///
/// Both operations are synchronous and cannot fail.
pub struct DiskManager {
    images: HashMap<PageID, [u8; PAGE_SIZE]>,
    num_writes: u64,
    log: Ghost<Seq<(PageID, Seq<u8>)>>,
}

impl View for DiskManager {
    type V = DiskView;

    closed spec fn view(&self) -> DiskView {
        DiskView {
            image: Map::new(
                |page_id: PageID| self.images@.contains_key(page_id),
                |page_id: PageID| self.images@[page_id]@,
            ),
            writes: self.log@,
        }
    }
}

impl DiskManager {
    /// The write counter agrees with the log of writes.
    pub closed spec fn wf(&self) -> bool {
        self.num_writes as nat == self@.counted_writes()
    }

    /// An empty disk.
    pub fn new() -> (disk: DiskManager)
        ensures
            disk.wf(),
            disk@ == DiskView::empty(),
    {
        let disk = DiskManager { images: HashMap::new(), num_writes: 0, log: Ghost(Seq::empty()) };
        assert(disk@.image =~= Map::empty());
        disk
    }

    /// Fills `buffer` with the image of `page_id`.
    pub fn read_page(&self, page_id: PageID, buffer: &mut [u8; PAGE_SIZE])
        ensures
            final(buffer)@ == self@.read(page_id),
    {
        match self.images.get(&page_id) {
            Some(image) => {
                *buffer = *image;
            },
            None => {
                *buffer = [0u8; PAGE_SIZE];
                assert(buffer@ =~= zero_page());
            },
        }
    }

    /// Stores the bytes of `buffer` as the image of `page_id`.
    pub fn write_page(&mut self, page_id: PageID, buffer: &[u8; PAGE_SIZE])
        requires
            old(self).wf(),
        ensures
            final(self).wf(),
            final(self)@ == old(self)@.write(page_id, buffer@),
    {
        self.images.insert(page_id, *buffer);
        if self.num_writes < u64::MAX {
            self.num_writes = self.num_writes + 1;
        }
        proof {
            self.log@ = self.log@.push((page_id, buffer@));
        }
        assert(self@.image =~= old(self)@.image.insert(page_id, buffer@));
    }

    /// How many writes the disk has received, up to `u64::MAX`.
    pub fn num_writes(&self) -> (count: u64)
        requires
            self.wf(),
        ensures
            count as nat == self@.counted_writes(),
    {
        self.num_writes
    }
}

} // verus!
