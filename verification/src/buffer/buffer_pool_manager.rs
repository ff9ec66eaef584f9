//! The buffer pool manager: page-level access to a fixed set of frames.

use vstd::prelude::*;
use std::collections::HashMap;
use std::collections::VecDeque;
use crate::buffer::lru_k_replacer::LRUKReplacer;
use crate::buffer::pool_model::{FrameView, PoolView};
use crate::common::{FrameID, PageID, INVALID_PAGE_ID, zero_page};
use crate::storage::disk_manager::DiskManager;
use crate::storage::page::Page;

verus! {

/// What the pool records of one frame. This record, not the header of the
/// page handed to callers, decides what the pool does.
struct MetaData {
    page_id: PageID,
    pin_count: i32,
    is_dirty: bool,
}

/// The frames as the model sees them: what the pool records of each frame,
/// and the bytes of the page that sits in it.
spec fn frame_views(meta_data: Seq<MetaData>, pages: Seq<Page>) -> Seq<FrameView> {
    Seq::new(
        pages.len(),
        |f: int|
            FrameView {
                page_id: meta_data[f].page_id,
                pin_count: meta_data[f].pin_count as int,
                is_dirty: meta_data[f].is_dirty,
                data: pages[f].data@,
            },
    )
}

/// A pool of frames that caches the pages of a disk.
///
/// The pool is the sole writer of its page table and the sole caller of its
/// disk manager and its replacer. Its state as plain values is its view, a
/// [`PoolView`]; every operation is specified as the matching function of
/// the view.
pub struct BufferPoolManager {
    pool_size: usize,
    next_page_id: PageID,
    disk_manager: DiskManager,
    page_table: HashMap<PageID, FrameID>,
    meta_data: Vec<MetaData>,
    replacer: LRUKReplacer,
    free_list: VecDeque<FrameID>,
    pages: Vec<Page>,
}

impl View for BufferPoolManager {
    type V = PoolView;

    closed spec fn view(&self) -> PoolView {
        PoolView {
            frames: frame_views(self.meta_data@, self.pages@),
            page_table: self.page_table@,
            free_list: self.free_list@,
            replacer: self.replacer@,
            disk: self.disk_manager@,
            next_page_id: self.next_page_id as int,
        }
    }
}

impl BufferPoolManager {
    /// The parts of the pool fit together: one record and one page per
    /// frame, and a replacer and a disk manager that are well-formed.
    pub closed spec fn well_represented(&self) -> bool {
        &&& self.pages.len() == self.pool_size
        &&& self.meta_data.len() == self.pool_size
        &&& self.replacer.wf()
        &&& self.disk_manager.wf()
    }

    /// The pool is in a consistent state: its view satisfies the invariant
    /// of the model, and its parts fit together.
    pub open spec fn wf(&self) -> bool {
        &&& self@.inv()
        &&& self.well_represented()
    }

    /// A pool of `pool_size` empty frames over `disk_manager`, whose
    /// replacer looks `replacer_k` accesses back.
    pub fn new(pool_size: usize, disk_manager: DiskManager, replacer_k: usize) -> (pool:
        BufferPoolManager)
        requires
            pool_size <= i32::MAX,
            replacer_k >= 1,
            disk_manager.wf(),
        ensures
            pool.wf(),
            pool@ == PoolView::new(pool_size as nat, disk_manager@, replacer_k as nat),
    {
        let mut pages: Vec<Page> = Vec::new();
        let mut meta_data: Vec<MetaData> = Vec::new();
        let mut free_list: VecDeque<FrameID> = VecDeque::new();
        let mut i: usize = 0;
        while i < pool_size
            invariant
                i <= pool_size <= i32::MAX,
                pages.len() == i,
                meta_data.len() == i,
                free_list@.len() == i,
                forall|f: int| 0 <= f < i ==> (#[trigger] pages[f]).data@ == zero_page(),
                forall|f: int|
                    0 <= f < i ==> (#[trigger] meta_data[f]).page_id == INVALID_PAGE_ID
                        && meta_data[f].pin_count == 0 && !meta_data[f].is_dirty,
                forall|f: int| 0 <= f < i ==> #[trigger] free_list@[f] == f as FrameID,
            decreases pool_size - i,
        {
            pages.push(Page::new());
            meta_data.push(MetaData { page_id: INVALID_PAGE_ID, pin_count: 0, is_dirty: false });
            free_list.push_back(i as FrameID);
            i += 1;
        }
        let ghost disk = disk_manager@;
        let pool = BufferPoolManager {
            pool_size,
            next_page_id: 0,
            disk_manager,
            page_table: HashMap::new(),
            meta_data,
            replacer: LRUKReplacer::new(pool_size, replacer_k),
            free_list,
            pages,
        };
        proof {
            let model = PoolView::new(pool_size as nat, disk, replacer_k as nat);
            assert(pool@.frames =~= model.frames);
            assert(pool@.free_list =~= model.free_list);
            assert(pool@.page_table =~= model.page_table);
            PoolView::lemma_new_inv(pool_size as nat, disk, replacer_k as nat);
        }
        pool
    }

    /// Hands out the next page id.
    fn allocate_page(&mut self) -> (page_id: PageID)
        requires
            old(self).well_represented(),
            0 <= old(self)@.next_page_id < i32::MAX,
        ensures
            final(self).well_represented(),
            page_id == old(self)@.next_page_id,
            final(self)@ == (PoolView { next_page_id: old(self)@.next_page_id + 1, ..old(self)@ }),
    {
        self.next_page_id = self.next_page_id + 1;
        proof {
            assert(self@.frames =~= old(self)@.frames);
        }
        self.next_page_id - 1
    }

    /// Releases the space of a deleted page on disk. The disk manager keeps
    /// no allocation map, so there is nothing to release.
    fn deallocate_page(&mut self)
        ensures
            *final(self) == *old(self),
    {
    }

    /// Takes the frame that the next page will live in: the head of the free
    /// list, or else the replacer's victim, whose page is written back if it
    /// is dirty and leaves the page table.
    fn acquire_frame(&mut self) -> (frame: Option<FrameID>)
        requires
            old(self).wf(),
        ensures
            final(self).well_represented(),
            frame is Some <==> old(self)@.can_acquire(),
            frame matches Some(f) ==> {
                &&& f as int == old(self)@.next_frame()
                &&& old(self)@.is_frame(f as int)
                &&& final(self)@ == old(self)@.take_frame()
            },
            frame is None ==> final(self)@ == old(self)@,
    {
        if self.free_list.len() > 0 {
            let frame = self.free_list.pop_front();
            proof {
                assert(self@.frames =~= old(self)@.frames);
                assert(old(self)@.is_frame(old(self)@.free_list[0] as int));
            }
            frame
        } else {
            let mut frame_id: FrameID = -1;
            if !self.replacer.evict(&mut frame_id) {
                proof {
                    assert(self@.frames =~= old(self)@.frames);
                }
                return None;
            }
            let f = frame_id as usize;
            let evicted_id = self.meta_data[f].page_id;
            if self.meta_data[f].is_dirty {
                self.disk_manager.write_page(evicted_id, &self.pages[f].data);
            }
            self.page_table.remove(&evicted_id);
            proof {
                assert(self@.frames =~= old(self)@.frames);
                assert(self@.page_table =~= old(self)@.take_frame().page_table);
            }
            Some(frame_id)
        }
    }

    /// Gives frame `frame_id` to page `page_id`, with the bytes the frame
    /// holds: pinned once, clean, known to the page table, accessed just now
    /// and not evictable.
    fn install_page(&mut self, frame_id: FrameID, page_id: PageID)
        requires
            old(self).well_represented(),
            old(self)@.is_frame(frame_id as int),
            old(self)@.replacer.frames.len() == old(self)@.frames.len(),
            old(self)@.replacer.clock < u64::MAX,
        ensures
            final(self).well_represented(),
            final(self)@ == old(self)@.install(
                frame_id as int,
                page_id,
                old(self)@.frames[frame_id as int].data,
            ),
            final(self).pages[frame_id as int].page_id == page_id,
            final(self).pages[frame_id as int].pin_count == 1,
            !final(self).pages[frame_id as int].is_dirty,
            final(self).pages[frame_id as int].data == old(self).pages[frame_id as int].data,
    {
        let f = frame_id as usize;
        self.meta_data[f].page_id = page_id;
        self.meta_data[f].pin_count = 1;
        self.meta_data[f].is_dirty = false;
        self.page_table.insert(page_id, frame_id);
        self.replacer.record_access(frame_id);
        self.replacer.set_evictable(frame_id, false);
        self.pages[f].page_id = page_id;
        self.pages[f].pin_count = 1;
        self.pages[f].is_dirty = false;
        proof {
            let model = old(self)@.install(
                frame_id as int,
                page_id,
                old(self)@.frames[frame_id as int].data,
            );
            assert(self@.frames =~= model.frames);
            assert(self@.page_table =~= model.page_table);
        }
    }

    /// The page in frame `frame_id`, for a holder to read and write. Whatever
    /// the holder writes, the pool stays consistent.
    fn page_handle(&mut self, frame_id: FrameID) -> (page: &mut Page)
        requires
            old(self).wf(),
            old(self)@.is_frame(frame_id as int),
        ensures
            *page == old(self).pages[frame_id as int],
            final(self).wf(),
            final(self)@ == old(self)@.with_data(frame_id as int, final(page).data@),
    {
        proof {
            let model = self@;
            assert forall|p: Page|
                {
                    let frames = #[trigger] frame_views(
                        self.meta_data@,
                        self.pages@.update(frame_id as int, p),
                    );
                    &&& frames == model.with_data(frame_id as int, p.data@).frames
                    &&& model.with_data(frame_id as int, p.data@).inv()
                } by {
                model.lemma_with_data_inv(frame_id as int, p.data@);
                assert(frame_views(self.meta_data@, self.pages@.update(frame_id as int, p))
                    =~= model.with_data(frame_id as int, p.data@).frames);
            }
        }
        &mut self.pages[frame_id as usize]
    }

    /// Creates a page with a fresh id in a frame of the pool and returns it
    /// pinned, with zeroed bytes. Returns `None`, and consumes no page id,
    /// if every frame is pinned.
    pub fn new_page(&mut self, page_id: &mut PageID) -> (page: Option<&mut Page>)
        requires
            old(self).wf(),
            old(self)@.has_fresh_page_id(),
            old(self)@.replacer.clock < u64::MAX,
        ensures
            final(self).wf(),
            page is Some <==> old(self)@.can_acquire(),
            match page {
                Some(p) => {
                    &&& *final(page_id) == old(self)@.next_page_id
                    &&& p.page_id == *final(page_id)
                    &&& p.pin_count == 1
                    &&& !p.is_dirty
                    &&& p.data@ == zero_page()
                    &&& final(self)@ == old(self)@.new_page().with_data(
                        old(self)@.next_frame(),
                        final(p).data@,
                    )
                },
                None => *final(page_id) == *old(page_id) && final(self)@ == old(self)@,
            },
    {
        let frame_id = match self.acquire_frame() {
            Some(frame_id) => frame_id,
            None => {
                return None;
            },
        };
        let f = frame_id as usize;
        self.pages[f].reset_memory();
        proof {
            assert(self@.frames =~= old(self)@.take_frame().with_data(
                f as int,
                zero_page(),
            ).frames);
        }
        *page_id = self.allocate_page();
        self.install_page(frame_id, *page_id);
        proof {
            let model = old(self)@.new_page();
            assert(self@.frames =~= model.frames);
            assert(self@ == model);
            old(self)@.lemma_new_page_inv();
        }
        Some(self.page_handle(frame_id))
    }

    /// Creates a page as `new_page` does. This is the entry point for callers
    /// that share the pool behind a lock: the exclusive borrow stands for the
    /// lock held, so that choosing the frame, writing its old page back and
    /// changing the page table happen as one step.
    pub fn new_page_concurrent(&mut self, page_id: &mut PageID) -> (page: Option<&mut Page>)
        requires
            old(self).wf(),
            old(self)@.has_fresh_page_id(),
            old(self)@.replacer.clock < u64::MAX,
        ensures
            final(self).wf(),
            page is Some <==> old(self)@.can_acquire(),
            match page {
                Some(p) => {
                    &&& *final(page_id) == old(self)@.next_page_id
                    &&& p.page_id == *final(page_id)
                    &&& p.pin_count == 1
                    &&& !p.is_dirty
                    &&& p.data@ == zero_page()
                    &&& final(self)@ == old(self)@.new_page().with_data(
                        old(self)@.next_frame(),
                        final(p).data@,
                    )
                },
                None => *final(page_id) == *old(page_id) && final(self)@ == old(self)@,
            },
    {
        self.new_page(page_id)
    }

    /// Returns the page `page_id` pinned, reading it from disk if it is not
    /// in memory. Returns `None` if it is not in memory and every frame is
    /// pinned.
    pub fn fetch_page(&mut self, page_id: PageID) -> (page: Option<&mut Page>)
        requires
            old(self).wf(),
            page_id != INVALID_PAGE_ID,
            old(self)@.is_resident(page_id) ==> old(self)@.pin_count(page_id) < i32::MAX,
            old(self)@.replacer.clock < u64::MAX,
        ensures
            final(self).wf(),
            page is Some <==> old(self)@.fetch_succeeds(page_id),
            match page {
                Some(p) => {
                    let fetched = old(self)@.fetch_page(page_id);
                    &&& fetched.is_resident(page_id)
                    &&& p.page_id == page_id
                    &&& p.pin_count == fetched.pin_count(page_id)
                    &&& p.is_dirty == fetched.is_dirty(page_id)
                    &&& p.data@ == fetched.data(page_id)
                    &&& final(self)@ == fetched.with_data(
                        fetched.frame_of(page_id),
                        final(p).data@,
                    )
                },
                None => final(self)@ == old(self)@,
            },
    {
        let resident = match self.page_table.get(&page_id) {
            Some(frame_id) => Some(*frame_id),
            None => None,
        };
        if let Some(frame_id) = resident {
            proof {
                assert(self@.is_resident(page_id));
                assert(self@.is_frame(frame_id as int));
            }
            let f = frame_id as usize;
            self.replacer.record_access(frame_id);
            self.replacer.set_evictable(frame_id, false);
            let pins = self.meta_data[f].pin_count + 1;
            self.meta_data[f].pin_count = pins;
            let dirty = self.meta_data[f].is_dirty;
            self.pages[f].page_id = page_id;
            self.pages[f].pin_count = pins;
            self.pages[f].is_dirty = dirty;
            proof {
                let model = old(self)@.fetch_page(page_id);
                assert(self@.frames =~= model.frames);
                assert(self@ == model);
                old(self)@.lemma_fetch_page_inv(page_id);
            }
            return Some(self.page_handle(frame_id));
        }
        let frame_id = match self.acquire_frame() {
            Some(frame_id) => frame_id,
            None => {
                return None;
            },
        };
        let f = frame_id as usize;
        self.disk_manager.read_page(page_id, &mut self.pages[f].data);
        proof {
            let taken = old(self)@.take_frame();
            assert(self@.frames =~= taken.with_data(f as int, taken.disk.read(page_id)).frames);
        }
        self.install_page(frame_id, page_id);
        proof {
            let model = old(self)@.fetch_page(page_id);
            assert(self@.frames =~= model.frames);
            assert(self@ == model);
            old(self)@.lemma_fetch_page_inv(page_id);
        }
        Some(self.page_handle(frame_id))
    }

    /// Releases one pin of the page `page_id` and marks the page dirty if
    /// `is_dirty` says so; a dirty page stays dirty. Returns false, and
    /// changes nothing, if the page is not in memory or not pinned.
    pub fn unpin_page(&mut self, page_id: PageID, is_dirty: bool) -> (unpinned: bool)
        requires
            old(self).wf(),
        ensures
            final(self).wf(),
            unpinned == old(self)@.unpin_succeeds(page_id),
            final(self)@ == old(self)@.unpin_page(page_id, is_dirty),
    {
        let frame_id = match self.page_table.get(&page_id) {
            Some(frame_id) => *frame_id,
            None => {
                return false;
            },
        };
        proof {
            assert(self@.is_resident(page_id));
            assert(self@.is_frame(frame_id as int));
        }
        let f = frame_id as usize;
        if self.meta_data[f].pin_count == 0 {
            return false;
        }
        let pins = self.meta_data[f].pin_count - 1;
        let dirty = self.meta_data[f].is_dirty || is_dirty;
        self.meta_data[f].pin_count = pins;
        self.meta_data[f].is_dirty = dirty;
        if pins == 0 {
            self.replacer.set_evictable(frame_id, true);
        }
        proof {
            let model = old(self)@.unpin_page(page_id, is_dirty);
            assert(self@.frames =~= model.frames);
            old(self)@.lemma_unpin_page_inv(page_id, is_dirty);
        }
        true
    }

    /// Writes the page `page_id` to disk, whether it is dirty or not, and
    /// marks it clean. Returns false, and changes nothing, if the page is not
    /// in memory.
    pub fn flush_page(&mut self, page_id: PageID) -> (flushed: bool)
        requires
            old(self).wf(),
        ensures
            final(self).wf(),
            flushed == old(self)@.is_resident(page_id),
            final(self)@ == old(self)@.flush_page(page_id),
    {
        let frame_id = match self.page_table.get(&page_id) {
            Some(frame_id) => *frame_id,
            None => {
                return false;
            },
        };
        proof {
            assert(self@.is_resident(page_id));
            assert(self@.is_frame(frame_id as int));
        }
        let f = frame_id as usize;
        self.disk_manager.write_page(page_id, &self.pages[f].data);
        self.meta_data[f].is_dirty = false;
        proof {
            let model = old(self)@.flush_page(page_id);
            assert(self@.frames =~= model.frames);
            old(self)@.lemma_flush_page_inv(page_id);
        }
        true
    }

    /// Writes every page in memory to disk, in the order of the frames, and
    /// marks each clean.
    pub fn flush_all_pages(&mut self)
        requires
            old(self).wf(),
        ensures
            final(self).wf(),
            final(self)@ == old(self)@.flush_all_pages(),
    {
        let n = self.pool_size;
        let mut i: usize = 0;
        while i < n
            invariant
                i <= n,
                n == self.pool_size,
                n == old(self)@.frames.len(),
                old(self)@.inv(),
                self.well_represented(),
                self@ == old(self)@.flush_frames(i as int),
            decreases n - i,
        {
            let ghost before = self@;
            proof {
                old(self)@.lemma_flush_frames_inv(i as int);
            }
            let flushed_id = self.meta_data[i].page_id;
            if flushed_id != INVALID_PAGE_ID {
                if self.page_table.contains_key(&flushed_id) {
                    self.disk_manager.write_page(flushed_id, &self.pages[i].data);
                    self.meta_data[i].is_dirty = false;
                }
            }
            proof {
                assert(self@.frames =~= before.flush_frame(i as int).frames);
                assert(self@ == before.flush_frame(i as int));
            }
            i += 1;
        }
        proof {
            old(self)@.lemma_flush_frames_inv(n as int);
        }
    }

    /// Removes the page `page_id` from the pool. Returns true if the page is
    /// not in memory, and then changes nothing; false if it is pinned, and
    /// then changes nothing; else empties its frame, returns the frame to the
    /// free list, and returns true.
    pub fn delete_page(&mut self, page_id: PageID) -> (deleted: bool)
        requires
            old(self).wf(),
        ensures
            final(self).wf(),
            deleted == old(self)@.delete_succeeds(page_id),
            final(self)@ == old(self)@.delete_page(page_id),
    {
        let frame_id = match self.page_table.get(&page_id) {
            Some(frame_id) => *frame_id,
            None => {
                return true;
            },
        };
        proof {
            assert(self@.is_resident(page_id));
            assert(self@.is_frame(frame_id as int));
        }
        let f = frame_id as usize;
        if self.meta_data[f].pin_count > 0 {
            return false;
        }
        self.page_table.remove(&page_id);
        self.replacer.remove(frame_id);
        self.free_list.push_back(frame_id);
        self.meta_data[f].page_id = INVALID_PAGE_ID;
        self.meta_data[f].is_dirty = false;
        self.meta_data[f].pin_count = 0;
        self.pages[f].page_id = INVALID_PAGE_ID;
        self.pages[f].is_dirty = false;
        self.pages[f].pin_count = 0;
        self.pages[f].reset_memory();
        self.deallocate_page();
        proof {
            let model = old(self)@.delete_page(page_id);
            assert(self@.frames =~= model.frames);
            assert(self@.page_table =~= model.page_table);
            old(self)@.lemma_delete_page_inv(page_id);
        }
        true
    }

    /// The number of frames.
    pub fn pool_size(&self) -> (size: usize)
        requires
            self.wf(),
        ensures
            size == self@.frames.len(),
    {
        self.pool_size
    }

    /// The id that the next new page will get.
    pub fn next_page_id(&self) -> (page_id: PageID)
        requires
            self.wf(),
        ensures
            page_id == self@.next_page_id,
    {
        self.next_page_id
    }

    /// The number of frames that hold no page.
    pub fn free_frames(&self) -> (count: usize)
        requires
            self.wf(),
        ensures
            count == self@.free_list.len(),
    {
        self.free_list.len()
    }

    /// The number of holders of the page `page_id`, or `None` if the page is
    /// not in memory.
    pub fn pin_count(&self, page_id: PageID) -> (count: Option<i32>)
        requires
            self.wf(),
        ensures
            count is Some <==> self@.is_resident(page_id),
            count matches Some(c) ==> c == self@.pin_count(page_id),
    {
        match self.page_table.get(&page_id) {
            Some(frame_id) => {
                proof {
                    assert(self@.is_resident(page_id));
                    assert(self@.is_frame(*frame_id as int));
                }
                Some(self.meta_data[*frame_id as usize].pin_count)
            },
            None => None,
        }
    }

    /// Whether the page `page_id` is marked dirty, or `None` if the page is
    /// not in memory.
    pub fn is_dirty(&self, page_id: PageID) -> (dirty: Option<bool>)
        requires
            self.wf(),
        ensures
            dirty is Some <==> self@.is_resident(page_id),
            dirty matches Some(d) ==> d == self@.is_dirty(page_id),
    {
        match self.page_table.get(&page_id) {
            Some(frame_id) => {
                proof {
                    assert(self@.is_resident(page_id));
                    assert(self@.is_frame(*frame_id as int));
                }
                Some(self.meta_data[*frame_id as usize].is_dirty)
            },
            None => None,
        }
    }

    /// The disk manager of the pool, to read from.
    pub fn disk_manager(&self) -> (disk: &DiskManager)
        requires
            self.wf(),
        ensures
            disk.wf(),
            disk@ == self@.disk,
    {
        &self.disk_manager
    }

    /// The replacer of the pool, to read from.
    pub fn replacer(&self) -> (replacer: &LRUKReplacer)
        requires
            self.wf(),
        ensures
            replacer.wf(),
            replacer@ == self@.replacer,
    {
        &self.replacer
    }
}

} // verus!
