//! The mathematical model of the buffer pool.
//!
//! A [`PoolView`] is the whole state of a pool as plain values, and each
//! operation of the pool is a function from one such state to the next. The
//! executable pool is proved to follow these functions; what holds of every
//! pool is proved here, about the functions.

use vstd::prelude::*;
use crate::buffer::replacer_model::ReplacerView;
use crate::common::{FrameID, PageID, INVALID_PAGE_ID, zero_page};
use crate::storage::disk_manager::DiskView;

verus! {

/// The state of one frame.
pub struct FrameView {
    /// The page held, or `INVALID_PAGE_ID` if the frame is empty.
    pub page_id: PageID,
    /// The number of holders of the page.
    pub pin_count: int,
    /// Whether the bytes in memory may differ from those on disk.
    pub is_dirty: bool,
    /// The bytes in memory.
    pub data: Seq<u8>,
}

impl FrameView {
    /// A frame that holds no page.
    pub open spec fn vacant() -> FrameView {
        FrameView { page_id: INVALID_PAGE_ID, pin_count: 0, is_dirty: false, data: zero_page() }
    }

    /// Whether the frame holds no page.
    pub open spec fn is_vacant(self) -> bool {
        self.page_id == INVALID_PAGE_ID
    }
}

/// The state of a buffer pool.
pub struct PoolView {
    /// The frames, indexed by frame id.
    pub frames: Seq<FrameView>,
    /// The frame of each resident page.
    pub page_table: Map<PageID, FrameID>,
    /// The frames that hold no page, in the order in which they will be
    /// handed out.
    pub free_list: Seq<FrameID>,
    /// The state of the replacer.
    pub replacer: ReplacerView,
    /// The state of the disk.
    pub disk: DiskView,
    /// The id that the next new page will get.
    pub next_page_id: int,
}

impl PoolView {
    /// A pool of `pool_size` empty frames over `disk`, with a replacer of
    /// history depth `k`.
    pub open spec fn new(pool_size: nat, disk: DiskView, k: nat) -> PoolView {
        PoolView {
            frames: Seq::new(pool_size, |f: int| FrameView::vacant()),
            page_table: Map::empty(),
            free_list: Seq::new(pool_size, |f: int| f as FrameID),
            replacer: ReplacerView::new(pool_size, k),
            disk,
            next_page_id: 0,
        }
    }

    /// Whether `f` is the id of a frame of this pool.
    pub open spec fn is_frame(self, f: int) -> bool {
        0 <= f < self.frames.len()
    }

    /// Whether the page is in memory.
    pub open spec fn is_resident(self, page_id: PageID) -> bool {
        self.page_table.contains_key(page_id)
    }

    /// The frame that holds a resident page.
    pub open spec fn frame_of(self, page_id: PageID) -> int {
        self.page_table[page_id] as int
    }

    /// The number of holders of a resident page.
    pub open spec fn pin_count(self, page_id: PageID) -> int {
        self.frames[self.frame_of(page_id)].pin_count
    }

    /// Whether a resident page is marked dirty.
    pub open spec fn is_dirty(self, page_id: PageID) -> bool {
        self.frames[self.frame_of(page_id)].is_dirty
    }

    /// The bytes in memory of a resident page.
    pub open spec fn data(self, page_id: PageID) -> Seq<u8> {
        self.frames[self.frame_of(page_id)].data
    }

    /// The free list names each empty frame once, and only empty frames.
    pub open spec fn free_list_inv(self) -> bool {
        &&& self.free_list.no_duplicates()
        &&& forall|i: int|
            0 <= i < self.free_list.len() ==> self.is_frame(#[trigger] self.free_list[i] as int)
                && self.frames[self.free_list[i] as int].is_vacant()
        &&& forall|f: int|
            self.is_frame(f) && (#[trigger] self.frames[f]).is_vacant()
                ==> self.free_list.contains(f as FrameID)
    }

    /// No pin count is negative, and an empty frame is unpinned and clean.
    pub open spec fn frames_inv(self) -> bool {
        forall|f: int|
            self.is_frame(f) ==> {
                &&& (#[trigger] self.frames[f]).pin_count >= 0
                &&& self.frames[f].is_vacant() ==> self.frames[f].pin_count == 0
                    && !self.frames[f].is_dirty
            }
    }

    /// A page id is in the page table exactly if it occupies a frame, and the
    /// table names that frame.
    pub open spec fn page_table_inv(self) -> bool {
        &&& forall|p: PageID| #[trigger]
            self.page_table.contains_key(p) ==> {
                &&& p != INVALID_PAGE_ID
                &&& self.is_frame(self.page_table[p] as int)
                &&& self.frames[self.page_table[p] as int].page_id == p
            }
        &&& forall|f: int|
            self.is_frame(f) && !(#[trigger] self.frames[f]).is_vacant() ==> {
                &&& self.page_table.contains_key(self.frames[f].page_id)
                &&& self.page_table[self.frames[f].page_id] as int == f
            }
    }

    /// The replacer knows every frame, and holds a frame evictable exactly
    /// if the frame holds a page that nobody has pinned.
    pub open spec fn replacer_inv(self) -> bool {
        &&& self.replacer.inv()
        &&& self.replacer.frames.len() == self.frames.len()
        &&& forall|f: int|
            self.is_frame(f) ==> ((#[trigger] self.replacer.frames[f]).evictable <==> (
            !self.frames[f].is_vacant() && self.frames[f].pin_count == 0))
    }

    /// The invariant of the pool.
    pub open spec fn inv(self) -> bool {
        &&& self.frames.len() <= i32::MAX
        &&& 0 <= self.next_page_id <= i32::MAX
        &&& self.free_list_inv()
        &&& self.frames_inv()
        &&& self.page_table_inv()
        &&& self.replacer_inv()
    }

    /// Whether a frame can be had for another page: one is free, or one can
    /// be evicted.
    pub open spec fn can_acquire(self) -> bool {
        self.free_list.len() > 0 || self.replacer.has_victim()
    }

    /// The frame that the next page brought in will get: the head of the
    /// free list, or with an empty free list the replacer's victim.
    pub open spec fn next_frame(self) -> int {
        if self.free_list.len() > 0 {
            self.free_list[0] as int
        } else {
            self.replacer.victim()
        }
    }

    /// The state after `next_frame()` was taken for reuse. A free frame
    /// leaves the free list. A victim is written to disk if it is dirty, its
    /// page leaves the page table, and the replacer forgets it.
    pub open spec fn take_frame(self) -> PoolView {
        if self.free_list.len() > 0 {
            PoolView { free_list: self.free_list.subrange(1, self.free_list.len() as int), ..self }
        } else {
            let evicted = self.frames[self.replacer.victim()];
            PoolView {
                disk: if evicted.is_dirty {
                    self.disk.write(evicted.page_id, evicted.data)
                } else {
                    self.disk
                },
                page_table: self.page_table.remove(evicted.page_id),
                replacer: self.replacer.evict(),
                ..self
            }
        }
    }

    /// The state after frame `f` was given to page `page_id` with the bytes
    /// `data`: the page is pinned once and clean, the page table names the
    /// frame, and the replacer has recorded an access and holds the frame
    /// non-evictable.
    pub open spec fn install(self, f: int, page_id: PageID, data: Seq<u8>) -> PoolView {
        PoolView {
            frames: self.frames.update(
                f,
                FrameView { page_id, pin_count: 1, is_dirty: false, data },
            ),
            page_table: self.page_table.insert(page_id, f as FrameID),
            replacer: self.replacer.record_access(f).set_evictable(f, false),
            ..self
        }
    }

    /// Whether the id that the next new page will get is usable: it fits a
    /// `PageID` with room for the counter to advance, and no resident page
    /// has it.
    pub open spec fn has_fresh_page_id(self) -> bool {
        &&& self.next_page_id < i32::MAX
        &&& !self.is_resident(self.next_page_id as PageID)
    }

    /// The state after `new_page`. Where a frame can be had, a zeroed page
    /// with the id `next_page_id` is installed in `next_frame()` and the
    /// counter advances; else nothing changes.
    pub open spec fn new_page(self) -> PoolView {
        if self.can_acquire() {
            PoolView {
                next_page_id: self.next_page_id + 1,
                ..self.take_frame().install(
                    self.next_frame(),
                    self.next_page_id as PageID,
                    zero_page(),
                )
            }
        } else {
            self
        }
    }

    /// Whether `fetch_page` returns a page: the page is resident, or a frame
    /// can be had.
    pub open spec fn fetch_succeeds(self, page_id: PageID) -> bool {
        self.is_resident(page_id) || self.can_acquire()
    }

    /// The state after `fetch_page`. A resident page gets one more pin, an
    /// access is recorded and its frame is held non-evictable. Else, where a
    /// frame can be had, the page is installed in `next_frame()` with the
    /// bytes read from disk. Else nothing changes.
    pub open spec fn fetch_page(self, page_id: PageID) -> PoolView {
        if self.is_resident(page_id) {
            let f = self.frame_of(page_id);
            PoolView {
                frames: self.frames.update(
                    f,
                    FrameView { pin_count: self.frames[f].pin_count + 1, ..self.frames[f] },
                ),
                replacer: self.replacer.record_access(f).set_evictable(f, false),
                ..self
            }
        } else if self.can_acquire() {
            let taken = self.take_frame();
            taken.install(self.next_frame(), page_id, taken.disk.read(page_id))
        } else {
            self
        }
    }

    /// Whether `unpin_page` returns true: the page is resident and pinned.
    pub open spec fn unpin_succeeds(self, page_id: PageID) -> bool {
        self.is_resident(page_id) && self.pin_count(page_id) > 0
    }

    /// The state after `unpin_page`. Where it succeeds, the page loses one
    /// pin and is dirty if it was or if the caller says so; when the last pin
    /// goes, the replacer holds the frame evictable. Else nothing changes.
    pub open spec fn unpin_page(self, page_id: PageID, is_dirty: bool) -> PoolView {
        if self.unpin_succeeds(page_id) {
            let f = self.frame_of(page_id);
            let frame = self.frames[f];
            PoolView {
                frames: self.frames.update(
                    f,
                    FrameView {
                        pin_count: frame.pin_count - 1,
                        is_dirty: frame.is_dirty || is_dirty,
                        ..frame
                    },
                ),
                replacer: if frame.pin_count == 1 {
                    self.replacer.set_evictable(f, true)
                } else {
                    self.replacer
                },
                ..self
            }
        } else {
            self
        }
    }

    /// The state after the page in frame `f`, if there is one, was written to
    /// disk and marked clean.
    pub open spec fn flush_frame(self, f: int) -> PoolView {
        let frame = self.frames[f];
        if frame.is_vacant() {
            self
        } else {
            PoolView {
                disk: self.disk.write(frame.page_id, frame.data),
                frames: self.frames.update(f, FrameView { is_dirty: false, ..frame }),
                ..self
            }
        }
    }

    /// The state after `flush_page`: a resident page is written to disk,
    /// dirty or not, and marked clean; else nothing changes.
    pub open spec fn flush_page(self, page_id: PageID) -> PoolView {
        if self.is_resident(page_id) {
            self.flush_frame(self.frame_of(page_id))
        } else {
            self
        }
    }

    /// The state after the frames below `n` were flushed, in the order of
    /// their ids.
    pub open spec fn flush_frames(self, n: int) -> PoolView
        decreases n,
    {
        if n <= 0 {
            self
        } else {
            self.flush_frames(n - 1).flush_frame(n - 1)
        }
    }

    /// The state after `flush_all_pages`: every resident page was written
    /// to disk and marked clean.
    pub open spec fn flush_all_pages(self) -> PoolView {
        self.flush_frames(self.frames.len() as int)
    }

    /// Whether `delete_page` returns true: the page is not resident, or
    /// nobody has it pinned.
    pub open spec fn delete_succeeds(self, page_id: PageID) -> bool {
        self.is_resident(page_id) ==> self.pin_count(page_id) == 0
    }

    /// The state after `delete_page`. A resident, unpinned page leaves the
    /// page table, the replacer forgets its frame, and the frame is emptied
    /// and joins the end of the free list. Else nothing changes.
    pub open spec fn delete_page(self, page_id: PageID) -> PoolView {
        if self.is_resident(page_id) && self.pin_count(page_id) == 0 {
            let f = self.frame_of(page_id);
            PoolView {
                frames: self.frames.update(f, FrameView::vacant()),
                page_table: self.page_table.remove(page_id),
                free_list: self.free_list.push(f as FrameID),
                replacer: self.replacer.remove(f),
                ..self
            }
        } else {
            self
        }
    }

    /// The state after the bytes of frame `f` were replaced by `data`, as a
    /// holder of the page does through its handle.
    pub open spec fn with_data(self, f: int, data: Seq<u8>) -> PoolView {
        PoolView { frames: self.frames.update(f, FrameView { data, ..self.frames[f] }), ..self }
    }

    /// A new pool satisfies the invariant.
    pub proof fn lemma_new_inv(pool_size: nat, disk: DiskView, k: nat)
        requires
            pool_size <= i32::MAX,
            k >= 1,
        ensures
            PoolView::new(pool_size, disk, k).inv(),
            !PoolView::new(pool_size, disk, k).replacer.has_victim(),
    {
        let s = PoolView::new(pool_size, disk, k);
        assert forall|f: int| s.is_frame(f) && (#[trigger] s.frames[f]).is_vacant() implies
            s.free_list.contains(f as FrameID) by {
            assert(s.free_list[f] == f as FrameID);
        }
    }

    /// Where a frame can be had, `next_frame()` is a frame of the pool that
    /// is empty or holds an unpinned page; taking it leaves every other frame
    /// as it was.
    pub proof fn lemma_next_frame(self)
        requires
            self.inv(),
            self.can_acquire(),
        ensures
            self.is_frame(self.next_frame()),
            self.frames[self.next_frame()].pin_count == 0,
            self.free_list.len() > 0 ==> self.frames[self.next_frame()].is_vacant(),
            self.free_list.len() == 0 ==> {
                &&& self.replacer.is_victim(self.next_frame())
                &&& !self.frames[self.next_frame()].is_vacant()
                &&& self.is_resident(self.frames[self.next_frame()].page_id)
            },
    {
        if self.free_list.len() > 0 {
            assert(self.is_frame(self.free_list[0] as int));
        } else {
            self.replacer.lemma_victim();
            let v = self.replacer.victim();
            assert(self.replacer.frames[v].evictable);
        }
    }

    /// Installing a page that is not resident in `next_frame()`, after that
    /// frame was taken, keeps the invariant.
    proof fn lemma_take_and_install_inv(self, page_id: PageID, data: Seq<u8>)
        requires
            self.inv(),
            self.can_acquire(),
            page_id != INVALID_PAGE_ID,
            !self.is_resident(page_id),
        ensures
            self.take_frame().install(self.next_frame(), page_id, data).inv(),
    {
        self.lemma_next_frame();
        let f = self.next_frame();
        let taken = self.take_frame();
        let after = taken.install(f, page_id, data);
        // replacer
        if self.free_list.len() == 0 {
            self.replacer.lemma_inv_preserved(f, false);
        }
        taken.replacer.lemma_inv_preserved(f, false);
        taken.replacer.record_access(f).lemma_inv_preserved(f, false);
        assert(after.replacer.inv());
        assert forall|g: int| after.is_frame(g) implies ((
        #[trigger] after.replacer.frames[g]).evictable <==> (!after.frames[g].is_vacant()
            && after.frames[g].pin_count == 0)) by {
            if g != f {
                assert(self.replacer.frames[g].evictable <==> (!self.frames[g].is_vacant()
                    && self.frames[g].pin_count == 0));
            }
        }
        assert(after.replacer_inv());
        // frames
        assert forall|g: int| after.is_frame(g) implies {
            &&& (#[trigger] after.frames[g]).pin_count >= 0
            &&& after.frames[g].is_vacant() ==> after.frames[g].pin_count == 0
                && !after.frames[g].is_dirty
        } by {
            if g != f {
                assert(self.frames[g].pin_count >= 0);
            }
        }
        assert(after.frames_inv());
        // free list
        if self.free_list.len() > 0 {
            assert forall|i: int| 0 <= i < after.free_list.len() implies after.is_frame(
                #[trigger] after.free_list[i] as int,
            ) && after.frames[after.free_list[i] as int].is_vacant() by {
                assert(after.free_list[i] == self.free_list[i + 1]);
                assert(self.free_list[i + 1] != self.free_list[0]);
                assert(self.is_frame(self.free_list[i + 1] as int));
            }
            assert forall|g: int| after.is_frame(g) && (#[trigger] after.frames[g]).is_vacant()
                implies after.free_list.contains(g as FrameID) by {
                assert(self.frames[g].is_vacant());
                assert(self.free_list.contains(g as FrameID));
                let i = choose|i: int|
                    0 <= i < self.free_list.len() && self.free_list[i] == g as FrameID;
                assert(i != 0);
                assert(after.free_list[i - 1] == g as FrameID);
            }
            assert(after.free_list.no_duplicates()) by {
                assert forall|i: int, j: int|
                    0 <= i < after.free_list.len() && 0 <= j < after.free_list.len() && i
                        != j implies after.free_list[i] != after.free_list[j] by {
                    assert(after.free_list[i] == self.free_list[i + 1]);
                    assert(after.free_list[j] == self.free_list[j + 1]);
                }
            }
        } else {
            assert forall|g: int| after.is_frame(g) && (#[trigger] after.frames[g]).is_vacant()
                implies after.free_list.contains(g as FrameID) by {
                if g != f {
                    assert(self.frames[g].is_vacant());
                    assert(self.free_list.contains(g as FrameID));
                }
            }
        }
        assert(after.free_list_inv());
        // page table
        assert forall|p: PageID| #[trigger] after.page_table.contains_key(p) implies {
            &&& p != INVALID_PAGE_ID
            &&& after.is_frame(after.page_table[p] as int)
            &&& after.frames[after.page_table[p] as int].page_id == p
        } by {
            if p != page_id {
                assert(self.page_table.contains_key(p));
                assert(self.frames[self.page_table[p] as int].page_id == p);
            }
        }
        assert forall|g: int| after.is_frame(g) && !(#[trigger] after.frames[g]).is_vacant()
            implies {
            &&& after.page_table.contains_key(after.frames[g].page_id)
            &&& after.page_table[after.frames[g].page_id] as int == g
        } by {
            if g != f {
                assert(!self.frames[g].is_vacant());
                assert(self.page_table.contains_key(self.frames[g].page_id));
                assert(self.page_table[self.frames[g].page_id] as int == g);
            }
        }
        assert(after.page_table_inv());
    }

    /// `new_page` keeps the invariant.
    pub proof fn lemma_new_page_inv(self)
        requires
            self.inv(),
            self.has_fresh_page_id(),
        ensures
            self.new_page().inv(),
    {
        if self.can_acquire() {
            self.lemma_take_and_install_inv(self.next_page_id as PageID, zero_page());
        }
    }

    /// `fetch_page` keeps the invariant.
    pub proof fn lemma_fetch_page_inv(self, page_id: PageID)
        requires
            self.inv(),
            page_id != INVALID_PAGE_ID,
        ensures
            self.fetch_page(page_id).inv(),
    {
        let after = self.fetch_page(page_id);
        if self.is_resident(page_id) {
            let f = self.frame_of(page_id);
            self.replacer.lemma_inv_preserved(f, false);
            self.replacer.record_access(f).lemma_inv_preserved(f, false);
            self.lemma_frame_update_inv(after, f);
        } else if self.can_acquire() {
            self.lemma_take_and_install_inv(page_id, self.take_frame().disk.read(page_id));
        }
    }

    /// A state that differs from this one in one occupied frame only, where
    /// the frame keeps its page, has no negative pin count and agrees with
    /// the replacer, satisfies the invariant if this one does.
    proof fn lemma_frame_update_inv(self, after: PoolView, f: int)
        requires
            self.inv(),
            self.is_frame(f),
            !self.frames[f].is_vacant(),
            after.frames.len() == self.frames.len(),
            forall|g: int| self.is_frame(g) && g != f ==> #[trigger] after.frames[g] == self.frames[g],
            after.frames[f].page_id == self.frames[f].page_id,
            after.frames[f].pin_count >= 0,
            after.page_table == self.page_table,
            after.free_list == self.free_list,
            after.next_page_id == self.next_page_id,
            after.replacer.inv(),
            after.replacer.frames.len() == self.replacer.frames.len(),
            forall|g: int|
                self.is_frame(g) && g != f ==> (#[trigger] after.replacer.frames[g]).evictable
                    == self.replacer.frames[g].evictable,
            after.replacer.frames[f].evictable <==> after.frames[f].pin_count == 0,
        ensures
            after.inv(),
    {
        assert forall|g: int| after.is_frame(g) implies ((
        #[trigger] after.replacer.frames[g]).evictable <==> (!after.frames[g].is_vacant()
            && after.frames[g].pin_count == 0)) by {
            if g != f {
                assert(after.frames[g] == self.frames[g]);
                assert(self.replacer.frames[g].evictable <==> (!self.frames[g].is_vacant()
                    && self.frames[g].pin_count == 0));
            }
        }
        assert forall|g: int| after.is_frame(g) implies {
            &&& (#[trigger] after.frames[g]).pin_count >= 0
            &&& after.frames[g].is_vacant() ==> after.frames[g].pin_count == 0
                && !after.frames[g].is_dirty
        } by {
            if g != f {
                assert(after.frames[g] == self.frames[g]);
                assert(self.frames[g].pin_count >= 0);
            }
        }
        assert forall|i: int| 0 <= i < after.free_list.len() implies after.is_frame(
            #[trigger] after.free_list[i] as int,
        ) && after.frames[after.free_list[i] as int].is_vacant() by {
            let g = self.free_list[i] as int;
            assert(self.is_frame(g) && self.frames[g].is_vacant());
            assert(after.frames[g] == self.frames[g]);
        }
        assert forall|g: int| after.is_frame(g) && (#[trigger] after.frames[g]).is_vacant()
            implies after.free_list.contains(g as FrameID) by {
            assert(after.frames[g] == self.frames[g]);
        }
        assert forall|p: PageID| #[trigger] after.page_table.contains_key(p) implies {
            &&& p != INVALID_PAGE_ID
            &&& after.is_frame(after.page_table[p] as int)
            &&& after.frames[after.page_table[p] as int].page_id == p
        } by {
            let g = self.page_table[p] as int;
            assert(self.frames[g].page_id == p);
            if g != f {
                assert(after.frames[g] == self.frames[g]);
            }
        }
        assert forall|g: int| after.is_frame(g) && !(#[trigger] after.frames[g]).is_vacant()
            implies {
            &&& after.page_table.contains_key(after.frames[g].page_id)
            &&& after.page_table[after.frames[g].page_id] as int == g
        } by {
            if g != f {
                assert(after.frames[g] == self.frames[g]);
            }
            assert(!self.frames[g].is_vacant());
        }
    }

    /// `unpin_page` keeps the invariant.
    pub proof fn lemma_unpin_page_inv(self, page_id: PageID, is_dirty: bool)
        requires
            self.inv(),
        ensures
            self.unpin_page(page_id, is_dirty).inv(),
    {
        if self.unpin_succeeds(page_id) {
            let f = self.frame_of(page_id);
            self.replacer.lemma_inv_preserved(f, true);
            assert(!self.replacer.frames[f].evictable);
            self.lemma_frame_update_inv(self.unpin_page(page_id, is_dirty), f);
        }
    }

    /// Flushing a frame keeps the invariant.
    pub proof fn lemma_flush_frame_inv(self, f: int)
        requires
            self.inv(),
            self.is_frame(f),
        ensures
            self.flush_frame(f).inv(),
            self.flush_frame(f).frames.len() == self.frames.len(),
    {
        if !self.frames[f].is_vacant() {
            assert(self.replacer.frames[f].evictable <==> self.frames[f].pin_count == 0);
            self.lemma_frame_update_inv(self.flush_frame(f), f);
        }
    }

    /// `flush_page` keeps the invariant.
    pub proof fn lemma_flush_page_inv(self, page_id: PageID)
        requires
            self.inv(),
        ensures
            self.flush_page(page_id).inv(),
    {
        if self.is_resident(page_id) {
            self.lemma_flush_frame_inv(self.frame_of(page_id));
        }
    }

    /// Flushing the frames below `n` keeps the invariant.
    pub proof fn lemma_flush_frames_inv(self, n: int)
        requires
            self.inv(),
            n <= self.frames.len(),
        ensures
            self.flush_frames(n).inv(),
            self.flush_frames(n).frames.len() == self.frames.len(),
        decreases n,
    {
        if n > 0 {
            self.lemma_flush_frames_inv(n - 1);
            self.flush_frames(n - 1).lemma_flush_frame_inv(n - 1);
        }
    }

    /// `delete_page` keeps the invariant.
    pub proof fn lemma_delete_page_inv(self, page_id: PageID)
        requires
            self.inv(),
        ensures
            self.delete_page(page_id).inv(),
    {
        if self.is_resident(page_id) && self.pin_count(page_id) == 0 {
            let f = self.frame_of(page_id);
            let after = self.delete_page(page_id);
            assert(self.frames[f].page_id == page_id);
            self.replacer.lemma_inv_preserved(f, false);
            assert forall|g: int| after.is_frame(g) implies ((
            #[trigger] after.replacer.frames[g]).evictable <==> (!after.frames[g].is_vacant()
                && after.frames[g].pin_count == 0)) by {
                if g != f {
                    assert(self.replacer.frames[g].evictable <==> (!self.frames[g].is_vacant()
                        && self.frames[g].pin_count == 0));
                }
            }
            assert forall|g: int| after.is_frame(g) implies {
                &&& (#[trigger] after.frames[g]).pin_count >= 0
                &&& after.frames[g].is_vacant() ==> after.frames[g].pin_count == 0
                    && !after.frames[g].is_dirty
            } by {
                if g != f {
                    assert(self.frames[g].pin_count >= 0);
                }
            }
            assert forall|i: int| 0 <= i < after.free_list.len() implies after.is_frame(
                #[trigger] after.free_list[i] as int,
            ) && after.frames[after.free_list[i] as int].is_vacant() by {
                if i < self.free_list.len() {
                    assert(after.free_list[i] == self.free_list[i]);
                    assert(self.is_frame(self.free_list[i] as int));
                }
            }
            assert forall|g: int| after.is_frame(g) && (#[trigger] after.frames[g]).is_vacant()
                implies after.free_list.contains(g as FrameID) by {
                if g != f {
                    assert(self.frames[g].is_vacant());
                    let i = choose|i: int|
                        0 <= i < self.free_list.len() && self.free_list[i] == g as FrameID;
                    assert(after.free_list[i] == g as FrameID);
                } else {
                    assert(after.free_list[self.free_list.len() as int] == f as FrameID);
                }
            }
            assert(after.free_list.no_duplicates()) by {
                assert forall|i: int, j: int|
                    0 <= i < after.free_list.len() && 0 <= j < after.free_list.len() && i
                        != j implies after.free_list[i] != after.free_list[j] by {
                    if i < self.free_list.len() {
                        assert(self.frames[self.free_list[i] as int].is_vacant());
                    }
                    if j < self.free_list.len() {
                        assert(self.frames[self.free_list[j] as int].is_vacant());
                    }
                }
            }
            assert forall|p: PageID| #[trigger] after.page_table.contains_key(p) implies {
                &&& p != INVALID_PAGE_ID
                &&& after.is_frame(after.page_table[p] as int)
                &&& after.frames[after.page_table[p] as int].page_id == p
            } by {
                assert(self.page_table.contains_key(p));
                assert(self.frames[self.page_table[p] as int].page_id == p);
            }
            assert forall|g: int| after.is_frame(g) && !(#[trigger] after.frames[g]).is_vacant()
                implies {
                &&& after.page_table.contains_key(after.frames[g].page_id)
                &&& after.page_table[after.frames[g].page_id] as int == g
            } by {
                assert(g != f);
                assert(!self.frames[g].is_vacant());
                assert(self.page_table[self.frames[g].page_id] as int == g);
            }
        }
    }

    /// What a holder writes into the bytes of a page does not touch the
    /// invariant.
    pub proof fn lemma_with_data_inv(self, f: int, data: Seq<u8>)
        requires
            self.inv(),
            self.is_frame(f),
        ensures
            self.with_data(f, data).inv(),
    {
        let after = self.with_data(f, data);
        assert forall|g: int| after.is_frame(g) implies ((
        #[trigger] after.replacer.frames[g]).evictable <==> (!after.frames[g].is_vacant()
            && after.frames[g].pin_count == 0)) by {
            assert(self.replacer.frames[g].evictable <==> (!self.frames[g].is_vacant()
                && self.frames[g].pin_count == 0));
        }
        assert forall|g: int| after.is_frame(g) implies {
            &&& (#[trigger] after.frames[g]).pin_count >= 0
            &&& after.frames[g].is_vacant() ==> after.frames[g].pin_count == 0
                && !after.frames[g].is_dirty
        } by {
            assert(self.frames[g].pin_count >= 0);
        }
        assert forall|i: int| 0 <= i < after.free_list.len() implies after.is_frame(
            #[trigger] after.free_list[i] as int,
        ) && after.frames[after.free_list[i] as int].is_vacant() by {
            let g = self.free_list[i] as int;
            assert(self.is_frame(g) && self.frames[g].is_vacant());
        }
        assert forall|g: int| after.is_frame(g) && (#[trigger] after.frames[g]).is_vacant()
            implies after.free_list.contains(g as FrameID) by {
            assert(self.frames[g].is_vacant());
        }
        assert forall|p: PageID| #[trigger] after.page_table.contains_key(p) implies {
            &&& p != INVALID_PAGE_ID
            &&& after.is_frame(after.page_table[p] as int)
            &&& after.frames[after.page_table[p] as int].page_id == p
        } by {
            let g = self.page_table[p] as int;
            assert(self.frames[g].page_id == p);
        }
        assert forall|g: int| after.is_frame(g) && !(#[trigger] after.frames[g]).is_vacant()
            implies {
            &&& after.page_table.contains_key(after.frames[g].page_id)
            &&& after.page_table[after.frames[g].page_id] as int == g
        } by {
            assert(!self.frames[g].is_vacant());
        }
    }
}

} // verus!
