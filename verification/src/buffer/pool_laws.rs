//! What holds of every buffer pool, proved about the model.
//!
//! The executable pool follows the model's functions, so each law here is a
//! law of the pool itself.

use vstd::prelude::*;
use crate::buffer::pool_model::PoolView;
use crate::common::{FrameID, PageID, INVALID_PAGE_ID, zero_page};
use crate::storage::disk_manager::DiskView;

verus! {

/// One thing that can happen to a pool: a call of one of its operations, or
/// a holder writing the bytes of a page it has pinned.
pub enum PoolOp {
    NewPage,
    FetchPage(PageID),
    UnpinPage(PageID, bool),
    FlushPage(PageID),
    FlushAllPages,
    DeletePage(PageID),
    WriteData(PageID, Seq<u8>),
}

impl PoolView {
    /// Whether the pool accepts `op` in this state: what the operation
    /// requires of its caller, as far as the model knows it.
    pub open spec fn admits(self, op: PoolOp) -> bool {
        match op {
            PoolOp::NewPage => self.has_fresh_page_id(),
            PoolOp::FetchPage(page_id) => page_id != INVALID_PAGE_ID,
            PoolOp::WriteData(page_id, _) => self.is_resident(page_id) && self.pin_count(page_id)
                > 0,
            _ => true,
        }
    }

    /// The state after `op`.
    pub open spec fn step(self, op: PoolOp) -> PoolView {
        match op {
            PoolOp::NewPage => self.new_page(),
            PoolOp::FetchPage(page_id) => self.fetch_page(page_id),
            PoolOp::UnpinPage(page_id, is_dirty) => self.unpin_page(page_id, is_dirty),
            PoolOp::FlushPage(page_id) => self.flush_page(page_id),
            PoolOp::FlushAllPages => self.flush_all_pages(),
            PoolOp::DeletePage(page_id) => self.delete_page(page_id),
            PoolOp::WriteData(page_id, data) => self.with_data(self.frame_of(page_id), data),
        }
    }

    /// The state after the operations `ops`, first to last.
    pub open spec fn run(self, ops: Seq<PoolOp>) -> PoolView
        decreases ops.len(),
    {
        if ops.len() == 0 {
            self
        } else {
            self.run(ops.drop_last()).step(ops.last())
        }
    }

    /// Whether the pool accepts each of `ops` in the state in which it comes.
    pub open spec fn admits_all(self, ops: Seq<PoolOp>) -> bool
        decreases ops.len(),
    {
        ops.len() == 0 || (self.admits_all(ops.drop_last()) && self.run(ops.drop_last()).admits(
            ops.last(),
        ))
    }

    /// The state after the page was fetched `n` times.
    pub open spec fn fetch_times(self, page_id: PageID, n: nat) -> PoolView
        decreases n,
    {
        if n == 0 {
            self
        } else {
            self.fetch_times(page_id, (n - 1) as nat).fetch_page(page_id)
        }
    }

    /// The state after the page was unpinned once for each flag of `dirty`,
    /// first to last.
    pub open spec fn unpin_each(self, page_id: PageID, dirty: Seq<bool>) -> PoolView
        decreases dirty.len(),
    {
        if dirty.len() == 0 {
            self
        } else {
            self.unpin_each(page_id, dirty.drop_last()).unpin_page(page_id, dirty.last())
        }
    }

    /// The state after `n` calls of `new_page`.
    pub open spec fn new_pages(self, n: nat) -> PoolView
        decreases n,
    {
        if n == 0 {
            self
        } else {
            self.new_pages((n - 1) as nat).new_page()
        }
    }

    /// Every operation that the pool accepts keeps the invariant.
    pub proof fn lemma_step_inv(self, op: PoolOp)
        requires
            self.inv(),
            self.admits(op),
        ensures
            self.step(op).inv(),
    {
        match op {
            PoolOp::NewPage => self.lemma_new_page_inv(),
            PoolOp::FetchPage(page_id) => self.lemma_fetch_page_inv(page_id),
            PoolOp::UnpinPage(page_id, is_dirty) => self.lemma_unpin_page_inv(page_id, is_dirty),
            PoolOp::FlushPage(page_id) => self.lemma_flush_page_inv(page_id),
            PoolOp::FlushAllPages => self.lemma_flush_frames_inv(self.frames.len() as int),
            PoolOp::DeletePage(page_id) => self.lemma_delete_page_inv(page_id),
            PoolOp::WriteData(page_id, data) => {
                assert(self.page_table.contains_key(page_id));
                self.lemma_with_data_inv(self.frame_of(page_id), data)
            },
        }
    }

    /// The invariant holds after any sequence of accepted operations.
    pub proof fn lemma_run_inv(self, ops: Seq<PoolOp>)
        requires
            self.inv(),
            self.admits_all(ops),
        ensures
            self.run(ops).inv(),
        decreases ops.len(),
    {
        if ops.len() > 0 {
            self.lemma_run_inv(ops.drop_last());
            self.run(ops.drop_last()).lemma_step_inv(ops.last());
        }
    }

    /// Eviction respects pinning: in a state that satisfies the invariant, a
    /// frame with a pinned page is not evictable, is not the replacer's
    /// victim, and is not the frame that the next page gets.
    pub proof fn lemma_pinned_frame_is_kept(self, f: int)
        requires
            self.inv(),
            self.is_frame(f),
            self.frames[f].pin_count > 0,
        ensures
            !self.replacer.is_candidate(f),
            !self.replacer.is_victim(f),
            self.can_acquire() ==> self.next_frame() != f,
    {
        assert(!self.replacer.frames[f].evictable);
        if self.can_acquire() {
            self.lemma_next_frame();
        }
    }

    /// Eviction respects pinning, whatever happened before: after any
    /// sequence of accepted operations on a pool that satisfied the
    /// invariant, no frame with a pinned page is chosen for reuse.
    pub proof fn lemma_eviction_respects_pinning(self, ops: Seq<PoolOp>, f: int)
        requires
            self.inv(),
            self.admits_all(ops),
            self.run(ops).is_frame(f),
            self.run(ops).frames[f].pin_count > 0,
        ensures
            !self.run(ops).replacer.is_victim(f),
            self.run(ops).can_acquire() ==> self.run(ops).next_frame() != f,
    {
        self.lemma_run_inv(ops);
        self.run(ops).lemma_pinned_frame_is_kept(f);
    }

    /// A successful `fetch_page` leaves the page resident with one pin more
    /// than it had (one pin, if it was not resident), in a frame that is not
    /// evictable.
    pub proof fn lemma_fetch_pins(self, page_id: PageID)
        requires
            self.inv(),
            page_id != INVALID_PAGE_ID,
            self.fetch_succeeds(page_id),
        ensures
            self.fetch_page(page_id).is_resident(page_id),
            self.fetch_page(page_id).pin_count(page_id) == (if self.is_resident(page_id) {
                self.pin_count(page_id) + 1
            } else {
                1
            }),
            self.is_resident(page_id) ==> self.fetch_page(page_id).frame_of(page_id)
                == self.frame_of(page_id),
            !self.fetch_page(page_id).replacer.is_candidate(
                self.fetch_page(page_id).frame_of(page_id),
            ),
    {
        self.lemma_fetch_page_inv(page_id);
        let after = self.fetch_page(page_id);
        assert(after.page_table.contains_key(page_id));
        if !self.is_resident(page_id) {
            self.lemma_next_frame();
        }
    }

    /// A successful `new_page` leaves the new page resident with one pin, in
    /// a frame that is not evictable.
    pub proof fn lemma_new_page_pins(self)
        requires
            self.inv(),
            self.has_fresh_page_id(),
            self.can_acquire(),
        ensures
            self.new_page().is_resident(self.next_page_id as PageID),
            self.new_page().pin_count(self.next_page_id as PageID) == 1,
            self.new_page().frame_of(self.next_page_id as PageID) == self.next_frame(),
            !self.new_page().replacer.is_candidate(self.next_frame()),
    {
        self.lemma_new_page_inv();
        self.lemma_next_frame();
        let after = self.new_page();
        assert(after.page_table.contains_key(self.next_page_id as PageID));
    }

    /// The pin count of a page, counting a page that is not resident as
    /// unpinned.
    pub open spec fn pins(self, page_id: PageID) -> int {
        if self.is_resident(page_id) {
            self.pin_count(page_id)
        } else {
            0
        }
    }

    /// Fetching a page `n` times, where the first fetch finds the page
    /// resident or finds a frame for it, adds `n` pins; the later fetches
    /// find the page where the first one left it.
    pub proof fn lemma_fetch_times(self, page_id: PageID, n: nat)
        requires
            self.inv(),
            page_id != INVALID_PAGE_ID,
            n >= 1,
            self.fetch_succeeds(page_id),
        ensures
            self.fetch_times(page_id, n).inv(),
            self.fetch_times(page_id, n).is_resident(page_id),
            self.fetch_times(page_id, n).frame_of(page_id) == self.fetch_page(page_id).frame_of(
                page_id,
            ),
            self.fetch_times(page_id, n).pin_count(page_id) == self.pins(page_id) + n,
        decreases n,
    {
        self.lemma_fetch_page_inv(page_id);
        self.lemma_fetch_pins(page_id);
        if n == 1 {
            assert(self.fetch_times(page_id, 0) == self);
        } else {
            let before = self.fetch_times(page_id, (n - 1) as nat);
            self.lemma_fetch_times(page_id, (n - 1) as nat);
            assert(before.page_table.contains_key(page_id));
            before.lemma_fetch_page_inv(page_id);
            before.lemma_fetch_pins(page_id);
        }
    }

    /// Unpinning a resident page no more often than it is pinned: every call
    /// succeeds, each takes one pin, and the page stays where it is.
    pub proof fn lemma_unpin_each(self, page_id: PageID, dirty: Seq<bool>)
        requires
            self.inv(),
            self.is_resident(page_id),
            dirty.len() <= self.pin_count(page_id),
        ensures
            self.unpin_each(page_id, dirty).inv(),
            self.unpin_each(page_id, dirty).is_resident(page_id),
            self.unpin_each(page_id, dirty).frame_of(page_id) == self.frame_of(page_id),
            self.unpin_each(page_id, dirty).pin_count(page_id) == self.pin_count(page_id)
                - dirty.len(),
            dirty.len() > 0 ==> self.unpin_each(page_id, dirty.drop_last()).unpin_succeeds(
                page_id,
            ),
        decreases dirty.len(),
    {
        if dirty.len() > 0 {
            let before = self.unpin_each(page_id, dirty.drop_last());
            self.lemma_unpin_each(page_id, dirty.drop_last());
            assert(before.page_table.contains_key(page_id));
            before.lemma_unpin_page_inv(page_id, dirty.last());
        }
    }

    /// Pin/unpin balance: when a page is fetched any number of times, each
    /// fetch returning the page, and then unpinned once for each pin it has,
    /// every unpin succeeds, and in the end the page is still in its frame
    /// with no pin, and the frame is evictable.
    pub proof fn lemma_pin_unpin_balance(
        self,
        page_id: PageID,
        fetches: nat,
        dirty: Seq<bool>,
    )
        requires
            self.inv(),
            page_id != INVALID_PAGE_ID,
            self.is_resident(page_id) || (fetches >= 1 && self.can_acquire()),
            dirty.len() == self.pins(page_id) + fetches,
        ensures
            ({
                let pinned = self.fetch_times(page_id, fetches);
                let released = pinned.unpin_each(page_id, dirty);
                &&& pinned.is_resident(page_id)
                &&& pinned.pin_count(page_id) == self.pins(page_id) + fetches
                &&& forall|i: int|
                    0 <= i < dirty.len() ==> (#[trigger] pinned.unpin_each(
                        page_id,
                        dirty.take(i),
                    )).unpin_succeeds(page_id)
                &&& released.inv()
                &&& released.is_resident(page_id)
                &&& released.frame_of(page_id) == pinned.frame_of(page_id)
                &&& released.pin_count(page_id) == 0
                &&& released.replacer.is_candidate(released.frame_of(page_id))
            }),
    {
        let pinned = self.fetch_times(page_id, fetches);
        if fetches >= 1 {
            self.lemma_fetch_times(page_id, fetches);
        }
        pinned.lemma_unpin_each(page_id, dirty);
        let released = pinned.unpin_each(page_id, dirty);
        assert(released.page_table.contains_key(page_id));
        assert(released.replacer.frames[released.frame_of(page_id)].evictable);
        assert forall|i: int| 0 <= i < dirty.len() implies (#[trigger] pinned.unpin_each(
            page_id,
            dirty.take(i),
        )).unpin_succeeds(page_id) by {
            pinned.lemma_unpin_each(page_id, dirty.take(i));
        }
    }

    /// Pin/unpin balance for a new page: a page that `new_page` returned,
    /// fetched any number of times more and then unpinned once for each pin,
    /// ends with no pin in a frame that is evictable.
    pub proof fn lemma_new_page_pin_unpin_balance(self, fetches: nat, dirty: Seq<bool>)
        requires
            self.inv(),
            self.has_fresh_page_id(),
            self.can_acquire(),
            dirty.len() == 1 + fetches,
        ensures
            ({
                let page_id = self.next_page_id as PageID;
                let released = self.new_page().fetch_times(page_id, fetches).unpin_each(
                    page_id,
                    dirty,
                );
                &&& released.inv()
                &&& released.is_resident(page_id)
                &&& released.frame_of(page_id) == self.next_frame()
                &&& released.pin_count(page_id) == 0
                &&& released.replacer.is_candidate(self.next_frame())
            }),
    {
        self.lemma_new_page_inv();
        self.lemma_new_page_pins();
        self.new_page().lemma_pin_unpin_balance(self.next_page_id as PageID, fetches, dirty);
        if fetches >= 1 {
            self.new_page().lemma_fetch_times(self.next_page_id as PageID, fetches);
            self.new_page().lemma_fetch_pins(self.next_page_id as PageID);
        }
    }

    /// Capacity exhaustion: while every frame holds a pinned page, no frame
    /// can be had, so `new_page` and `fetch_page` of a page that is not
    /// resident change nothing and return no page.
    pub proof fn lemma_all_pinned_is_exhausted(self, page_id: PageID)
        requires
            self.inv(),
            forall|f: int| self.is_frame(f) ==> (#[trigger] self.frames[f]).pin_count > 0,
        ensures
            !self.can_acquire(),
            self.new_page() == self,
            !self.is_resident(page_id) ==> !self.fetch_succeeds(page_id) && self.fetch_page(
                page_id,
            ) == self,
    {
        if self.free_list.len() > 0 {
            let f = self.free_list[0] as int;
            assert(self.is_frame(f));
            assert(self.frames[f].pin_count > 0);
        }
        if self.replacer.has_victim() {
            let f = choose|f: int| self.replacer.is_candidate(f);
            assert(self.replacer.frames[f].evictable);
            assert(self.frames[f].pin_count > 0);
        }
    }

    /// The first `n` calls of `new_page` on a new pool of at least `n`
    /// frames: each finds a free frame, and the pages `0..n` sit pinned once
    /// in the frames `0..n`.
    pub proof fn lemma_new_pages_on_new_pool(pool_size: nat, disk: DiskView, k: nat, n: nat)
        requires
            pool_size <= i32::MAX,
            k >= 1,
            n <= pool_size,
        ensures
            ({
                let filled = PoolView::new(pool_size, disk, k).new_pages(n);
                &&& filled.inv()
                &&& filled.next_page_id == n
                &&& filled.frames.len() == pool_size
                &&& filled.free_list == Seq::new(
                    (pool_size - n) as nat,
                    |i: int| (n + i) as FrameID,
                )
                &&& forall|f: int|
                    0 <= f < n ==> (#[trigger] filled.frames[f]).page_id == f
                        && filled.frames[f].pin_count == 1
                &&& forall|f: int| n <= f < pool_size ==> (#[trigger] filled.frames[f]).is_vacant()
                &&& !filled.replacer.has_victim()
                &&& n > 0 ==> PoolView::new(pool_size, disk, k).new_pages(
                    (n - 1) as nat,
                ).can_acquire()
            }),
        decreases n,
    {
        let fresh = PoolView::new(pool_size, disk, k);
        if n == 0 {
            PoolView::lemma_new_inv(pool_size, disk, k);
            assert(fresh.free_list =~= Seq::new(pool_size, |i: int| (0 + i) as FrameID));
        } else {
            let m = (n - 1) as nat;
            PoolView::lemma_new_pages_on_new_pool(pool_size, disk, k, m);
            let before = fresh.new_pages(m);
            let filled = before.new_page();
            assert(before.free_list.len() > 0);
            assert(before.free_list[0] == m as FrameID);
            assert(before.next_frame() == m);
            assert(!before.is_resident(m as PageID)) by {
                if before.page_table.contains_key(m as PageID) {
                    let g = before.page_table[m as PageID] as int;
                    assert(before.frames[g].page_id == m as PageID);
                    if g >= m {
                        assert(before.frames[g].is_vacant());
                    }
                }
            }
            before.lemma_new_page_inv();
            assert(filled.free_list =~= Seq::new(
                (pool_size - n) as nat,
                |i: int| (n + i) as FrameID,
            ));
            assert forall|f: int| 0 <= f < n implies (#[trigger] filled.frames[f]).page_id == f
                && filled.frames[f].pin_count == 1 by {
                if f < m {
                    assert(before.frames[f].page_id == f);
                }
            }
            assert forall|f: int| n <= f < pool_size implies (
            #[trigger] filled.frames[f]).is_vacant() by {
                assert(before.frames[f].is_vacant());
            }
            assert(!filled.replacer.has_victim()) by {
                if filled.replacer.has_victim() {
                    let g = choose|g: int| filled.replacer.is_candidate(g);
                    assert(filled.replacer.frames[g].evictable);
                    if g != m {
                        assert(before.replacer.is_candidate(g));
                    }
                }
            }
        }
    }

    /// Capacity exhaustion on a new pool: after as many calls of `new_page`
    /// as the pool has frames, each of which returned a page, and with no
    /// unpin, the next `new_page` and the next `fetch_page` of a page that
    /// is not resident return no page and change nothing.
    pub proof fn lemma_full_pool_is_exhausted(
        pool_size: nat,
        disk: DiskView,
        k: nat,
        page_id: PageID,
    )
        requires
            pool_size <= i32::MAX,
            k >= 1,
        ensures
            ({
                let full = PoolView::new(pool_size, disk, k).new_pages(pool_size);
                &&& forall|n: nat|
                    n < pool_size ==> (#[trigger] PoolView::new(pool_size, disk, k).new_pages(
                        n,
                    )).can_acquire()
                &&& !full.can_acquire()
                &&& full.new_page() == full
                &&& !full.is_resident(page_id) ==> !full.fetch_succeeds(page_id)
                    && full.fetch_page(page_id) == full
            }),
    {
        let fresh = PoolView::new(pool_size, disk, k);
        let full = fresh.new_pages(pool_size);
        PoolView::lemma_new_pages_on_new_pool(pool_size, disk, k, pool_size);
        assert forall|f: int| full.is_frame(f) implies (#[trigger] full.frames[f]).pin_count
            > 0 by {
            assert(full.frames[f].pin_count == 1);
        }
        full.lemma_all_pinned_is_exhausted(page_id);
        assert forall|n: nat| n < pool_size implies (#[trigger] fresh.new_pages(
            n,
        )).can_acquire() by {
            PoolView::lemma_new_pages_on_new_pool(pool_size, disk, k, n + 1);
            assert(((n + 1) - 1) as nat == n);
        }
    }

    /// Unpinning a page as dirty marks it dirty, and a dirty page stays
    /// dirty as long as it is resident, until it is flushed: no other
    /// accepted operation cleans it.
    pub proof fn lemma_dirty_persists(self, op: PoolOp, page_id: PageID)
        requires
            self.inv(),
            self.admits(op),
            self.is_resident(page_id),
            self.is_dirty(page_id) || (op == PoolOp::UnpinPage(page_id, true)
                && self.unpin_succeeds(page_id)),
            op != PoolOp::FlushPage(page_id),
            op != PoolOp::FlushAllPages,
            self.step(op).is_resident(page_id),
        ensures
            self.step(op).is_dirty(page_id),
            self.step(op).frame_of(page_id) == self.frame_of(page_id),
    {
        let f = self.frame_of(page_id);
        assert(self.page_table.contains_key(page_id));
        assert(self.frames[f].page_id == page_id);
        match op {
            PoolOp::NewPage => {
                if self.can_acquire() {
                    self.lemma_next_frame();
                }
            },
            PoolOp::FetchPage(other) => {
                if !self.is_resident(other) && self.can_acquire() {
                    self.lemma_next_frame();
                }
            },
            PoolOp::UnpinPage(other, is_dirty) => {
                if self.unpin_succeeds(other) {
                    assert(self.page_table.contains_key(other));
                    assert(self.frames[self.frame_of(other)].page_id == other);
                }
            },
            PoolOp::FlushPage(other) => {
                if self.is_resident(other) {
                    assert(self.page_table.contains_key(other));
                    assert(self.frames[self.frame_of(other)].page_id == other);
                }
            },
            PoolOp::FlushAllPages => {},
            PoolOp::DeletePage(other) => {
                if self.is_resident(other) {
                    assert(self.page_table.contains_key(other));
                    assert(self.frames[self.frame_of(other)].page_id == other);
                }
            },
            PoolOp::WriteData(other, data) => {
                assert(self.page_table.contains_key(other));
                assert(self.frames[self.frame_of(other)].page_id == other);
            },
        }
    }

    /// Dirty write-back: when a frame is reused whose page is dirty, the
    /// disk receives that page's id and bytes, as its latest write, before
    /// the frame gets its new page; the evicted page is no longer resident.
    /// A clean page is evicted without a write.
    pub proof fn lemma_eviction_writes_back(self, page_id: PageID)
        requires
            self.inv(),
            page_id != INVALID_PAGE_ID,
            !self.is_resident(page_id),
            self.free_list.len() == 0,
            self.replacer.has_victim(),
        ensures
            ({
                let evicted = self.frames[self.replacer.victim()];
                let written = self.disk.write(evicted.page_id, evicted.data);
                let after = self.fetch_page(page_id);
                &&& self.is_resident(evicted.page_id)
                &&& self.frame_of(evicted.page_id) == self.replacer.victim()
                &&& evicted.pin_count == 0
                &&& !after.is_resident(evicted.page_id)
                &&& after.frame_of(page_id) == self.replacer.victim()
                &&& evicted.is_dirty ==> after.disk == written && written.writes.last() == (
                    evicted.page_id,
                    evicted.data,
                ) && written.read(evicted.page_id) == evicted.data
                &&& !evicted.is_dirty ==> after.disk == self.disk
                &&& after.data(page_id) == after.disk.read(page_id)
                &&& self.has_fresh_page_id() && page_id == self.next_page_id as PageID ==> {
                    &&& self.new_page().disk == after.disk
                    &&& !self.new_page().is_resident(evicted.page_id)
                    &&& self.new_page().frame_of(page_id) == self.replacer.victim()
                    &&& self.new_page().data(page_id) == zero_page()
                }
            }),
    {
        self.lemma_next_frame();
        let v = self.replacer.victim();
        let evicted = self.frames[v];
        assert(self.page_table.contains_key(evicted.page_id));
        let after = self.fetch_page(page_id);
        assert(after.page_table.contains_key(page_id));
    }

    /// Idempotent flush: flushing a resident page twice in a row writes it
    /// to disk twice, with the same bytes, whether it was dirty or not; the
    /// second flush changes nothing but the disk's record of writes, the
    /// page is clean, and its bytes are what they were.
    pub proof fn lemma_flush_twice(self, page_id: PageID)
        requires
            self.inv(),
            self.is_resident(page_id),
        ensures
            ({
                let once = self.flush_page(page_id);
                let twice = once.flush_page(page_id);
                let record = (page_id, self.data(page_id));
                &&& once.disk.writes == self.disk.writes.push(record)
                &&& twice.disk.writes == self.disk.writes.push(record).push(record)
                &&& twice.disk.image == once.disk.image
                &&& once.disk.read(page_id) == self.data(page_id)
                &&& !once.is_dirty(page_id)
                &&& !twice.is_dirty(page_id)
                &&& twice.data(page_id) == self.data(page_id)
                &&& twice.frames == once.frames
                &&& twice.page_table == self.page_table
                &&& twice.free_list == self.free_list
                &&& twice.replacer == self.replacer
                &&& twice.next_page_id == self.next_page_id
            }),
    {
        let f = self.frame_of(page_id);
        assert(self.page_table.contains_key(page_id));
        assert(self.frames[f].page_id == page_id);
        let once = self.flush_page(page_id);
        let twice = once.flush_page(page_id);
        assert(twice.frames =~= once.frames);
        assert(twice.disk.image =~= once.disk.image);
    }

    /// `flush_all_pages` writes every resident page to disk and marks it
    /// clean; it moves no page, pins none and evicts none.
    pub proof fn lemma_flush_all_pages(self, page_id: PageID)
        requires
            self.inv(),
        ensures
            self.flush_all_pages().page_table == self.page_table,
            self.flush_all_pages().free_list == self.free_list,
            self.flush_all_pages().replacer == self.replacer,
            self.flush_all_pages().next_page_id == self.next_page_id,
            self.is_resident(page_id) ==> {
                &&& !self.flush_all_pages().is_dirty(page_id)
                &&& self.flush_all_pages().data(page_id) == self.data(page_id)
                &&& self.flush_all_pages().pin_count(page_id) == self.pin_count(page_id)
                &&& self.flush_all_pages().disk.read(page_id) == self.data(page_id)
            },
            !self.is_resident(page_id) ==> self.flush_all_pages().disk.read(page_id)
                == self.disk.read(page_id),
    {
        self.lemma_flush_frames(self.frames.len() as int, page_id);
        if self.is_resident(page_id) {
            assert(self.page_table.contains_key(page_id));
        }
    }

    /// What flushing the frames below `n` does to the page `page_id`.
    proof fn lemma_flush_frames(self, n: int, page_id: PageID)
        requires
            self.inv(),
            0 <= n <= self.frames.len(),
        ensures
            ({
                let after = self.flush_frames(n);
                &&& after.page_table == self.page_table
                &&& after.free_list == self.free_list
                &&& after.replacer == self.replacer
                &&& after.next_page_id == self.next_page_id
                &&& after.frames.len() == self.frames.len()
                &&& forall|f: int|
                    self.is_frame(f) ==> {
                        &&& (#[trigger] after.frames[f]).page_id == self.frames[f].page_id
                        &&& after.frames[f].pin_count == self.frames[f].pin_count
                        &&& after.frames[f].data == self.frames[f].data
                        &&& after.frames[f].is_dirty == (self.frames[f].is_dirty && (f >= n
                            || self.frames[f].is_vacant()))
                    }
                &&& after.disk.read(page_id) == (if self.is_resident(page_id) && self.frame_of(
                    page_id,
                ) < n {
                    self.data(page_id)
                } else {
                    self.disk.read(page_id)
                })
            }),
        decreases n,
    {
        if n > 0 {
            self.lemma_flush_frames(n - 1, page_id);
            let before = self.flush_frames(n - 1);
            let after = before.flush_frame(n - 1);
            assert forall|f: int| self.is_frame(f) implies {
                &&& (#[trigger] after.frames[f]).page_id == self.frames[f].page_id
                &&& after.frames[f].pin_count == self.frames[f].pin_count
                &&& after.frames[f].data == self.frames[f].data
                &&& after.frames[f].is_dirty == (self.frames[f].is_dirty && (f >= n
                    || self.frames[f].is_vacant()))
            } by {
                assert(before.frames[f].page_id == self.frames[f].page_id);
                assert(self.frames[f].is_vacant() ==> !self.frames[f].is_dirty);
            }
            assert(before.frames[n - 1].page_id == self.frames[n - 1].page_id);
            if self.is_resident(page_id) {
                assert(self.page_table.contains_key(page_id));
                assert(self.frames[self.frame_of(page_id)].page_id == page_id);
            }
            if !self.frames[n - 1].is_vacant() {
                assert(self.page_table.contains_key(self.frames[n - 1].page_id));
            }
        }
    }

    /// Delete semantics. Deleting a page that is not resident succeeds and
    /// changes nothing. Deleting a pinned page fails and changes nothing.
    /// Deleting an unpinned resident page succeeds: the page leaves the page
    /// table, its frame is emptied and forgotten by the replacer, and the
    /// frame joins the end of the free list, so that the pool hands it out
    /// again, without asking the replacer and without a write to disk, once
    /// the frames that were free before it are used up.
    pub proof fn lemma_delete_page(self, page_id: PageID)
        requires
            self.inv(),
        ensures
            !self.is_resident(page_id) ==> self.delete_succeeds(page_id) && self.delete_page(
                page_id,
            ) == self,
            self.is_resident(page_id) && self.pin_count(page_id) > 0 ==> !self.delete_succeeds(
                page_id,
            ) && self.delete_page(page_id) == self,
            self.is_resident(page_id) && self.pin_count(page_id) == 0 ==> ({
                let f = self.frame_of(page_id);
                let after = self.delete_page(page_id);
                &&& self.delete_succeeds(page_id)
                &&& after.inv()
                &&& !after.is_resident(page_id)
                &&& after.frames[f].is_vacant()
                &&& after.frames[f].data == zero_page()
                &&& !after.replacer.is_candidate(f)
                &&& after.free_list == self.free_list.push(f as FrameID)
                &&& after.disk == self.disk
                &&& after.can_acquire()
                &&& self.free_list.len() == 0 ==> after.next_frame() == f
                &&& after.take_frame().replacer == after.replacer
                &&& after.take_frame().disk == after.disk
                &&& after.take_frame().page_table == after.page_table
            }),
    {
        if self.is_resident(page_id) {
            assert(self.page_table.contains_key(page_id));
            if self.pin_count(page_id) == 0 {
                self.lemma_delete_page_inv(page_id);
            }
        }
    }
}

} // verus!
