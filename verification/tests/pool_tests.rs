use buffer_pool::BufferPoolManager;
use buffer_pool::DiskManager;
use buffer_pool::PageID;
use buffer_pool::PAGE_SIZE;

fn pool(pool_size: usize, k: usize) -> BufferPoolManager {
    BufferPoolManager::new(pool_size, DiskManager::new(), k)
}

/// Creates a page, fills its bytes with `fill` and returns its id, still pinned.
fn create(pool: &mut BufferPoolManager, fill: u8) -> PageID {
    let mut page_id: PageID = -7;
    let page = pool.new_page(&mut page_id).unwrap();
    assert_eq!(page.page_id, page_id);
    page.data = [fill; PAGE_SIZE];
    page_id
}

fn disk_image(pool: &BufferPoolManager, page_id: PageID) -> [u8; PAGE_SIZE] {
    let mut buffer = [0xEEu8; PAGE_SIZE];
    pool.disk_manager().read_page(page_id, &mut buffer);
    buffer
}

#[test]
fn new_pool_has_only_free_frames() {
    let pool = pool(5, 2);
    assert_eq!(pool.pool_size(), 5);
    assert_eq!(pool.free_frames(), 5);
    assert_eq!(pool.next_page_id(), 0);
    assert_eq!(pool.replacer().size(), 0);
    assert_eq!(pool.replacer().capacity(), 5);
    assert_eq!(pool.disk_manager().num_writes(), 0);
    assert_eq!(pool.pin_count(0), None);
    assert_eq!(pool.is_dirty(0), None);
}

#[test]
fn new_page_hands_out_consecutive_ids_and_zeroed_pinned_pages() {
    let mut pool = pool(3, 2);
    for expected in 0..3 {
        let mut page_id: PageID = 99;
        let page = pool.new_page(&mut page_id).unwrap();
        assert_eq!(page_id, expected);
        assert_eq!(page.page_id, expected);
        assert_eq!(page.pin_count, 1);
        assert!(!page.is_dirty);
        assert!(page.data.iter().all(|b| *b == 0));
        assert_eq!(pool.pin_count(expected), Some(1));
        assert_eq!(pool.is_dirty(expected), Some(false));
    }
    assert_eq!(pool.free_frames(), 0);
    assert_eq!(pool.next_page_id(), 3);
    assert_eq!(pool.replacer().size(), 0);
}

#[test]
fn pin_unpin_balance() {
    let mut pool = pool(2, 2);
    let page_id = create(&mut pool, 1);
    assert_eq!(pool.fetch_page(page_id).unwrap().pin_count, 2);
    assert_eq!(pool.fetch_page(page_id).unwrap().pin_count, 3);
    assert_eq!(pool.pin_count(page_id), Some(3));
    assert_eq!(pool.replacer().size(), 0);
    assert!(pool.unpin_page(page_id, false));
    assert!(pool.unpin_page(page_id, false));
    assert_eq!(pool.pin_count(page_id), Some(1));
    assert_eq!(pool.replacer().size(), 0);
    assert!(pool.unpin_page(page_id, false));
    assert_eq!(pool.pin_count(page_id), Some(0));
    assert_eq!(pool.replacer().size(), 1);
    // one unpin too many
    assert!(!pool.unpin_page(page_id, false));
    assert_eq!(pool.pin_count(page_id), Some(0));
    assert_eq!(pool.replacer().size(), 1);
}

#[test]
fn unpin_of_absent_page_fails_without_effect() {
    let mut pool = pool(2, 2);
    let page_id = create(&mut pool, 1);
    assert!(!pool.unpin_page(page_id + 1, true));
    assert_eq!(pool.pin_count(page_id), Some(1));
    assert_eq!(pool.is_dirty(page_id), Some(false));
    assert_eq!(pool.free_frames(), 1);
}

#[test]
fn over_unpin_does_not_set_the_dirty_flag() {
    let mut pool = pool(1, 2);
    let page_id = create(&mut pool, 1);
    assert!(pool.unpin_page(page_id, false));
    assert!(!pool.unpin_page(page_id, true));
    assert_eq!(pool.is_dirty(page_id), Some(false));
}

#[test]
fn unpin_never_clears_the_dirty_flag() {
    let mut pool = pool(2, 2);
    let page_id = create(&mut pool, 1);
    assert!(pool.fetch_page(page_id).is_some());
    assert!(pool.unpin_page(page_id, true));
    assert_eq!(pool.is_dirty(page_id), Some(true));
    assert!(pool.unpin_page(page_id, false));
    assert_eq!(pool.is_dirty(page_id), Some(true));
    // the handle shows the flag as the pool has it
    assert!(pool.fetch_page(page_id).unwrap().is_dirty);
}

#[test]
fn eviction_respects_pinning() {
    let mut pool = pool(2, 2);
    let kept = create(&mut pool, 1);
    let released = create(&mut pool, 2);
    assert!(pool.unpin_page(released, false));
    let third = create(&mut pool, 3);
    assert_eq!(third, 2);
    assert_eq!(pool.pin_count(kept), Some(1));
    assert_eq!(pool.pin_count(released), None);
    assert_eq!(pool.pin_count(third), Some(1));
    // both frames are pinned again
    let mut page_id: PageID = 50;
    assert!(pool.new_page(&mut page_id).is_none());
    assert_eq!(pool.pin_count(kept), Some(1));
}

#[test]
fn capacity_exhaustion() {
    let mut pool = pool(3, 2);
    for _ in 0..3 {
        create(&mut pool, 4);
    }
    let mut page_id: PageID = 50;
    assert!(pool.new_page(&mut page_id).is_none());
    assert_eq!(page_id, 50);
    assert!(pool.new_page_concurrent(&mut page_id).is_none());
    assert_eq!(page_id, 50);
    assert!(pool.fetch_page(77).is_none());
    // the failed calls consumed no page id and changed nothing
    assert_eq!(pool.next_page_id(), 3);
    assert_eq!(pool.pin_count(0), Some(1));
    assert_eq!(pool.pin_count(1), Some(1));
    assert_eq!(pool.pin_count(2), Some(1));
    assert_eq!(pool.pin_count(77), None);
    assert_eq!(pool.disk_manager().num_writes(), 0);
    // a resident page can still be fetched
    assert_eq!(pool.fetch_page(1).unwrap().pin_count, 2);
    // and one unpinned frame is enough for the next page
    assert!(pool.unpin_page(0, false));
    assert_eq!(create(&mut pool, 5), 3);
}

#[test]
fn pool_without_frames_is_always_exhausted() {
    let mut pool = pool(0, 1);
    let mut page_id: PageID = 8;
    assert!(pool.new_page(&mut page_id).is_none());
    assert_eq!(page_id, 8);
    assert!(pool.fetch_page(0).is_none());
    pool.flush_all_pages();
    assert_eq!(pool.disk_manager().num_writes(), 0);
}

#[test]
fn dirty_page_is_written_back_on_eviction() {
    let mut pool = pool(1, 2);
    let first = create(&mut pool, 0xAB);
    assert!(pool.unpin_page(first, true));
    assert_eq!(pool.disk_manager().num_writes(), 0);
    assert_eq!(disk_image(&pool, first), [0u8; PAGE_SIZE]);
    let second = create(&mut pool, 0xCD);
    assert_eq!(pool.disk_manager().num_writes(), 1);
    assert_eq!(disk_image(&pool, first), [0xABu8; PAGE_SIZE]);
    assert_eq!(pool.pin_count(first), None);
    // the new page has not reached the disk
    assert_eq!(disk_image(&pool, second), [0u8; PAGE_SIZE]);
}

#[test]
fn clean_page_is_evicted_without_a_write() {
    let mut pool = pool(1, 2);
    let first = create(&mut pool, 0xAB);
    assert!(pool.unpin_page(first, false));
    let second = create(&mut pool, 0xCD);
    assert_eq!(second, 1);
    assert_eq!(pool.disk_manager().num_writes(), 0);
    assert_eq!(disk_image(&pool, first), [0u8; PAGE_SIZE]);
}

#[test]
fn fetch_reads_an_evicted_page_back_from_disk() {
    let mut pool = pool(1, 2);
    let first = create(&mut pool, 0x11);
    assert!(pool.unpin_page(first, true));
    let second = create(&mut pool, 0x22);
    assert!(pool.unpin_page(second, true));
    let page = pool.fetch_page(first).unwrap();
    assert_eq!(page.page_id, first);
    assert_eq!(page.pin_count, 1);
    assert!(!page.is_dirty);
    assert_eq!(page.data, [0x11u8; PAGE_SIZE]);
    assert_eq!(pool.disk_manager().num_writes(), 2);
    assert_eq!(disk_image(&pool, second), [0x22u8; PAGE_SIZE]);
    assert_eq!(pool.pin_count(second), None);
}

#[test]
fn fetch_of_resident_page_touches_no_disk_and_no_other_frame() {
    let mut pool = pool(2, 2);
    let first = create(&mut pool, 0x11);
    assert!(pool.unpin_page(first, true));
    let page = pool.fetch_page(first).unwrap();
    assert_eq!(page.data, [0x11u8; PAGE_SIZE]);
    assert_eq!(page.pin_count, 1);
    assert!(page.is_dirty);
    assert_eq!(pool.disk_manager().num_writes(), 0);
    assert_eq!(pool.free_frames(), 1);
    assert_eq!(pool.replacer().size(), 0);
}

#[test]
fn fetch_of_page_that_was_never_written_gives_zeros() {
    let mut pool = pool(2, 2);
    let page = pool.fetch_page(40).unwrap();
    assert_eq!(page.page_id, 40);
    assert_eq!(page.pin_count, 1);
    assert!(page.data.iter().all(|b| *b == 0));
    assert_eq!(pool.pin_count(40), Some(1));
    assert_eq!(pool.free_frames(), 1);
    assert_eq!(pool.next_page_id(), 0);
}

#[test]
fn new_page_zeroes_a_reused_frame() {
    let mut pool = pool(1, 2);
    let first = create(&mut pool, 0x77);
    assert!(pool.unpin_page(first, false));
    let mut page_id: PageID = 0;
    let page = pool.new_page(&mut page_id).unwrap();
    assert_eq!(page_id, 1);
    assert!(page.data.iter().all(|b| *b == 0));
    assert!(!page.is_dirty);
}

#[test]
fn idempotent_flush() {
    let mut pool = pool(2, 2);
    let page_id = create(&mut pool, 0x5A);
    assert!(pool.unpin_page(page_id, true));
    assert!(pool.flush_page(page_id));
    assert_eq!(pool.disk_manager().num_writes(), 1);
    assert_eq!(pool.is_dirty(page_id), Some(false));
    assert!(pool.flush_page(page_id));
    assert_eq!(pool.disk_manager().num_writes(), 2);
    assert_eq!(pool.is_dirty(page_id), Some(false));
    assert_eq!(disk_image(&pool, page_id), [0x5Au8; PAGE_SIZE]);
    assert_eq!(pool.fetch_page(page_id).unwrap().data, [0x5Au8; PAGE_SIZE]);
}

#[test]
fn flush_writes_a_page_that_is_not_marked_dirty() {
    let mut pool = pool(2, 2);
    let page_id = create(&mut pool, 0x33);
    assert_eq!(pool.is_dirty(page_id), Some(false));
    assert!(pool.flush_page(page_id));
    assert_eq!(disk_image(&pool, page_id), [0x33u8; PAGE_SIZE]);
    assert_eq!(pool.disk_manager().num_writes(), 1);
}

#[test]
fn flush_does_not_need_the_page_unpinned_and_keeps_the_pins() {
    let mut pool = pool(2, 2);
    let page_id = create(&mut pool, 0x33);
    assert!(pool.fetch_page(page_id).is_some());
    assert!(pool.flush_page(page_id));
    assert_eq!(pool.pin_count(page_id), Some(2));
    assert_eq!(pool.replacer().size(), 0);
}

#[test]
fn flush_of_absent_page_fails_without_a_write() {
    let mut pool = pool(2, 2);
    create(&mut pool, 1);
    assert!(!pool.flush_page(9));
    assert!(!pool.flush_page(-1));
    assert_eq!(pool.disk_manager().num_writes(), 0);
}

#[test]
fn flush_all_pages_writes_every_resident_page() {
    let mut pool = pool(4, 2);
    let a = create(&mut pool, 0xA0);
    let b = create(&mut pool, 0xB0);
    let c = create(&mut pool, 0xC0);
    assert!(pool.unpin_page(a, true));
    assert!(pool.unpin_page(b, false));
    pool.flush_all_pages();
    // three resident pages, one empty frame
    assert_eq!(pool.disk_manager().num_writes(), 3);
    assert_eq!(disk_image(&pool, a), [0xA0u8; PAGE_SIZE]);
    assert_eq!(disk_image(&pool, b), [0xB0u8; PAGE_SIZE]);
    assert_eq!(disk_image(&pool, c), [0xC0u8; PAGE_SIZE]);
    assert_eq!(pool.is_dirty(a), Some(false));
    assert_eq!(pool.is_dirty(b), Some(false));
    assert_eq!(pool.is_dirty(c), Some(false));
    assert_eq!(pool.pin_count(a), Some(0));
    assert_eq!(pool.pin_count(c), Some(1));
    assert_eq!(pool.free_frames(), 1);
    assert_eq!(pool.replacer().size(), 2);
}

#[test]
fn delete_of_absent_page_succeeds_without_effect() {
    let mut pool = pool(2, 2);
    let page_id = create(&mut pool, 1);
    assert!(pool.delete_page(page_id + 5));
    assert_eq!(pool.pin_count(page_id), Some(1));
    assert_eq!(pool.free_frames(), 1);
    assert_eq!(pool.replacer().size(), 0);
    assert_eq!(pool.disk_manager().num_writes(), 0);
}

#[test]
fn delete_of_pinned_page_fails_without_effect() {
    let mut pool = pool(2, 2);
    let page_id = create(&mut pool, 0x42);
    assert!(!pool.delete_page(page_id));
    assert_eq!(pool.pin_count(page_id), Some(1));
    assert_eq!(pool.free_frames(), 1);
    assert_eq!(pool.fetch_page(page_id).unwrap().data, [0x42u8; PAGE_SIZE]);
}

#[test]
fn delete_returns_the_frame_to_the_free_list() {
    let mut pool = pool(2, 2);
    let first = create(&mut pool, 0x42);
    let second = create(&mut pool, 0x43);
    assert!(pool.unpin_page(first, true));
    assert!(pool.unpin_page(second, true));
    assert_eq!(pool.replacer().size(), 2);
    assert!(pool.delete_page(first));
    assert_eq!(pool.pin_count(first), None);
    assert_eq!(pool.free_frames(), 1);
    assert_eq!(pool.replacer().size(), 1);
    // a deleted page is dropped, not written
    assert_eq!(pool.disk_manager().num_writes(), 0);
    // the next page takes the freed frame: nothing is evicted or written
    let mut page_id: PageID = 0;
    let page = pool.new_page(&mut page_id).unwrap();
    assert_eq!(page_id, 2);
    assert!(page.data.iter().all(|b| *b == 0));
    assert_eq!(pool.free_frames(), 0);
    assert_eq!(pool.pin_count(second), Some(0));
    assert_eq!(pool.replacer().size(), 1);
    assert_eq!(pool.disk_manager().num_writes(), 0);
}

#[test]
fn free_frames_are_used_before_any_eviction() {
    let mut pool = pool(3, 2);
    let first = create(&mut pool, 1);
    assert!(pool.unpin_page(first, true));
    create(&mut pool, 2);
    create(&mut pool, 3);
    assert_eq!(pool.pin_count(first), Some(0));
    assert_eq!(pool.disk_manager().num_writes(), 0);
    create(&mut pool, 4);
    assert_eq!(pool.pin_count(first), None);
    assert_eq!(pool.disk_manager().num_writes(), 1);
}

#[test]
fn pool_evicts_in_lru_k_order() {
    // pages 0, 1, 2 sit in frames 0, 1, 2; page 0 is accessed twice
    let mut pool = pool(3, 2);
    let a = create(&mut pool, 0xA);
    let b = create(&mut pool, 0xB);
    assert!(pool.fetch_page(a).is_some());
    let c = create(&mut pool, 0xC);
    assert!(pool.unpin_page(a, false));
    assert!(pool.unpin_page(a, false));
    assert!(pool.unpin_page(b, false));
    assert!(pool.unpin_page(c, false));
    assert_eq!(pool.replacer().size(), 3);
    let d = create(&mut pool, 0xD);
    assert_eq!(pool.pin_count(b), None);
    assert_eq!(pool.pin_count(a), Some(0));
    assert_eq!(pool.pin_count(c), Some(0));
    assert!(pool.unpin_page(d, false));
    // c and d have one access each, c the earlier one
    create(&mut pool, 0xE);
    assert_eq!(pool.pin_count(c), None);
    assert_eq!(pool.pin_count(a), Some(0));
    assert_eq!(pool.pin_count(d), Some(0));
}

#[test]
fn new_page_concurrent_does_what_new_page_does() {
    let mut pool = pool(1, 2);
    let mut page_id: PageID = 31;
    let page = pool.new_page_concurrent(&mut page_id).unwrap();
    assert_eq!(page_id, 0);
    assert_eq!(page.page_id, 0);
    assert_eq!(page.pin_count, 1);
    assert!(page.data.iter().all(|b| *b == 0));
    page.data[3] = 9;
    assert!(pool.unpin_page(0, true));
    let page = pool.new_page_concurrent(&mut page_id).unwrap();
    assert_eq!(page_id, 1);
    assert!(page.data.iter().all(|b| *b == 0));
    assert_eq!(pool.disk_manager().num_writes(), 1);
    assert_eq!(disk_image(&pool, 0)[3], 9);
    assert!(pool.new_page_concurrent(&mut page_id).is_none());
    assert_eq!(page_id, 1);
}

#[test]
fn a_holder_that_rewrites_the_header_does_not_confuse_the_pool() {
    let mut pool = pool(1, 2);
    let mut page_id: PageID = 0;
    let page = pool.new_page(&mut page_id).unwrap();
    page.page_id = 500;
    page.pin_count = 0;
    page.is_dirty = true;
    page.data[0] = 6;
    assert_eq!(pool.pin_count(0), Some(1));
    assert_eq!(pool.pin_count(500), None);
    assert_eq!(pool.is_dirty(0), Some(false));
    // the frame is pinned, whatever the header says
    assert!(pool.fetch_page(3).is_none());
    assert!(pool.unpin_page(0, true));
    assert!(pool.fetch_page(3).is_some());
    assert_eq!(disk_image(&pool, 0)[0], 6);
    assert_eq!(disk_image(&pool, 500)[0], 0);
}
