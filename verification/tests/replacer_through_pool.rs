use buffer_pool::BufferPoolManager;
use buffer_pool::DiskManager;
use buffer_pool::PageID;

#[test]
fn replacer_of_the_pool_records_one_access_per_acquisition() {
    let mut pool = BufferPoolManager::new(2, DiskManager::new(), 2);
    let mut page_id: PageID = 0;
    assert!(pool.new_page(&mut page_id).is_some());
    assert!(pool.fetch_page(page_id).is_some());
    assert!(pool.fetch_page(9).is_some());
    assert_eq!(pool.replacer().current_timestamp(), 3);
    // calls that fail record nothing
    assert!(pool.fetch_page(10).is_none());
    assert!(pool.new_page(&mut page_id).is_none());
    assert!(!pool.unpin_page(11, false));
    assert_eq!(pool.replacer().current_timestamp(), 3);
}
