use buffer_pool::DiskManager;
use buffer_pool::Page;
use buffer_pool::INVALID_PAGE_ID;
use buffer_pool::PAGE_SIZE;

#[test]
fn new_page_is_empty() {
    let page = Page::new();
    assert_eq!(page.page_id, INVALID_PAGE_ID);
    assert_eq!(page.page_id, -1);
    assert_eq!(page.pin_count, 0);
    assert!(!page.is_dirty);
    assert_eq!(page.data.len(), 4096);
    assert!(page.data.iter().all(|b| *b == 0));
}

#[test]
fn reset_memory_zeroes_bytes_and_keeps_header() {
    let mut page = Page::new();
    page.page_id = 12;
    page.pin_count = 3;
    page.is_dirty = true;
    page.data[0] = 1;
    page.data[PAGE_SIZE - 1] = 255;
    page.reset_memory();
    assert!(page.data.iter().all(|b| *b == 0));
    assert_eq!(page.page_id, 12);
    assert_eq!(page.pin_count, 3);
    assert!(page.is_dirty);
}

#[test]
fn unwritten_page_reads_as_zeros() {
    let disk = DiskManager::new();
    let mut buffer = [9u8; PAGE_SIZE];
    disk.read_page(4, &mut buffer);
    assert!(buffer.iter().all(|b| *b == 0));
    assert_eq!(disk.num_writes(), 0);
}

#[test]
fn written_page_reads_back() {
    let mut disk = DiskManager::new();
    let mut image = [0u8; PAGE_SIZE];
    image[0] = 10;
    image[100] = 20;
    image[PAGE_SIZE - 1] = 30;
    disk.write_page(7, &image);
    let mut buffer = [1u8; PAGE_SIZE];
    disk.read_page(7, &mut buffer);
    assert_eq!(buffer, image);
    assert_eq!(disk.num_writes(), 1);
    // another page is untouched
    disk.read_page(8, &mut buffer);
    assert!(buffer.iter().all(|b| *b == 0));
}

#[test]
fn last_write_wins_and_every_write_counts() {
    let mut disk = DiskManager::new();
    let first = [1u8; PAGE_SIZE];
    let second = [2u8; PAGE_SIZE];
    disk.write_page(0, &first);
    disk.write_page(0, &second);
    disk.write_page(0, &second);
    disk.write_page(-5, &first);
    let mut buffer = [0u8; PAGE_SIZE];
    disk.read_page(0, &mut buffer);
    assert_eq!(buffer, second);
    disk.read_page(-5, &mut buffer);
    assert_eq!(buffer, first);
    assert_eq!(disk.num_writes(), 4);
}
