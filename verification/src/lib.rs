//! A page cache for a disk-backed storage engine.
//!
//! The [`BufferPoolManager`] keeps a fixed number of in-memory frames, maps
//! resident pages to frames, counts the holders of each page and asks an
//! [`LRUKReplacer`] which unpinned frame to reuse when no frame is free.
//! Every operation is specified against a mathematical model of the pool
//! ([`PoolView`]) and proved to follow it.

pub mod buffer;
pub mod common;
pub mod error;
pub mod storage;

pub use buffer::buffer_pool_manager::BufferPoolManager;
pub use buffer::lru_k_replacer::LRUKReplacer;
pub use buffer::pool_laws::PoolOp;
pub use buffer::pool_model::FrameView;
pub use buffer::pool_model::PoolView;
pub use buffer::replacer_model::FrameHistory;
pub use buffer::replacer_model::ReplacerView;
pub use common::FrameID;
pub use common::PageID;
pub use common::INVALID_PAGE_ID;
pub use common::PAGE_SIZE;
pub use error::Error;
pub use storage::disk_manager::DiskManager;
pub use storage::disk_manager::DiskView;
pub use storage::lsm_iterator::StorageIterator;
pub use storage::page::Page;
