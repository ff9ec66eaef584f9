//! The buffer pool and its replacement policy.

pub mod buffer_pool_manager;
pub mod lru_k_replacer;
pub mod pool_laws;
pub mod pool_model;
pub mod replacer_model;
