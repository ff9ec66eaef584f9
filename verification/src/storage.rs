//! Pages, the disk they live on, and the iterator interface of the layers
//! that read them.

pub mod disk_manager;
pub mod lsm_iterator;
pub mod page;
