//! The cursor interface of the key-value structures stored in pages.

use vstd::prelude::*;
use crate::error::Error;

verus! {

/// A cursor over key-value entries stored in pages.
pub trait StorageIterator {
    /// The value at the cursor.
    fn value(&self) -> &[u8];

    /// The key at the cursor.
    fn key(&self) -> &[u8];

    /// Whether the cursor stands on an entry.
    fn is_valid(&self) -> bool;

    /// Moves the cursor to the next entry.
    fn next(&mut self) -> Result<(), Error>;
}

} // verus!
