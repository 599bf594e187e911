//! Error kinds of the storage core.

use vstd::prelude::*;

verus! {

/// Status codes returned by buffer-pool operations.
#[derive(Clone, Copy, Debug, PartialEq, Eq, Structural)]
pub enum MemPoolStatus {
    /// The requested key is not allocated in the pool's container.
    PageNotFound,
    /// A non-blocking shared latch acquisition failed.
    FrameReadLatchGrantFailed,
    /// A non-blocking exclusive latch acquisition failed.
    FrameWriteLatchGrantFailed,
    /// Every frame is latched, so no victim can be chosen.
    CannotEvictPage,
}

/// Errors surfaced by the heap file and the storage facade.
#[derive(Clone, Debug)]
pub enum CrustyError {
    /// Catch-all with a message.
    CrustyError(String),
    /// Bytes failed to decode to the expected logical form.
    ValidationError(String),
    /// A storage-level operation failed.
    StorageError(String),
}

impl CrustyError {
    /// The message carried by the error.
    pub fn message(&self) -> (r: &String)
        ensures
            r@ == match self {
                CrustyError::CrustyError(m) => m@,
                CrustyError::ValidationError(m) => m@,
                CrustyError::StorageError(m) => m@,
            },
    {
        match self {
            CrustyError::CrustyError(m) => m,
            CrustyError::ValidationError(m) => m,
            CrustyError::StorageError(m) => m,
        }
    }
}

} // verus!
