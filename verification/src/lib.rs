//! Core of a single-node slotted-page heap store: fixed-size pages holding
//! variable-length values behind stable slot ids, an in-memory buffer pool
//! mapping (container, page) keys to frames, heap files coordinating
//! value-level operations across pages, and eviction scoring.

use vstd::prelude::*;

pub mod alist;
pub mod error;
pub mod eviction_policy;
pub mod heap_page;
pub mod heap_file;
pub mod ids;
pub mod in_mem_pool;
pub mod testutil;
pub mod vec_compare;

verus! {

/// Page size in bytes.
pub const PAGE_SIZE: usize = 4096;

} // verus!
