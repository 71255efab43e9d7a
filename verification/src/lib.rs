//! A small embeddable filesystem engine: a directory tree over
//! content-addressed, fixed-size blocks, with persistence delegated to a
//! pluggable storage connector.

pub mod abstracts;
pub mod block;
pub mod clock;
pub mod dentry;
pub mod error;
pub mod filesystem;
pub mod hash;
pub mod id;
pub mod inode;
pub mod metadata;
pub mod physical;
pub mod slot;
pub mod storage;
pub mod superblock;

pub use clock::{current_timestamp_nanos, current_timestamp_secs};
pub use hash::calculate_hash;
pub use id::get_uuid;

use vstd::prelude::*;

verus! {

/// Capacity of every block, in bytes.
pub const BLOCK_SIZE: usize = 512;

/// The inode id of the root directory.
pub const DEFAULT_INODE_ID: usize = 0;

} // verus!
