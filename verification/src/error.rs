//! The error kinds that every operation of the engine reports.

use vstd::prelude::*;
use vstd::string::*;

verus! {

/// Why an operation was refused. Every operation either succeeds or names
/// one of these; none substitutes a default value for a failure.
#[derive(Debug, Clone, PartialEq, Eq)]
pub enum Error {
    /// A write or append would exceed the block's capacity. The caller must
    /// allocate another block; nothing is truncated silently.
    TooLarge,
    /// An offset write reaches past the physical end of the block.
    OutOfBounds,
    /// A read reaches past the valid content of the block.
    OutOfRange,
    /// A sibling with the same endpoint is already present.
    AlreadyExists,
    /// No such dentry, stored object or allocator index.
    NotFound,
    /// A dentry that still has live children cannot be removed.
    NotEmpty,
    /// The root has no parent to move up to.
    NoParent,
    /// The allocator has fewer free blocks than were asked for.
    InsufficientCapacity,
    /// The index handed back to the allocator is not allocated.
    NotAllocated,
    /// The storage backend failed; the text is the backend's own. The
    /// engine never retries by itself.
    ConnectorFailure(String),
}

impl Error {
    /// The text that `message` renders for this error.
    pub open spec fn message_text(self) -> Seq<char> {
        match self {
            Error::TooLarge => "data exceeds block capacity"@,
            Error::OutOfBounds => "write past the end of the block"@,
            Error::OutOfRange => "read past the valid content"@,
            Error::AlreadyExists => "entry already exists"@,
            Error::NotFound => "not found"@,
            Error::NotEmpty => "directory not empty"@,
            Error::NoParent => "no parent directory"@,
            Error::InsufficientCapacity => "not enough free blocks"@,
            Error::NotAllocated => "block is not allocated"@,
            Error::ConnectorFailure(e) => "I/O error: "@ + e@,
        }
    }

    /// A human-readable description of the error.
    pub fn message(&self) -> (text: String)
        ensures
            text@ == self.message_text(),
    {
        match self {
            Error::TooLarge => String::from_str("data exceeds block capacity"),
            Error::OutOfBounds => String::from_str("write past the end of the block"),
            Error::OutOfRange => String::from_str("read past the valid content"),
            Error::AlreadyExists => String::from_str("entry already exists"),
            Error::NotFound => String::from_str("not found"),
            Error::NotEmpty => String::from_str("directory not empty"),
            Error::NoParent => String::from_str("no parent directory"),
            Error::InsufficientCapacity => String::from_str("not enough free blocks"),
            Error::NotAllocated => String::from_str("block is not allocated"),
            Error::ConnectorFailure(e) => String::from_str("I/O error: ").concat(e.as_str()),
        }
    }
}

} // verus!
