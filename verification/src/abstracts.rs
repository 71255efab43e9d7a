//! The traits through which the parts of the engine are used.

use crate::error::Error;
use vstd::prelude::*;

verus! {

/// Marks a type that serves as a directory entry.
pub trait DentryTrait {

}

/// Marks a type that serves as an inode.
pub trait InodeTrait {

}

/// Marks a type that serves as file metadata.
pub trait MetadataTrait {

}

/// Marks a type that serves as a block.
pub trait BlockTrait {

}

/// Marks a type that serves as a file handle.
pub trait FileTrait {

}

/// Offset reads and writes on one block.
pub trait BlockReadWrite {
    /// The invariant that implementations keep.
    spec fn rw_wf(&self) -> bool;

    /// Reads the valid content from offset `index` on.
    fn read_block(&self, index: usize) -> (result: Result<Vec<u8>, Error>)
        requires
            self.rw_wf(),
    ;

    /// Writes `data` at offset `index`.
    fn write_block(&mut self, index: usize, data: &[u8]) -> (result: Result<(), Error>)
        requires
            old(self).rw_wf(),
        ensures
            final(self).rw_wf(),
    ;
}

/// Steps along a chain of blocks.
pub trait BlockIterator<B> {
    /// The block that follows this one in its chain.
    fn next(&self) -> Option<&B>;
}

/// Hands out and takes back the blocks of a fixed pool.
pub trait BlockAllocator<T> {
    /// The invariant that implementations keep.
    spec fn allocator_wf(&self) -> bool;

    /// Reserves `size` blocks, all of them or none.
    fn allocate(&mut self, size: usize) -> (result: Result<Vec<T>, Error>)
        requires
            old(self).allocator_wf(),
        ensures
            final(self).allocator_wf(),
    ;

    /// Gives the block at `index` back to the pool.
    fn deallocate(&mut self, index: usize) -> (result: Result<(), Error>)
        requires
            old(self).allocator_wf(),
        ensures
            final(self).allocator_wf(),
    ;

    /// Whether the block at `index` is allocated.
    fn is_allocated(&self, index: usize) -> (allocated: bool)
        requires
            self.allocator_wf(),
    ;
}

/// The operations of a dentry table.
pub trait DentryOp {
    /// The invariant that implementations keep.
    spec fn table_wf(&self) -> bool;

    /// Adds a child called `endpoint` under `parent` and gives its position.
    fn dentry_add(&mut self, parent: usize, endpoint: &str) -> (result: Result<usize, Error>)
        requires
            old(self).table_wf(),
        ensures
            final(self).table_wf(),
    ;

    /// Removes the child of `parent` called `endpoint`.
    fn dentry_delete(&mut self, parent: usize, endpoint: &str) -> (result: Result<(), Error>)
        requires
            old(self).table_wf(),
        ensures
            final(self).table_wf(),
    ;

    /// The position of the child of `parent` called `endpoint`.
    fn dentry_find(&self, parent: usize, endpoint: &str) -> (result: Result<usize, Error>)
        requires
            self.table_wf(),
    ;

    /// The endpoints of the children of `id`.
    fn dentry_list(&self, id: usize) -> (result: Result<Vec<String>, Error>)
        requires
            self.table_wf(),
    ;

    /// The position of the parent of `id`.
    fn dentry_parent(&self, id: usize) -> (result: Result<usize, Error>)
        requires
            self.table_wf(),
    ;

    /// The positions of the children of `id`.
    fn dentry_children(&self, id: usize) -> (result: Result<Vec<usize>, Error>)
        requires
            self.table_wf(),
    ;
}

/// Operations on the files of the working directory. `F` is the handle of
/// an open file and `S` what `stat` tells of an entry.
pub trait FileOperations<F, S> {
    /// The invariant that implementations keep.
    spec fn files_wf(&self) -> bool;

    /// Whether the version of the file behind `file` can still grow.
    spec fn file_has_room(&self, file: &F) -> bool;

    /// Whether the version of the entry called `name` can still grow.
    spec fn entry_has_room(&self, name: Seq<char>) -> bool;

    /// The content of an open file.
    fn read(&mut self, file: &F) -> (result: Result<Vec<u8>, Error>)
        requires
            old(self).files_wf(),
        ensures
            final(self).files_wf(),
    ;

    /// Replaces the content of an open file.
    fn write(&mut self, file: &F, data: &[u8]) -> (result: Result<(), Error>)
        requires
            old(self).files_wf(),
            old(self).file_has_room(file),
        ensures
            final(self).files_wf(),
    ;

    /// Deletes the file called `filename`.
    fn delete(&mut self, filename: &str) -> (result: Result<(), Error>)
        requires
            old(self).files_wf(),
            old(self).entry_has_room(filename@),
        ensures
            final(self).files_wf(),
    ;

    /// Creates an empty file called `filename` and opens it.
    fn create(&mut self, filename: &str) -> (result: Result<F, Error>)
        requires
            old(self).files_wf(),
        ensures
            final(self).files_wf(),
    ;

    /// Opens the file called `filename`.
    fn open(&self, filename: &str) -> (result: Result<F, Error>)
        requires
            self.files_wf(),
    ;

    /// Gives the entry called `from` the name `to`.
    fn rename(&mut self, from: &str, to: &str) -> (result: Result<(), Error>)
        requires
            old(self).files_wf(),
        ensures
            final(self).files_wf(),
    ;

    /// The content of the file called `filename`.
    fn cat(&mut self, filename: &str) -> (result: Result<Vec<u8>, Error>)
        requires
            old(self).files_wf(),
        ensures
            final(self).files_wf(),
    ;

    /// The metadata of the entry called `name`.
    fn stat(&self, name: &str) -> (result: Result<S, Error>)
        requires
            self.files_wf(),
    ;
}

/// Operations on the directories below the working directory. `D` is the
/// handle of a directory.
pub trait DirectoryOprations<D> {
    /// The invariant that implementations keep.
    spec fn dirs_wf(&self) -> bool;

    /// Whether the version of the entry called `name` can still grow.
    spec fn dir_has_room(&self, name: Seq<char>) -> bool;

    /// The endpoints of the entries of the working directory.
    fn list(&self) -> (result: Result<Vec<String>, Error>)
        requires
            self.dirs_wf(),
    ;

    /// Creates a directory called `name`.
    fn create_dir(&mut self, name: &str) -> (result: Result<D, Error>)
        requires
            old(self).dirs_wf(),
        ensures
            final(self).dirs_wf(),
    ;

    /// Removes the directory called `name`.
    fn remove(&mut self, name: &str) -> (result: Result<(), Error>)
        requires
            old(self).dirs_wf(),
            old(self).dir_has_room(name@),
        ensures
            final(self).dirs_wf(),
    ;

    /// Moves the working directory one step and gives its new path.
    fn change(&mut self, endpoint: &str) -> (result: Result<String, Error>)
        requires
            old(self).dirs_wf(),
        ensures
            final(self).dirs_wf(),
    ;
}

/// Binding a filesystem to a tree and a storage. `D` is the tree and `S`
/// the storage.
pub trait ConnectorStorage<D, S> {
    /// The invariant that implementations keep.
    spec fn mount_wf(&self) -> bool;

    /// The invariant of a tree that can be mounted.
    spec fn root_wf(root: &D) -> bool;

    /// Binds `root` and `storage` to the filesystem and initialises it.
    fn mount(&mut self, root: D, storage: S) -> (result: Result<(), Error>)
        requires
            old(self).mount_wf(),
            Self::root_wf(&root),
        ensures
            final(self).mount_wf(),
    ;

    /// Loads what the storage holds of the filesystem's own state.
    fn init(&mut self) -> (result: Result<(), Error>)
        requires
            old(self).mount_wf(),
        ensures
            final(self).mount_wf(),
    ;
}

/// A storage backend that keeps payloads under keys: the connector through
/// which the engine persists content. Keys are content hashes in lowercase
/// hexadecimal, and the one key of the root record.
///
/// Implementations live outside the engine and nothing is assumed of them:
/// a backend may fail, or lose or change what it was given.
pub trait ServiceTrait {
    /// Makes the backend ready for use.
    fn connect(&mut self) -> Result<(), Error>;

    /// Stores `data` under `hash`.
    fn put(&mut self, hash: &str, data: &[u8]) -> Result<(), Error>;

    /// The payload stored under `hash`; `NotFound` where there is none.
    fn get(&self, hash: &str) -> Result<Vec<u8>, Error>;

    /// Drops the payload stored under `hash`.
    fn delete(&mut self, hash: &str) -> Result<(), Error>;

    /// The keys of all stored payloads.
    fn list(&self) -> Vec<String>;
}

/// Looks entries up by name.
pub trait Finder {
    /// The invariant that implementations keep.
    spec fn finder_wf(&self) -> bool;

    /// The id of the entry called `name`, if there is one.
    fn find(&self, name: &str) -> (id: Option<u64>)
        requires
            self.finder_wf(),
    ;
}

} // verus!
