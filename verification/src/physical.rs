//! The filesystem on a physical store: the session that connects a
//! backend, keeps the filesystem and its storage in step, and the rules by
//! which a disk backend maps keys to objects.

use crate::abstracts::{ConnectorStorage, ServiceTrait};
use crate::error::Error;
use crate::filesystem::{primed_or_kept, Filesystem, DEFAULT_TOTAL_BLOCKS, MAX_TOTAL_BLOCKS};
use crate::hash::{content_hash, is_content_hash, is_valid_hash};
use crate::inode::chain_dirty;
use crate::storage::{root_key, root_key_text, Storage};
use crate::superblock::AllocatorView;
use vstd::prelude::*;
use vstd::string::*;

verus! {

/// The text of the error for an operation on a closed filesystem.
pub open spec fn closed_text() -> Seq<char> {
    "filesystem is closed"@
}

/// The text of the error for a key that names something other than a
/// regular file.
pub open spec fn not_a_file_text() -> Seq<char> {
    "object is not a regular file"@
}

/// Whether `result` is the error of an operation on a closed filesystem.
pub open spec fn is_closed_error<V>(result: Result<V, Error>) -> bool {
    result matches Err(Error::ConnectorFailure(text)) && text@ == closed_text()
}

/// Whether `result` is the error for a path that holds something other
/// than a regular file.
pub open spec fn is_not_a_file_error<V>(result: Result<V, Error>) -> bool {
    result matches Err(Error::ConnectorFailure(text)) && text@ == not_a_file_text()
}

/// Whether `pool` is what a new session starts with: every block free, in
/// a pool of `DEFAULT_TOTAL_BLOCKS` blocks or of the size that a root
/// record may ask for.
pub open spec fn is_first_pool(pool: AllocatorView) -> bool {
    pool == AllocatorView::fresh(DEFAULT_TOTAL_BLOCKS as nat) || exists|capacity: u64|
        capacity <= MAX_TOTAL_BLOCKS && pool == AllocatorView::fresh(capacity as nat)
}

/// A filesystem bound to a connected backend.
pub struct PhysicalFs<T: ServiceTrait> {
    filesystem: Filesystem<T>,
    opened: bool,
}

impl<T: ServiceTrait> PhysicalFs<T> {
    /// The filesystem.
    pub closed spec fn fs(&self) -> Filesystem<T> {
        self.filesystem
    }

    /// Whether the session is open.
    pub closed spec fn is_open(&self) -> bool {
        self.opened
    }

    /// The invariant of the session: that of its filesystem.
    pub open spec fn wf(&self) -> bool {
        self.fs().wf()
    }

    /// Connects `service` and builds a filesystem on it, initialised from
    /// what the backend holds: an open session whose tree holds only the
    /// root, and whose pool is all free and has the size that the root
    /// record of the backend asks for, or `DEFAULT_TOTAL_BLOCKS` blocks
    /// where the backend has no usable record. Fails with the backend's
    /// error where the backend cannot be connected or read.
    pub fn new(service: T) -> (result: Result<PhysicalFs<T>, Error>)
        ensures
            result matches Ok(session) ==> session.wf() && session.is_open()
                && session.fs().tree()@ == crate::dentry::TreeView::root_only()
                && session.fs().cursor() == 0 && is_first_pool(session.fs().pool()),
    {
        let mut storage = Storage::new(service);
        match storage.service.connect() {
            Ok(_) => {},
            Err(e) => {
                return Err(e);
            },
        }
        let mut filesystem = Filesystem::new(storage);
        match filesystem.init() {
            Ok(_) => {},
            Err(e) => {
                return Err(e);
            },
        }
        Ok(PhysicalFs { filesystem, opened: true })
    }

    /// Whether the session is open.
    pub fn opened(&self) -> (opened: bool)
        ensures
            opened == self.is_open(),
    {
        self.opened
    }

    /// The filesystem.
    pub fn filesystem(&self) -> (filesystem: &Filesystem<T>)
        ensures
            *filesystem == self.fs(),
    {
        &self.filesystem
    }

    /// The filesystem, for file and directory operations.
    pub fn filesystem_mut(&mut self) -> (filesystem: &mut Filesystem<T>)
        ensures
            *filesystem == old(self).fs(),
            final(self).fs() == *final(filesystem),
            final(self).is_open() == old(self).is_open(),
    {
        &mut self.filesystem
    }

    /// What an operation that needs an open session returns on a closed
    /// one.
    fn closed_error<V>() -> (result: Result<V, Error>)
        ensures
            is_closed_error(result),
    {
        Err(Error::ConnectorFailure(String::from_str("filesystem is closed")))
    }

    /// Persists every block with unsaved changes, as the filesystem's
    /// `flush` does.
    ///
    /// Fails with `ConnectorFailure` on a closed session, changing nothing,
    /// and with the backend's error where the backend fails.
    pub fn flush(&mut self) -> (result: Result<(), Error>)
        requires
            old(self).wf(),
        ensures
            final(self).wf(),
            final(self).is_open() == old(self).is_open(),
            final(self).fs().tree()@ == old(self).fs().tree()@,
            final(self).fs().cursor() == old(self).fs().cursor(),
            final(self).fs().pool() == old(self).fs().pool(),
            forall|i: int|
                0 <= i < old(self).fs().tree()@.nodes.len() ==> (#[trigger] final(self).fs().inode(
                    i,
                )).content() == old(self).fs().inode(i).content(),
            !old(self).is_open() ==> is_closed_error(result),
            result is Ok ==> forall|i: int|
                0 <= i < old(self).fs().tree()@.nodes.len() ==> !chain_dirty(
                    (#[trigger] final(self).fs().inode(i)).blocks(),
                ),
            old(self).is_open() && !old(self).fs().any_dirty() ==> result is Ok,
    {
        if !self.opened {
            return Self::closed_error();
        }
        self.filesystem.flush()
    }

    /// Persists every block with unsaved changes and then the root record,
    /// which holds the size of the pool.
    ///
    /// Fails with `ConnectorFailure` on a closed session, changing nothing,
    /// and with the backend's error where the backend fails.
    pub fn sync(&mut self) -> (result: Result<(), Error>)
        requires
            old(self).wf(),
        ensures
            final(self).wf(),
            final(self).is_open() == old(self).is_open(),
            final(self).fs().tree()@ == old(self).fs().tree()@,
            final(self).fs().cursor() == old(self).fs().cursor(),
            final(self).fs().pool() == old(self).fs().pool(),
            forall|i: int|
                0 <= i < old(self).fs().tree()@.nodes.len() ==> (#[trigger] final(self).fs().inode(
                    i,
                )).content() == old(self).fs().inode(i).content(),
            !old(self).is_open() ==> is_closed_error(result),
            result is Ok ==> forall|i: int|
                0 <= i < old(self).fs().tree()@.nodes.len() ==> !chain_dirty(
                    (#[trigger] final(self).fs().inode(i)).blocks(),
                ),
    {
        match self.flush() {
            Ok(_) => {},
            Err(e) => {
                return Err(e);
            },
        }
        let capacity = self.filesystem.get_allocator().total_blocks();
        let ghost flushed = self.filesystem;
        let bound = self.filesystem.storage_mut().binding(capacity as u64);
        proof {
            assert forall|i: int| 0 <= i < old(self).fs().tree()@.nodes.len() implies (
            #[trigger] self.fs().inode(i)) == flushed.inode(i) by {}
        }
        bound
    }

    /// Brings everything to the backend, as `sync` does, and closes the
    /// session. Where `sync` fails the session stays open.
    pub fn close(&mut self) -> (result: Result<(), Error>)
        requires
            old(self).wf(),
        ensures
            final(self).wf(),
            final(self).fs().tree()@ == old(self).fs().tree()@,
            final(self).fs().cursor() == old(self).fs().cursor(),
            final(self).fs().pool() == old(self).fs().pool(),
            forall|i: int|
                0 <= i < old(self).fs().tree()@.nodes.len() ==> (#[trigger] final(self).fs().inode(
                    i,
                )).content() == old(self).fs().inode(i).content(),
            !old(self).is_open() ==> is_closed_error(result),
            result is Ok ==> !final(self).is_open(),
            result is Err ==> final(self).is_open() == old(self).is_open(),
    {
        match self.sync() {
            Ok(_) => {
                self.opened = false;
                Ok(())
            },
            Err(e) => Err(e),
        }
    }

    /// Connects the backend again and opens the session. The filesystem is
    /// initialised from the backend, as its `init` does: the tree stays as
    /// it is, and the pool is replaced only by a fresh pool of the size that
    /// the root record asks for, and only while no block is allocated.
    /// Where the backend fails, its error is returned and the session, pool
    /// included, stays as it was.
    pub fn open(&mut self) -> (result: Result<(), Error>)
        requires
            old(self).wf(),
        ensures
            final(self).wf(),
            final(self).fs().tree() == old(self).fs().tree(),
            final(self).fs().cursor() == old(self).fs().cursor(),
            result is Ok ==> final(self).is_open(),
            result is Err ==> final(self).is_open() == old(self).is_open(),
            result is Err ==> final(self).fs().pool() == old(self).fs().pool(),
            primed_or_kept(old(self).fs().pool(), final(self).fs().pool(), result is Ok),
    {
        match self.filesystem.storage_mut().service.connect() {
            Ok(_) => {},
            Err(e) => {
                return Err(e);
            },
        }
        match self.filesystem.init() {
            Ok(_) => {
                self.opened = true;
                Ok(())
            },
            Err(e) => Err(e),
        }
    }

    /// Stores `data` in the backend under its content hash, and gives the
    /// hash. The filesystem is not touched.
    ///
    /// Fails with `ConnectorFailure` on a closed session, and with the
    /// backend's error where the backend fails.
    pub fn write(&mut self, data: &[u8]) -> (result: Result<String, Error>)
        ensures
            final(self).is_open() == old(self).is_open(),
            final(self).fs().tree() == old(self).fs().tree(),
            final(self).fs().allocator() == old(self).fs().allocator(),
            final(self).fs().cursor() == old(self).fs().cursor(),
            final(self).fs().root_spec() == old(self).fs().root_spec(),
            !old(self).is_open() ==> is_closed_error(result),
            result matches Ok(hash) ==> hash@ == content_hash(data@),
    {
        if !self.opened {
            return Self::closed_error();
        }
        self.filesystem.storage_mut().save(data)
    }

    /// Fetches the payload stored under `hash`. What comes back is only
    /// handed on where its content hash is `hash`.
    ///
    /// Fails with `NotFound` where `hash` does not have the shape of a
    /// content hash, with `ConnectorFailure` on a closed session or for a
    /// payload that does not match its key, and with the backend's error
    /// where the backend fails.
    pub fn read(&mut self, hash: &str) -> (result: Result<Vec<u8>, Error>)
        ensures
            final(self).is_open() == old(self).is_open(),
            final(self).fs().tree() == old(self).fs().tree(),
            final(self).fs().allocator() == old(self).fs().allocator(),
            final(self).fs().cursor() == old(self).fs().cursor(),
            final(self).fs().root_spec() == old(self).fs().root_spec(),
            !old(self).is_open() ==> is_closed_error(result),
            old(self).is_open() && !is_content_hash(hash@) ==> result == Err::<Vec<u8>, Error>(
                Error::NotFound,
            ),
            result matches Ok(payload) ==> content_hash(payload@) == hash@,
    {
        if !self.opened {
            return Self::closed_error();
        }
        if !is_valid_hash(hash) {
            return Err(Error::NotFound);
        }
        self.filesystem.storage_mut().loading(hash)
    }
}

/// What a disk backend needs to know to map keys to objects: the directory
/// that holds the objects, and the identity of that directory once the
/// backend is connected.
pub struct PhysicalService {
    endpoint: String,
    root_index: Option<u64>,
}

/// What a disk backend does for a `put`.
#[derive(Clone, Copy, Debug, PartialEq, Eq, Structural)]
pub enum PutAction {
    /// Make a new object.
    Create,
    /// Replace the object that is there.
    Overwrite,
}

impl PhysicalService {
    /// The directory that holds the objects.
    pub closed spec fn endpoint_spec(&self) -> Seq<char> {
        self.endpoint@
    }

    /// The identity of the directory, where the backend is connected.
    pub closed spec fn root_index_spec(&self) -> Option<u64> {
        self.root_index
    }

    /// Whether `key` may name an object: it is the key of the root record,
    /// `0`, or has the shape of a content hash. No such key holds a path
    /// separator.
    pub open spec fn valid_key(key: Seq<char>) -> bool {
        key == root_key() || is_content_hash(key)
    }

    /// The path of the object called `key`: the endpoint, a slash and the
    /// key.
    pub open spec fn path_of(&self, key: Seq<char>) -> Seq<char> {
        self.endpoint_spec() + seq!['/'] + key
    }

    /// A service over the directory `endpoint`, not connected yet.
    pub fn new(endpoint: String) -> (service: PhysicalService)
        ensures
            service.endpoint_spec() == endpoint@,
            service.root_index_spec() is None,
    {
        PhysicalService { endpoint, root_index: None }
    }

    /// The directory that holds the objects.
    pub fn get_endpoint(&self) -> (endpoint: &String)
        ensures
            endpoint@ == self.endpoint_spec(),
    {
        &self.endpoint
    }

    /// The identity of the directory, where the backend is connected.
    pub fn get_root_index(&self) -> (index: Option<u64>)
        ensures
            index == self.root_index_spec(),
    {
        self.root_index
    }

    /// Records the identity of the directory, once the backend has
    /// connected to it.
    pub fn connected(&mut self, root_index: u64)
        ensures
            final(self).root_index_spec() == Some(root_index),
            final(self).endpoint_spec() == old(self).endpoint_spec(),
    {
        self.root_index = Some(root_index);
    }

    /// Whether `key` may name an object.
    pub fn is_valid_key(key: &str) -> (valid: bool)
        ensures
            valid == Self::valid_key(key@),
    {
        String::from_str(key) == String::from_str(root_key_text()) || is_valid_hash(key)
    }

    /// The path of the object called `key`.
    ///
    /// Fails with `NotFound` where `key` may not name an object.
    pub fn object_path(&self, key: &str) -> (result: Result<String, Error>)
        ensures
            Self::valid_key(key@) ==> result is Ok && result->Ok_0@ == self.path_of(key@),
            !Self::valid_key(key@) ==> result == Err::<String, Error>(Error::NotFound),
    {
        if !Self::is_valid_key(key) {
            return Err(Error::NotFound);
        }
        proof {
            reveal_strlit("/");
            assert("/"@ =~= seq!['/']);
        }
        let mut path = self.endpoint.clone();
        path.append("/");
        path.append(key);
        Ok(path)
    }

    /// What to do for a `put`, given whether something exists at the
    /// object's path and whether it is a regular file: make the object
    /// where there is none, replace a regular file.
    ///
    /// Fails with `ConnectorFailure` where the path holds something other
    /// than a regular file.
    pub fn put_action(exists: bool, is_file: bool) -> (result: Result<PutAction, Error>)
        ensures
            !exists ==> result == Ok::<PutAction, Error>(PutAction::Create),
            exists && is_file ==> result == Ok::<PutAction, Error>(PutAction::Overwrite),
            exists && !is_file ==> is_not_a_file_error(result),
    {
        if !exists {
            Ok(PutAction::Create)
        } else if is_file {
            Ok(PutAction::Overwrite)
        } else {
            Err(Error::ConnectorFailure(String::from_str("object is not a regular file")))
        }
    }

    /// Whether a `get` may read, given whether something exists at the
    /// object's path and whether it is a regular file.
    ///
    /// Fails with `NotFound` where nothing is there, and with
    /// `ConnectorFailure` where the path holds something other than a
    /// regular file.
    pub fn get_check(exists: bool, is_file: bool) -> (result: Result<(), Error>)
        ensures
            !exists ==> result == Err::<(), Error>(Error::NotFound),
            exists && is_file ==> result is Ok,
            exists && !is_file ==> is_not_a_file_error(result),
    {
        if !exists {
            Err(Error::NotFound)
        } else if is_file {
            Ok(())
        } else {
            Err(Error::ConnectorFailure(String::from_str("object is not a regular file")))
        }
    }
}

} // verus!
