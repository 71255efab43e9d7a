//! The filesystem: a dentry tree, a block allocator and a storage backend,
//! used together through a working directory.

use crate::abstracts::{
    BlockAllocator, ConnectorStorage, DentryOp, DirectoryOprations, FileOperations, FileTrait,
    Finder, ServiceTrait,
};
use crate::dentry::DentrysTable;
use crate::error::Error;
use crate::inode::{
    chain_content, chain_dirty, chain_indices, chain_present, chunk, evicted_chain, fresh_chain,
    is_pending_queue, lemma_evicted_keeps_content, lemma_same_chain, lemma_saved_keeps_content,
    missing_blocks, same_but_saved, same_chain, saved_or_same, Inode, PendingBlock,
};
use crate::metadata::{FileType, Metadata};
use crate::slot::Slot;
use crate::storage::Storage;
use crate::superblock::{AllocatorView, Superblock};
use vstd::prelude::*;

verus! {

/// Number of blocks in the pool of a new filesystem.
pub const DEFAULT_TOTAL_BLOCKS: usize = 1024;

/// The largest pool that a root record can ask for.
pub const MAX_TOTAL_BLOCKS: u64 = 0x100_0000;

/// The handle of an open file: the position of its dentry. A handle stays
/// valid until the file is deleted, and is checked on every use.
#[derive(Clone, Copy, Debug, PartialEq, Eq)]
pub struct File {
    /// Position of the file's dentry in the tree.
    pub dentry: usize,
}

impl FileTrait for File {

}

/// The handle of a directory: the position of its dentry.
#[derive(Clone, Copy, Debug, PartialEq, Eq)]
pub struct Dir {
    /// Position of the directory's dentry in the tree.
    pub dentry: usize,
}

/// A filesystem over the storage backend `T`.
pub struct Filesystem<T: ServiceTrait> {
    root: usize,
    storage: Storage<T>,
    current_dir: usize,
    dentrys_list: DentrysTable,
    blocks: Superblock,
}

impl<T: ServiceTrait> Filesystem<T> {
    /// The dentry tree.
    pub closed spec fn tree(&self) -> DentrysTable {
        self.dentrys_list
    }

    /// The allocator.
    pub closed spec fn allocator(&self) -> Superblock {
        self.blocks
    }

    /// The state of the allocator.
    pub open spec fn pool(&self) -> AllocatorView {
        self.allocator()@
    }

    /// The position of the working directory.
    pub closed spec fn cursor(&self) -> usize {
        self.current_dir
    }

    /// The position of the root directory.
    pub closed spec fn root_spec(&self) -> usize {
        self.root
    }

    /// The storage that the filesystem is bound to.
    pub closed spec fn backend(&self) -> Storage<T> {
        self.storage
    }

    /// The pool positions of the blocks of every node, by node.
    pub open spec fn chains(&self) -> Seq<Seq<usize>> {
        Seq::new(self.tree()@.nodes.len(), |i: int| chain_indices(self.tree().inode(i).blocks()))
    }

    /// The invariant of the filesystem: a well-formed tree, rooted at
    /// position 0, a well-formed allocator, and an allocator that accounts
    /// for the blocks of the files: the allocated blocks are exactly the
    /// blocks in the chains of the inodes, and no block is in two chains or
    /// twice in one.
    pub open spec fn wf(&self) -> bool {
        &&& self.tree().wf()
        &&& self.allocator().wf()
        &&& self.root_spec() == 0
        &&& self.pool().accounts_for(self.chains())
    }

    /// Where every node has the chain of positions it had, the chains are
    /// the same.
    pub proof fn lemma_chains_kept(&self, before: &Self)
        requires
            self.tree()@.nodes.len() == before.tree()@.nodes.len(),
            forall|i: int|
                0 <= i < before.tree()@.nodes.len() ==> chain_indices(
                    (#[trigger] self.inode(i)).blocks(),
                ) == chain_indices(before.inode(i).blocks()),
        ensures
            self.chains() == before.chains(),
    {
        assert forall|i: int| 0 <= i < before.tree()@.nodes.len() implies self.chains()[i]
            == before.chains()[i] by {
            assert(chain_indices(self.inode(i).blocks()) == chain_indices(
                before.inode(i).blocks(),
            ));
        }
        assert(self.chains() =~= before.chains());
    }

    /// The inode of the node at `id`.
    pub open spec fn inode(&self, id: int) -> Inode {
        self.tree().inode(id)
    }

    /// Whether `id` is a live regular file.
    pub open spec fn is_file(&self, id: int) -> bool {
        self.tree()@.is_live(id) && self.inode(id).meta().file_type == FileType::File
    }

    /// Whether `id` is a live directory.
    pub open spec fn is_dir(&self, id: int) -> bool {
        self.tree()@.is_live(id) && self.inode(id).meta().file_type == FileType::Dir
    }

    /// Whether the working directory has an entry called `name`.
    pub open spec fn has_entry(&self, name: Seq<char>) -> bool {
        self.tree()@.is_live(self.cursor() as int) && self.tree()@.has_child(
            self.cursor() as int,
            name,
        )
    }

    /// The position of the entry of the working directory called `name`.
    pub open spec fn entry(&self, name: Seq<char>) -> int {
        self.tree()@.child(self.cursor() as int, name) as int
    }

    /// Whether the version of the entry called `name`, if there is one, can
    /// still grow.
    pub open spec fn has_room(&self, name: Seq<char>) -> bool {
        self.has_entry(name) ==> self.inode(self.entry(name)).meta().version < u64::MAX
    }

    /// The tree, the working directory and every inode but the one at `id`
    /// are the same in `self` and `before`.
    pub open spec fn same_but_inode(&self, before: &Self, id: int) -> bool {
        &&& self.tree()@ == before.tree()@
        &&& self.cursor() == before.cursor()
        &&& forall|i: int|
            0 <= i < before.tree()@.nodes.len() && i != id ==> self.inode(i) == before.inode(i)
    }

    /// The tree, the working directory, the allocator and every inode are
    /// the same in `self` and `before`.
    pub open spec fn unchanged(&self, before: &Self) -> bool {
        &&& self.tree()@ == before.tree()@
        &&& self.cursor() == before.cursor()
        &&& self.pool() == before.pool()
        &&& forall|i: int| 0 <= i < before.tree()@.nodes.len() ==> self.inode(i) == before.inode(i)
    }

    /// A change to the one inode at `id` that leaves its type and its chain
    /// of positions alone, and everything else as it was, keeps the
    /// invariant.
    pub proof fn lemma_wf_kept(&self, before: &Self, id: int)
        requires
            before.wf(),
            self.tree()@ == before.tree()@,
            self.allocator().wf(),
            self.pool() == before.pool(),
            self.root_spec() == 0,
            forall|i: int|
                0 <= i < before.tree()@.nodes.len() && i != id ==> self.inode(i) == before.inode(i),
            0 <= id < before.tree()@.nodes.len() ==> self.inode(id).wf() && self.inode(
                id,
            ).id_spec() == id && chain_indices(self.inode(id).blocks()) == chain_indices(
                before.inode(id).blocks(),
            ) && self.inode(id).meta().file_type == before.inode(id).meta().file_type,
        ensures
            self.wf(),
            self.chains() == before.chains(),
    {
        assert forall|i: int| 0 <= i < self.tree()@.nodes.len() implies (
        #[trigger] self.tree().inode(i)).wf() && self.tree().inode(i).id_spec() == i by {
            if i != id {
                assert(self.inode(i) == before.inode(i));
                assert(before.tree().inode(i).wf());
            } else {
                assert(self.inode(id).wf());
            }
        }
        assert forall|i: int| 0 <= i < before.tree()@.nodes.len() implies chain_indices(
            (#[trigger] self.inode(i)).blocks(),
        ) == chain_indices(before.inode(i).blocks()) by {
            if i != id {
                assert(self.inode(i) == before.inode(i));
            }
        }
        assert(before.tree().inode(0).meta().file_type == FileType::Dir);
        if id != 0 {
            assert(self.inode(0) == before.inode(0));
        }
        assert(self.tree().inode(0).meta().file_type == FileType::Dir);
        self.lemma_chains_kept(before);
    }

    /// A filesystem with only a root directory and a pool of
    /// `DEFAULT_TOTAL_BLOCKS` blocks.
    pub fn new(storage: Storage<T>) -> (filesystem: Filesystem<T>)
        ensures
            filesystem.wf(),
            filesystem.tree()@ == crate::dentry::TreeView::root_only(),
            filesystem.cursor() == 0,
            filesystem.pool() == AllocatorView::fresh(DEFAULT_TOTAL_BLOCKS as nat),
    {
        Filesystem::with_capacity(storage, DEFAULT_TOTAL_BLOCKS)
    }

    /// A filesystem with only a root directory and a pool of `total_blocks`
    /// blocks.
    pub fn with_capacity(storage: Storage<T>, total_blocks: usize) -> (filesystem: Filesystem<T>)
        ensures
            filesystem.wf(),
            filesystem.tree()@ == crate::dentry::TreeView::root_only(),
            filesystem.cursor() == 0,
            filesystem.pool() == AllocatorView::fresh(total_blocks as nat),
    {
        let filesystem = Filesystem {
            root: 0,
            storage,
            current_dir: 0,
            dentrys_list: DentrysTable::new(),
            blocks: Superblock::new(total_blocks),
        };
        proof {
            assert(chain_indices(filesystem.inode(0).blocks()) =~= Seq::<usize>::empty());
            AllocatorView::lemma_account_fresh(total_blocks as nat, filesystem.chains());
        }
        filesystem
    }

    /// The position of the working directory.
    pub fn current_dir(&self) -> (cursor: usize)
        ensures
            cursor == self.cursor(),
    {
        self.current_dir
    }

    /// The dentry tree.
    pub fn get_tree(&self) -> (tree: &DentrysTable)
        ensures
            *tree == self.tree(),
    {
        &self.dentrys_list
    }

    /// The allocator.
    pub fn get_allocator(&self) -> (allocator: &Superblock)
        ensures
            *allocator == self.allocator(),
    {
        &self.blocks
    }

    /// The storage, for whoever drives the persistence of the filesystem:
    /// a reference to the storage that the filesystem is bound to. What the
    /// caller does to it is done to the filesystem's storage, and to
    /// nothing else of the filesystem.
    pub(crate) fn storage_mut(&mut self) -> (storage: &mut Storage<T>)
        ensures
            *storage == old(self).backend(),
            final(self).backend() == *final(storage),
            final(self).tree() == old(self).tree(),
            final(self).allocator() == old(self).allocator(),
            final(self).cursor() == old(self).cursor(),
            final(self).root_spec() == old(self).root_spec(),
    {
        &mut self.storage
    }

    /// The type of the node at `id`, where it is live.
    fn live_type(&self, id: usize) -> (file_type: Option<FileType>)
        requires
            self.wf(),
        ensures
            self.tree()@.is_live(id as int) ==> file_type == Some(
                self.inode(id as int).meta().file_type,
            ),
            !self.tree()@.is_live(id as int) ==> file_type is None,
    {
        if !self.dentrys_list.is_live(id) {
            return None;
        }
        match self.dentrys_list.get_inode(id) {
            Some(inode) => Some(inode.get_metadata().file_type),
            None => None,
        }
    }

    /// The absolute path of the working directory.
    ///
    /// Fails with `NotFound` where the working directory has been removed.
    pub fn pwd(&self) -> (result: Result<String, Error>)
        requires
            self.wf(),
        ensures
            self.tree()@.is_live(self.cursor() as int) ==> result is Ok && result->Ok_0@
                == self.tree()@.abs_path(self.cursor() as int),
            !self.tree()@.is_live(self.cursor() as int) ==> result == Err::<String, Error>(
                Error::NotFound,
            ),
    {
        if !self.dentrys_list.is_live(self.current_dir) {
            return Err(Error::NotFound);
        }
        self.dentrys_list.get_abspath(self.current_dir)
    }

    /// The node `found`, where it is a directory: the working directory
    /// moves into directories only.
    pub open spec fn only_dir(&self, found: Result<usize, Error>) -> Result<usize, Error> {
        match found {
            Ok(id) => if self.inode(id as int).meta().file_type == FileType::Dir {
                Ok(id)
            } else {
                Err(Error::NotFound)
            },
            Err(e) => Err(e),
        }
    }

    /// Where `change` leads from the working directory: as in the tree,
    /// but only into directories.
    pub open spec fn change_target(&self, endpoint: Seq<char>) -> Result<usize, Error> {
        self.only_dir(self.tree()@.change(self.cursor() as int, endpoint))
    }

    /// Where `change_dir` leads from the working directory: where the tree
    /// resolves the path to, but only into directories.
    pub open spec fn path_target(&self, path: Seq<char>) -> Result<usize, Error> {
        self.only_dir(self.tree()@.resolve(self.cursor() as int, path))
    }

    /// Moves the working directory to `found`, where that is a directory.
    fn move_to(&mut self, found: Result<usize, Error>) -> (result: Result<(), Error>)
        requires
            old(self).wf(),
            found is Ok ==> old(self).tree()@.is_live(found->Ok_0 as int),
        ensures
            final(self).wf(),
            final(self).tree() == old(self).tree(),
            final(self).allocator() == old(self).allocator(),
            result is Ok ==> final(self).is_dir(final(self).cursor() as int),
            match old(self).only_dir(found) {
                Ok(id) => result is Ok && final(self).cursor() == id,
                Err(e) => result == Err::<(), Error>(e)
                    && final(self).cursor() == old(self).cursor(),
            },
    {
        match found {
            Ok(id) => {
                match self.live_type(id) {
                    Some(FileType::Dir) => {
                        self.current_dir = id;
                        Ok(())
                    },
                    _ => Err(Error::NotFound),
                }
            },
            Err(e) => Err(e),
        }
    }

    /// The path `/` and the endpoint `/` lead to the root, wherever the
    /// working directory is and whether or not it is still there.
    pub proof fn lemma_slash_leads_to_root(&self)
        requires
            self.wf(),
        ensures
            self.path_target(crate::dentry::slash()) == Ok::<usize, Error>(0usize),
            self.change_target(crate::dentry::slash()) == Ok::<usize, Error>(0usize),
    {
        self.tree()@.lemma_resolve_root(self.cursor() as int);
    }

    /// Moves the working directory along `path`. A path that begins with a
    /// slash starts at the root, whatever has become of the working
    /// directory, any other at the working directory; its segments are
    /// walked over in turn: `..` leads to the parent, any other segment to
    /// the entry of that name. The walk has to end at a directory. The
    /// path `/` always leads to the root.
    ///
    /// Fails with `NotFound` where the path is relative and the working
    /// directory has been removed, a segment names no entry, or the walk
    /// ends at something other than a directory, and with `NoParent` where
    /// `..` is met at the root; the working directory stays where it is
    /// then.
    pub fn change_dir(&mut self, path: &str) -> (result: Result<(), Error>)
        requires
            old(self).wf(),
        ensures
            final(self).wf(),
            final(self).tree() == old(self).tree(),
            final(self).allocator() == old(self).allocator(),
            result is Ok ==> final(self).is_dir(final(self).cursor() as int),
            match old(self).path_target(path@) {
                Ok(id) => result is Ok && final(self).cursor() == id,
                Err(e) => result == Err::<(), Error>(e)
                    && final(self).cursor() == old(self).cursor(),
            },
    {
        let found = self.dentrys_list.resolve(self.current_dir, path);
        self.move_to(found)
    }

    /// What `prime` does with what the storage told of the root record.
    pub open spec fn primed(&self, root: Result<Option<u64>, Error>) -> AllocatorView {
        primed_pool(self.pool(), root)
    }

    /// Takes what the storage told of the root record. A record that asks
    /// for no more than `MAX_TOTAL_BLOCKS` blocks replaces the pool by a
    /// fresh one of that size, as long as no block is allocated; no record,
    /// or any other record, leaves the pool as it is. An error of the
    /// backend is handed on.
    pub fn prime(&mut self, root: Result<Option<u64>, Error>) -> (result: Result<(), Error>)
        requires
            old(self).wf(),
        ensures
            final(self).wf(),
            final(self).tree() == old(self).tree(),
            final(self).cursor() == old(self).cursor(),
            final(self).pool() == old(self).primed(root),
            final(self).backend() == old(self).backend(),
            follows(root, result),
    {
        match root {
            Ok(Some(capacity)) => {
                if capacity <= MAX_TOTAL_BLOCKS && self.blocks.free_count()
                    == self.blocks.total_blocks() {
                    proof {
                        self.blocks.lemma_wf_view();
                        self.pool().lemma_account_pristine(self.chains());
                        AllocatorView::lemma_account_fresh(capacity as nat, self.chains());
                    }
                    self.blocks = Superblock::new(capacity as usize);
                }
                Ok(())
            },
            Ok(None) => Ok(()),
            Err(e) => Err(e),
        }
    }

    /// Whether the file at `id` has a block with unsaved changes.
    pub open spec fn dirty_at(&self, id: int) -> bool {
        chain_dirty(self.inode(id).blocks())
    }

    /// Whether any file has a block with unsaved changes.
    pub open spec fn any_dirty(&self) -> bool {
        exists|i: int| 0 <= i < self.tree()@.nodes.len() && #[trigger] self.dirty_at(i)
    }

    /// Persists every block of every file that has unsaved changes, and
    /// marks it clean. Stops at the first failure of the backend, with its
    /// error. The tree and the content of every file stay as they are.
    pub fn flush(&mut self) -> (result: Result<(), Error>)
        requires
            old(self).wf(),
        ensures
            final(self).wf(),
            final(self).tree()@ == old(self).tree()@,
            final(self).cursor() == old(self).cursor(),
            final(self).pool() == old(self).pool(),
            forall|i: int|
                0 <= i < old(self).tree()@.nodes.len() ==> (#[trigger] final(self).inode(
                    i,
                )).content() == old(self).inode(i).content() && final(self).inode(i).meta()
                    == old(self).inode(i).meta(),
            result is Ok ==> forall|i: int|
                0 <= i < old(self).tree()@.nodes.len() ==> !chain_dirty(
                    (#[trigger] final(self).inode(i)).blocks(),
                ),
            !old(self).any_dirty() ==> result is Ok,
    {
        let count = self.dentrys_list.len();
        let mut k: usize = 0;
        while k < count
            invariant
                k <= count,
                count == old(self).tree()@.nodes.len(),
                self.wf(),
                self.tree()@ == old(self).tree()@,
                self.cursor() == old(self).cursor(),
                self.allocator() == old(self).allocator(),
                forall|i: int|
                    0 <= i < count ==> (#[trigger] self.inode(i)).content() == old(self).inode(
                        i,
                    ).content() && self.inode(i).meta() == old(self).inode(i).meta(),
                forall|i: int| 0 <= i < k ==> !chain_dirty((#[trigger] self.inode(i)).blocks()),
                forall|i: int| k <= i < count ==> (#[trigger] self.inode(i)) == old(self).inode(i),
            decreases count - k,
        {
            let ghost before = *self;
            proof {
                assert(before.inode(k as int) == old(self).inode(k as int));
                if !old(self).any_dirty() {
                    assert(!old(self).dirty_at(k as int));
                }
            }
            let inode = self.dentrys_list.inode_mut(k);
            let saved = inode.persist(&mut self.storage);
            proof {
                assert(self.tree()@ == before.tree()@);
                lemma_saved_keeps_content(
                    before.inode(k as int).blocks(),
                    self.inode(k as int).blocks(),
                );
                self.lemma_wf_kept(&before, k as int);
                assert forall|i: int| k + 1 <= i < count implies (#[trigger] self.inode(i))
                    == old(self).inode(i) by {
                    assert(self.inode(i) == before.inode(i));
                }
                assert forall|i: int| 0 <= i < count implies (#[trigger] self.inode(i)).wf()
                    && self.inode(i).id_spec() == i && self.inode(i).content() == old(self).inode(
                    i,
                ).content() && self.inode(i).meta() == old(self).inode(i).meta() by {
                    assert(before.inode(i).wf());
                    assert(before.inode(i).content() == old(self).inode(i).content());
                    if i != k {
                        assert(self.inode(i) == before.inode(i));
                    }
                }
                assert(self.tree()@ == before.tree()@);
            }
            match saved {
                Ok(_) => {
                    proof {
                        assert forall|i: int| 0 <= i < k + 1 implies !chain_dirty(
                            (#[trigger] self.inode(i)).blocks(),
                        ) by {
                            if i != k {
                                assert(self.inode(i) == before.inode(i));
                            }
                        }
                    }
                },
                Err(e) => {
                    return Err(e);
                },
            }
            k += 1;
        }
        Ok(())
    }

    /// Replaces the content of an open file with `data` in memory, as
    /// `write` does, without persisting anything: the changed blocks wait
    /// in the file's queue, which `pending` lists.
    ///
    /// Fails with `NotFound` where the handle does not name a live file,
    /// and with `InsufficientCapacity` where the allocator has too few free
    /// blocks; nothing changes then.
    pub fn write_local(&mut self, file: &File, data: &[u8]) -> (result: Result<(), Error>)
        requires
            old(self).wf(),
            old(self).is_file(file.dentry as int) ==> old(self).inode(
                file.dentry as int,
            ).meta().version < u64::MAX,
        ensures
            final(self).wf(),
            final(self).same_but_inode(old(self), file.dentry as int),
            result == old(self).write_result(file.dentry as int, data@),
            result is Err ==> final(self).unchanged(old(self)),
            result is Ok ==> {
                let before = old(self).inode(file.dentry as int);
                let after = final(self).inode(file.dentry as int);
                &&& after.content() == data@
                &&& after.meta().size == data@.len()
                &&& after.meta().version == before.meta().version + 1
                &&& after.same_identity(&before)
                &&& chain_present(after.blocks())
                &&& after.blocks().len() == before.blocks().len() + old(self).write_needs(
                    file.dentry as int,
                    data@,
                )
                &&& forall|k: int|
                    0 <= k < after.blocks().len() ==> (#[trigger] after.blocks()[k]).content()
                        == chunk(data@, k)
                &&& chain_indices(after.blocks()) == chain_indices(before.blocks())
                    + old(self).pool().taken(old(self).write_needs(file.dentry as int, data@))
                &&& final(self).pool() == old(self).pool().allocate(
                    old(self).write_needs(file.dentry as int, data@),
                )
            },
    {
        let id = file.dentry;
        match self.live_type(id) {
            Some(FileType::File) => {},
            _ => {
                return Err(Error::NotFound);
            },
        }
        let ghost before = *self;
        let inode = self.dentrys_list.inode_mut(id);
        let written = inode.write(data, &mut self.blocks);
        proof {
            assert(self.tree()@ == before.tree()@);
            if written is Ok {
                let needs = before.write_needs(id as int, data@);
                before.allocator().lemma_wf_view();
                before.pool().lemma_account_allocate(before.chains(), id as int, needs);
                assert(self.chains() =~= before.chains().update(
                    id as int,
                    before.chains()[id as int] + before.pool().taken(needs),
                )) by {
                    assert forall|i: int| 0 <= i < before.tree()@.nodes.len() implies (
                    #[trigger] self.chains()[i]) == before.chains().update(
                        id as int,
                        before.chains()[id as int] + before.pool().taken(needs),
                    )[i] by {
                        if i != id {
                            assert(self.inode(i) == before.inode(i));
                        }
                    }
                }
            } else {
                self.lemma_wf_kept(&before, id as int);
            }
            assert forall|i: int| 0 <= i < self.tree()@.nodes.len() implies (#[trigger] self.inode(
                i,
            )).wf() && self.inode(i).id_spec() == i by {
                if i != id {
                    assert(self.inode(i) == before.inode(i));
                }
            }
            let expected = old(self).write_result(file.dentry as int, data@);
            if written is Ok {
                assert(expected is Ok);
                assert(written->Ok_0 == expected->Ok_0);
            } else {
                assert(expected is Err);
                assert(written->Err_0 == expected->Err_0);
            }
            assert(written == expected);
        }
        written
    }

    /// What `write_local` returns for the file at `id`: `NotFound` where
    /// `id` is no live file, `InsufficientCapacity` where the allocator has
    /// fewer free blocks than the file lacks.
    pub open spec fn write_result(&self, id: int, data: Seq<u8>) -> Result<(), Error> {
        if !self.is_file(id) {
            Err(Error::NotFound)
        } else if self.write_needs(id, data) > self.pool().free_count() {
            Err(Error::InsufficientCapacity)
        } else {
            Ok(())
        }
    }

    /// The content of an open file, where all of it is in memory. Nothing
    /// is fetched and nothing changes.
    ///
    /// Fails with `NotFound` where the handle does not name a live file, or
    /// a block of the file is not in memory.
    pub fn read_local(&self, file: &File) -> (result: Result<Vec<u8>, Error>)
        requires
            self.wf(),
        ensures
            self.is_file(file.dentry as int) && chain_present(
                self.inode(file.dentry as int).blocks(),
            ) ==> result is Ok && result->Ok_0@ == self.inode(file.dentry as int).content(),
            !(self.is_file(file.dentry as int) && chain_present(
                self.inode(file.dentry as int).blocks(),
            )) ==> result == Err::<Vec<u8>, Error>(Error::NotFound),
    {
        match self.live_type(file.dentry) {
            Some(FileType::File) => {},
            _ => {
                return Err(Error::NotFound);
            },
        }
        match self.dentrys_list.get_inode(file.dentry) {
            Some(inode) => inode.read(),
            None => Err(Error::NotFound),
        }
    }

    /// The blocks of an open file that wait to be persisted, as the file's
    /// `pending` lists them.
    ///
    /// Fails with `NotFound` where the handle does not name a live file.
    pub fn pending(&self, file: &File) -> (result: Result<Vec<PendingBlock>, Error>)
        requires
            self.wf(),
        ensures
            self.is_file(file.dentry as int) ==> result is Ok && is_pending_queue(
                result->Ok_0@,
                self.inode(file.dentry as int).blocks(),
            ),
            !self.is_file(file.dentry as int) ==> result is Err && result->Err_0
                == Error::NotFound,
    {
        match self.live_type(file.dentry) {
            Some(FileType::File) => {},
            _ => {
                return Err(Error::NotFound);
            },
        }
        match self.dentrys_list.get_inode(file.dentry) {
            Some(inode) => Ok(inode.pending()),
            None => Err(Error::NotFound),
        }
    }

    /// Marks one block of an open file clean, once the caller has persisted
    /// it under `hash`, as the file's `commit` does, and tells whether it
    /// did.
    ///
    /// Fails with `NotFound`, changing nothing, where the handle does not
    /// name a live file.
    pub fn commit(&mut self, file: &File, position: usize, hash: &str) -> (result: Result<
        bool,
        Error,
    >)
        requires
            old(self).wf(),
        ensures
            final(self).wf(),
            final(self).same_but_inode(old(self), file.dentry as int),
            final(self).pool() == old(self).pool(),
            !old(self).is_file(file.dentry as int) ==> result == Err::<bool, Error>(
                Error::NotFound,
            ) && final(self).unchanged(old(self)),
            old(self).is_file(file.dentry as int) ==> {
                let before = old(self).inode(file.dentry as int);
                let after = final(self).inode(file.dentry as int);
                &&& result == Ok::<bool, Error>(before.can_commit(position as int, hash@))
                &&& after.same_identity(&before)
                &&& after.meta() == before.meta()
                &&& after.content() == before.content()
                &&& same_but_saved(before.blocks(), after.blocks())
                &&& (result == Ok::<bool, Error>(true) ==> !after.blocks()[position as int].dirty())
                &&& forall|i: int|
                    0 <= i < before.blocks().len() && (i != position || result != Ok::<
                        bool,
                        Error,
                    >(true)) ==> after.blocks()[i] == before.blocks()[i]
            },
    {
        let id = file.dentry;
        match self.live_type(id) {
            Some(FileType::File) => {},
            _ => {
                return Err(Error::NotFound);
            },
        }
        let ghost before = *self;
        let inode = self.dentrys_list.inode_mut(id);
        let committed = inode.commit(position, hash);
        proof {
            assert(self.tree()@ == before.tree()@);
            lemma_saved_keeps_content(
                before.inode(id as int).blocks(),
                self.inode(id as int).blocks(),
            );
            self.lemma_wf_kept(&before, id as int);
            assert forall|i: int| 0 <= i < self.tree()@.nodes.len() implies (#[trigger] self.inode(
                i,
            )).wf() && self.inode(i).id_spec() == i by {
                if i != id {
                    assert(self.inode(i) == before.inode(i));
                }
            }
        }
        Ok(committed)
    }

    /// Drops from memory the content of every block of every file that has
    /// no unsaved changes. Such a block is fetched again from the backend
    /// when the file is read. The tree, the allocator and what every file
    /// stands for stay as they are.
    pub fn evict(&mut self)
        requires
            old(self).wf(),
        ensures
            final(self).wf(),
            final(self).tree()@ == old(self).tree()@,
            final(self).cursor() == old(self).cursor(),
            final(self).pool() == old(self).pool(),
            forall|i: int|
                0 <= i < old(self).tree()@.nodes.len() ==> (#[trigger] final(self).inode(
                    i,
                )).content() == old(self).inode(i).content() && final(self).inode(i).meta()
                    == old(self).inode(i).meta() && evicted_chain(
                    old(self).inode(i).blocks(),
                    final(self).inode(i).blocks(),
                ),
    {
        let count = self.dentrys_list.len();
        let mut k: usize = 0;
        while k < count
            invariant
                k <= count,
                count == old(self).tree()@.nodes.len(),
                self.wf(),
                self.tree()@ == old(self).tree()@,
                self.cursor() == old(self).cursor(),
                self.allocator() == old(self).allocator(),
                forall|i: int|
                    0 <= i < k ==> (#[trigger] self.inode(i)).content() == old(self).inode(
                        i,
                    ).content() && self.inode(i).meta() == old(self).inode(i).meta()
                        && evicted_chain(old(self).inode(i).blocks(), self.inode(i).blocks()),
                forall|i: int| k <= i < count ==> (#[trigger] self.inode(i)) == old(self).inode(i),
            decreases count - k,
        {
            let ghost before = *self;
            let inode = self.dentrys_list.inode_mut(k);
            let _ = inode.evict();
            proof {
                assert(self.tree()@ == before.tree()@);
                lemma_evicted_keeps_content(
                    before.inode(k as int).blocks(),
                    self.inode(k as int).blocks(),
                );
                self.lemma_wf_kept(&before, k as int);
                assert forall|i: int| 0 <= i < count implies (#[trigger] self.inode(i)).wf()
                    && self.inode(i).id_spec() == i by {
                    assert(before.inode(i).wf());
                    if i != k {
                        assert(self.inode(i) == before.inode(i));
                    }
                }
                assert forall|i: int| 0 <= i < k + 1 implies (#[trigger] self.inode(i)).content()
                    == old(self).inode(i).content() && self.inode(i).meta() == old(self).inode(
                    i,
                ).meta() && evicted_chain(old(self).inode(i).blocks(), self.inode(i).blocks()) by {
                    if i != k {
                        assert(self.inode(i) == before.inode(i));
                    } else {
                        assert(before.inode(i) == old(self).inode(i));
                    }
                }
                assert forall|i: int| k + 1 <= i < count implies (#[trigger] self.inode(i))
                    == old(self).inode(i) by {
                    assert(self.inode(i) == before.inode(i));
                }
                assert(self.tree()@ == before.tree()@);
            }
            k += 1;
        }
    }

    /// How many blocks the allocator has to give for the file at `id` to
    /// hold `data`.
    pub open spec fn write_needs(&self, id: int, data: Seq<u8>) -> nat {
        missing_blocks(self.inode(id).blocks().len(), data.len())
    }

    /// What creating a file called `name` returns: what the tree says of
    /// the new dentry, and `InsufficientCapacity` where the dentry could be
    /// made but no block is free.
    pub open spec fn create_file_result(&self, name: Seq<char>) -> Result<usize, Error> {
        match self.tree()@.create_result(self.cursor() as int, name) {
            Ok(id) => if self.pool().free_count() == 0 {
                Err(Error::InsufficientCapacity)
            } else {
                Ok(id)
            },
            Err(e) => Err(e),
        }
    }

    /// What opening the file called `name` returns: its position, or
    /// `NotFound` where the working directory has been removed or has no
    /// file of that name.
    pub open spec fn open_result(&self, name: Seq<char>) -> Result<usize, Error> {
        if self.has_entry(name) && self.inode(self.entry(name)).meta().file_type
            == FileType::File {
            Ok(self.entry(name) as usize)
        } else {
            Err(Error::NotFound)
        }
    }

    /// What removing the entry called `name` returns, whatever the entry
    /// is: what the tree says of removing that child of the working
    /// directory. That is `NotFound` where the working directory has been
    /// removed or has no entry of that name, and `NotEmpty` where the entry
    /// has children.
    pub open spec fn remove_result(&self, name: Seq<char>) -> Result<(), Error> {
        self.tree()@.remove_result(self.cursor() as int, name)
    }

    /// Removes the entry of the working directory called `name`, file or
    /// directory: the dentry leaves the tree, the inode is tombstoned, and
    /// once no link is left its blocks go back to the allocator.
    fn remove_entry(&mut self, name: &str) -> (result: Result<(), Error>)
        requires
            old(self).wf(),
            old(self).has_room(name@),
        ensures
            final(self).wf(),
            final(self).cursor() == old(self).cursor(),
            result == old(self).remove_result(name@),
            result is Err ==> final(self).unchanged(old(self)),
            result is Ok ==> {
                let gone = old(self).entry(name@);
                &&& final(self).tree()@ == old(self).tree()@.remove(
                    old(self).cursor() as int,
                    name@,
                )
                &&& forall|i: int|
                    0 <= i < old(self).tree()@.nodes.len() && i != gone ==> final(self).inode(i)
                        == old(self).inode(i)
                &&& final(self).inode(gone).meta().is_delete
                &&& final(self).inode(gone).meta().version == old(self).inode(gone).meta().version
                    + 1
                &&& removed_links(
                    old(self).inode(gone),
                    final(self).inode(gone),
                    old(self).pool(),
                    final(self).pool(),
                )
            },
    {
        let found = self.dentrys_list.dentry_find(self.current_dir, name);
        let id = match found {
            Ok(id) => id,
            Err(_) => {
                return Err(Error::NotFound);
            },
        };
        proof {
            let place = self.tree()@.child_place(self.cursor() as int, name@);
            self.tree()@.lemma_child_unique(self.cursor() as int, name@, place);
        }
        let ghost start = *self;
        match self.dentrys_list.remove(self.current_dir, name) {
            Err(e) => {
                proof {
                    self.lemma_chains_kept(&start);
                }
                return Err(e);
            },
            Ok(_) => {},
        }
        proof {
            self.lemma_chains_kept(&start);
        }
        let ghost before = *self;
        let inode = self.dentrys_list.inode_mut(id);
        inode.do_delete();
        let ghost tombstoned = *inode;
        if inode.get_links_count() == 0 {
            inode.release_blocks(&mut self.blocks);
        }
        proof {
            assert(self.tree()@ == before.tree()@);
            if tombstoned.meta().links_count == 0 {
                before.allocator().lemma_wf_view();
                before.pool().lemma_account_release(before.chains(), id as int);
                assert(self.chains() =~= before.chains().update(id as int, Seq::empty())) by {
                    assert forall|i: int| 0 <= i < before.tree()@.nodes.len() implies (
                    #[trigger] self.chains()[i]) == before.chains().update(
                        id as int,
                        Seq::empty(),
                    )[i] by {
                        if i != id {
                            assert(self.inode(i) == before.inode(i));
                        } else {
                            assert(chain_indices(self.inode(i).blocks()) =~= Seq::<
                                usize,
                            >::empty());
                        }
                    }
                }
            } else {
                assert(self.inode(id as int).blocks() == before.inode(id as int).blocks());
                self.lemma_wf_kept(&before, id as int);
            }
            assert forall|i: int| 0 <= i < self.tree()@.nodes.len() implies (#[trigger] self.inode(
                i,
            )).wf() && self.inode(i).id_spec() == i by {
                if i != id {
                    assert(self.inode(i) == before.inode(i));
                }
            }
        }
        Ok(())
    }
}

impl<T: ServiceTrait> FileOperations<File, Metadata> for Filesystem<T> {
    open spec fn files_wf(&self) -> bool {
        self.wf()
    }

    open spec fn file_has_room(&self, file: &File) -> bool {
        self.is_file(file.dentry as int) ==> self.inode(file.dentry as int).meta().version
            < u64::MAX
    }

    open spec fn entry_has_room(&self, name: Seq<char>) -> bool {
        self.has_room(name)
    }

    /// The content of an open file: what its blocks hold, in order. Blocks
    /// that are not in memory are fetched from the backend first, each by
    /// its content hash, and only accepted where they match it.
    ///
    /// Fails with `NotFound` where the handle does not name a live file,
    /// changing nothing. Where a block has to be fetched, fails with
    /// `ConnectorFailure` for a payload that does not match its block, and
    /// with the backend's error where the backend fails.
    fn read(&mut self, file: &File) -> (result: Result<Vec<u8>, Error>)
        ensures
            final(self).same_but_inode(old(self), file.dentry as int),
            final(self).pool() == old(self).pool(),
            !old(self).is_file(file.dentry as int) ==> result == Err::<Vec<u8>, Error>(
                Error::NotFound,
            ) && final(self).unchanged(old(self)),
            old(self).is_file(file.dentry as int) ==> {
                let before = old(self).inode(file.dentry as int);
                let after = final(self).inode(file.dentry as int);
                &&& after.same_identity(&before)
                &&& after.meta() == before.meta()
                &&& same_chain(before.blocks(), after.blocks())
                &&& (result is Ok ==> result->Ok_0@ == after.content() && chain_present(
                    after.blocks(),
                ))
                &&& (chain_present(before.blocks()) ==> result is Ok && result->Ok_0@
                    == before.content() && after.blocks() == before.blocks())
            },
    {
        let id = file.dentry;
        match self.live_type(id) {
            Some(FileType::File) => {},
            _ => {
                return Err(Error::NotFound);
            },
        }
        let ghost before = *self;
        let inode = self.dentrys_list.inode_mut(id);
        let loaded = inode.load(&mut self.storage);
        let content = match loaded {
            Ok(_) => inode.read(),
            Err(e) => Err(e),
        };
        proof {
            assert(self.tree()@ == before.tree()@);
            lemma_same_chain(before.inode(id as int).blocks(), self.inode(id as int).blocks());
            self.lemma_wf_kept(&before, id as int);
            assert forall|i: int| 0 <= i < self.tree()@.nodes.len() implies (#[trigger] self.inode(
                i,
            )).wf() && self.inode(i).id_spec() == i by {
                if i != id {
                    assert(self.inode(i) == before.inode(i));
                }
            }
            lemma_same_chain(before.inode(id as int).blocks(), self.inode(id as int).blocks());
        }
        content
    }

    /// Replaces the content of an open file with `data`, cut into chunks of
    /// one block each; blocks that the file lacks are allocated, all at
    /// once. The version of the file goes up by one. Every changed block is
    /// then persisted through the backend under its content hash.
    ///
    /// Fails with `NotFound` where the handle does not name a live file,
    /// and with `InsufficientCapacity` where the allocator has too few free
    /// blocks; nothing changes then. Where the backend fails, its error is
    /// returned: the file holds `data` all the same, and the blocks that
    /// were not persisted stay dirty.
    fn write(&mut self, file: &File, data: &[u8]) -> (result: Result<(), Error>)
        ensures
            final(self).same_but_inode(old(self), file.dentry as int),
            old(self).write_result(file.dentry as int, data@) is Err ==>
                result == old(self).write_result(file.dentry as int, data@)
                && final(self).unchanged(old(self)),
            old(self).write_result(file.dentry as int, data@) is Ok ==> {
                let before = old(self).inode(file.dentry as int);
                let after = final(self).inode(file.dentry as int);
                &&& after.content() == data@
                &&& after.meta().size == data@.len()
                &&& after.meta().version == before.meta().version + 1
                &&& after.same_identity(&before)
                &&& chain_present(after.blocks())
                &&& chain_indices(after.blocks()) == chain_indices(before.blocks())
                    + old(self).pool().taken(old(self).write_needs(file.dentry as int, data@))
                &&& final(self).pool() == old(self).pool().allocate(
                    old(self).write_needs(file.dentry as int, data@),
                )
                &&& (result is Ok ==> !chain_dirty(after.blocks()))
                &&& (after.blocks().len() == 0 ==> result is Ok)
            },
    {
        match self.write_local(file, data) {
            Ok(_) => {},
            Err(e) => {
                return Err(e);
            },
        }
        let id = file.dentry;
        let ghost before = *self;
        let inode = self.dentrys_list.inode_mut(id);
        let saved = inode.persist(&mut self.storage);
        proof {
            assert(self.tree()@ == before.tree()@);
            lemma_saved_keeps_content(
                before.inode(id as int).blocks(),
                self.inode(id as int).blocks(),
            );
            self.lemma_wf_kept(&before, id as int);
            assert forall|i: int| 0 <= i < self.tree()@.nodes.len() implies (#[trigger] self.inode(
                i,
            )).wf() && self.inode(i).id_spec() == i by {
                if i != id {
                    assert(self.inode(i) == before.inode(i));
                }
            }
            lemma_saved_keeps_content(
                before.inode(id as int).blocks(),
                self.inode(id as int).blocks(),
            );
            assert forall|k: int| 0 <= k < self.inode(id as int).blocks().len() implies (
            #[trigger] self.inode(id as int).blocks()[k]).present() by {
                assert(saved_or_same(
                    before.inode(id as int).blocks()[k],
                    self.inode(id as int).blocks()[k],
                ));
            }
        }
        saved
    }

    /// Deletes the entry called `filename` from the working directory, as
    /// the tree removes a child: the dentry leaves the tree, the inode is
    /// tombstoned, and once no link is left its blocks go back to the
    /// allocator.
    ///
    /// Fails with `NotFound` where the working directory has been removed
    /// or has no entry of that name, and with `NotEmpty` where the entry
    /// has entries of its own; nothing changes then.
    fn delete(&mut self, filename: &str) -> (result: Result<(), Error>)
        ensures
            final(self).cursor() == old(self).cursor(),
            result == old(self).remove_result(filename@),
            result is Err ==> final(self).unchanged(old(self)),
            result is Ok ==> {
                let gone = old(self).entry(filename@);
                &&& final(self).tree()@ == old(self).tree()@.remove(
                    old(self).cursor() as int,
                    filename@,
                )
                &&& forall|i: int|
                    0 <= i < old(self).tree()@.nodes.len() && i != gone ==> final(self).inode(i)
                        == old(self).inode(i)
                &&& final(self).inode(gone).meta().is_delete
                &&& removed_links(
                    old(self).inode(gone),
                    final(self).inode(gone),
                    old(self).pool(),
                    final(self).pool(),
                )
            },
    {
        self.remove_entry(filename)
    }

    /// Creates an empty file called `filename` in the working directory,
    /// with one block allocated for it, and opens it.
    ///
    /// Fails with `NotFound` where the working directory has been removed,
    /// with `AlreadyExists` where it has an entry of that name, and with
    /// `InsufficientCapacity` where no block is free; nothing changes then.
    fn create(&mut self, filename: &str) -> (result: Result<File, Error>)
        ensures
            final(self).cursor() == old(self).cursor(),
            match old(self).create_file_result(filename@) {
                Ok(id) => {
                    &&& result is Ok
                    &&& result->Ok_0.dentry == id
                    &&& final(self).tree()@ == old(self).tree()@.create(
                        old(self).cursor() as int,
                        filename@,
                    )
                    &&& final(self).pool() == old(self).pool().allocate(1)
                    &&& final(self).is_file(id as int)
                    &&& final(self).inode(id as int).content() == Seq::<u8>::empty()
                    &&& fresh_chain(
                        final(self).inode(id as int).blocks(),
                        old(self).pool().taken(1),
                    )
                    &&& final(self).inode(id as int).meta().links_count == 1
                    &&& final(self).inode(id as int).meta().version == 0
                    &&& forall|i: int|
                        0 <= i < old(self).tree()@.nodes.len() ==>
                            final(self).inode(i) == old(self).inode(i)
                },
                Err(e) => result == Err::<File, Error>(e) && final(self).unchanged(old(self)),
            },
    {
        if !self.dentrys_list.is_live(self.current_dir) {
            return Err(Error::NotFound);
        }
        if self.dentrys_list.dentry_find(self.current_dir, filename).is_ok() {
            return Err(Error::AlreadyExists);
        }
        if self.blocks.free_count() == 0 {
            return Err(Error::InsufficientCapacity);
        }
        let id = match self.dentrys_list.create(self.current_dir, filename, FileType::File) {
            Ok(id) => id,
            Err(e) => {
                return Err(e);
            },
        };
        proof {
            old(self).allocator().lemma_wf_view();
            old(self).pool().lemma_account_new_chain(old(self).chains());
            old(self).pool().lemma_account_allocate(
                old(self).chains().push(Seq::empty()),
                id as int,
                1,
            );
        }
        let mut fresh = match self.blocks.allocate(1) {
            Ok(fresh) => fresh,
            Err(e) => {
                return Err(e);
            },
        };
        let block = match fresh.pop() {
            Some(block) => block,
            None => {
                return Err(Error::InsufficientCapacity);
            },
        };
        let ghost before = *self;
        let inode = self.dentrys_list.inode_mut(id);
        let _ = inode.attach_block(block);
        proof {
            assert forall|i: int| 0 <= i < self.tree()@.nodes.len() implies (#[trigger] self.inode(
                i,
            )).wf() && self.inode(i).id_spec() == i by {
                if i != id {
                    assert(self.inode(i) == before.inode(i));
                }
            }
            old(self).tree()@.lemma_create_well_formed(old(self).cursor() as int, filename@);
            assert(self.inode(id as int).blocks() =~= seq![Slot::Present(block)]);
            let taken = old(self).pool().taken(1);
            assert(self.chains() =~= old(self).chains().push(Seq::empty()).update(
                id as int,
                Seq::<usize>::empty() + taken,
            )) by {
                assert forall|i: int| 0 <= i < self.tree()@.nodes.len() implies (
                #[trigger] self.chains()[i]) == old(self).chains().push(Seq::empty()).update(
                    id as int,
                    Seq::<usize>::empty() + taken,
                )[i] by {
                    if i != id {
                        assert(self.inode(i) == old(self).inode(i));
                    } else {
                        assert(chain_indices(self.inode(i).blocks()) =~= Seq::<usize>::empty()
                            + taken);
                    }
                }
            }
            assert(chain_content(seq![Slot::Present(block)]) =~= Seq::<u8>::empty()) by {
                assert(seq![Slot::Present(block)].drop_last() =~= Seq::<Slot>::empty());
            }
        }
        Ok(File { dentry: id })
    }

    /// Opens the file called `filename` in the working directory.
    ///
    /// Fails with `NotFound` where the working directory has been removed
    /// or has no file of that name.
    fn open(&self, filename: &str) -> (result: Result<File, Error>)
        ensures
            match self.open_result(filename@) {
                Ok(id) => result is Ok && result->Ok_0.dentry == id,
                Err(e) => result == Err::<File, Error>(e),
            },
    {
        let id = match self.dentrys_list.dentry_find(self.current_dir, filename) {
            Ok(id) => id,
            Err(_) => {
                return Err(Error::NotFound);
            },
        };
        proof {
            let place = self.tree()@.child_place(self.cursor() as int, filename@);
            self.tree()@.lemma_child_unique(self.cursor() as int, filename@, place);
        }
        match self.live_type(id) {
            Some(FileType::File) => Ok(File { dentry: id }),
            _ => Err(Error::NotFound),
        }
    }

    /// Gives the entry of the working directory called `from` the name
    /// `to`. The entry stays in the same directory.
    ///
    /// Fails with `NotFound` where the working directory has been removed
    /// or has no entry called `from`, and with `AlreadyExists` where it has
    /// an entry called `to`; nothing changes then.
    fn rename(&mut self, from: &str, to: &str) -> (result: Result<(), Error>)
        ensures
            result == old(self).tree()@.rename_result(old(self).cursor() as int, from@, to@),
            final(self).tree()@ == old(self).tree()@.after_rename(
                old(self).cursor() as int,
                from@,
                to@,
            ),
            final(self).cursor() == old(self).cursor(),
            final(self).pool() == old(self).pool(),
            forall|i: int|
                0 <= i < old(self).tree()@.nodes.len() ==> final(self).inode(i) == old(self).inode(
                    i,
                ),
    {
        let renamed = self.dentrys_list.rename(self.current_dir, from, to);
        proof {
            let tree = old(self).tree()@;
            let cursor = old(self).cursor() as int;
            if tree.rename_result(cursor, from@, to@) is Ok {
                tree.lemma_child_unique(cursor, from@, tree.child_place(cursor, from@));
            }
            self.lemma_chains_kept(old(self));
        }
        renamed
    }

    /// The content of the file called `filename` in the working directory,
    /// as `read` gives it for the opened file.
    ///
    /// Fails with `NotFound` where the working directory has been removed
    /// or has no file of that name, and as `read` does where a block has to
    /// be fetched.
    fn cat(&mut self, filename: &str) -> (result: Result<Vec<u8>, Error>)
        ensures
            final(self).pool() == old(self).pool(),
            match old(self).open_result(filename@) {
                Ok(id) => {
                    let before = old(self).inode(id as int);
                    let after = final(self).inode(id as int);
                    &&& final(self).same_but_inode(old(self), id as int)
                    &&& after.same_identity(&before)
                    &&& after.meta() == before.meta()
                    &&& same_chain(before.blocks(), after.blocks())
                    &&& (result is Ok ==> result->Ok_0@ == after.content() && chain_present(
                        after.blocks(),
                    ))
                    &&& (chain_present(before.blocks()) ==> result is Ok && result->Ok_0@
                        == before.content() && after.blocks() == before.blocks())
                },
                Err(e) => result == Err::<Vec<u8>, Error>(e) && final(self).unchanged(old(self)),
            },
    {
        proof {
            if self.has_entry(filename@) {
                let place = self.tree()@.child_place(self.cursor() as int, filename@);
                self.tree()@.lemma_child_unique(self.cursor() as int, filename@, place);
            }
        }
        match self.open(filename) {
            Ok(file) => self.read(&file),
            Err(e) => Err(e),
        }
    }

    /// The metadata of the entry of the working directory called `name`.
    ///
    /// Fails with `NotFound` where the working directory has been removed
    /// or has no entry of that name.
    fn stat(&self, name: &str) -> (result: Result<Metadata, Error>)
        ensures
            self.has_entry(name@) ==> result is Ok && result->Ok_0.same_but_times(
                self.inode(self.entry(name@)).meta(),
            ) && result->Ok_0.create_at == self.inode(self.entry(name@)).meta().create_at
                && result->Ok_0.modified_at == self.inode(self.entry(name@)).meta().modified_at,
            !self.has_entry(name@) ==> result == Err::<Metadata, Error>(Error::NotFound),
    {
        let id = match self.dentrys_list.dentry_find(self.current_dir, name) {
            Ok(id) => id,
            Err(_) => {
                return Err(Error::NotFound);
            },
        };
        proof {
            let place = self.tree()@.child_place(self.cursor() as int, name@);
            self.tree()@.lemma_child_unique(self.cursor() as int, name@, place);
        }
        match self.dentrys_list.get_inode(id) {
            Some(inode) => Ok(inode.get_metadata().duplicate()),
            None => Err(Error::NotFound),
        }
    }
}

impl<T: ServiceTrait> DirectoryOprations<Dir> for Filesystem<T> {
    open spec fn dirs_wf(&self) -> bool {
        self.wf()
    }

    open spec fn dir_has_room(&self, name: Seq<char>) -> bool {
        self.has_room(name)
    }

    /// The endpoints of the entries of the working directory, in the order
    /// in which they were created.
    ///
    /// Fails with `NotFound` where the working directory has been removed.
    fn list(&self) -> (result: Result<Vec<String>, Error>)
        ensures
            self.tree()@.is_live(self.cursor() as int) ==> result is Ok && result->Ok_0@.len()
                == self.tree()@.list(self.cursor() as int).len() && forall|k: int|
                0 <= k < result->Ok_0@.len() ==> (#[trigger] result->Ok_0@[k])@
                    == self.tree()@.list(self.cursor() as int)[k],
            !self.tree()@.is_live(self.cursor() as int) ==> result == Err::<Vec<String>, Error>(
                Error::NotFound,
            ),
    {
        self.dentrys_list.dentry_list(self.current_dir)
    }

    /// Creates an empty directory called `name` in the working directory
    /// and gives its handle.
    ///
    /// Fails with `NotFound` where the working directory has been removed,
    /// and with `AlreadyExists` where it has an entry of that name; nothing
    /// changes then.
    fn create_dir(&mut self, name: &str) -> (result: Result<Dir, Error>)
        ensures
            final(self).cursor() == old(self).cursor(),
            final(self).pool() == old(self).pool(),
            match old(self).tree()@.create_result(old(self).cursor() as int, name@) {
                Ok(id) => result is Ok && result->Ok_0.dentry == id && final(self).is_dir(
                    id as int,
                ),
                Err(e) => result == Err::<Dir, Error>(e),
            },
            final(self).tree()@ == old(self).tree()@.after_create(old(self).cursor() as int, name@),
            forall|i: int|
                0 <= i < old(self).tree()@.nodes.len() ==> final(self).inode(i) == old(self).inode(
                    i,
                ),
    {
        let made = self.dentrys_list.create(self.current_dir, name, FileType::Dir);
        proof {
            if made is Ok {
                old(self).pool().lemma_account_new_chain(old(self).chains());
                assert(self.chains() =~= old(self).chains().push(Seq::empty())) by {
                    assert forall|i: int| 0 <= i < self.tree()@.nodes.len() implies (
                    #[trigger] self.chains()[i]) == old(self).chains().push(Seq::empty())[i] by {
                        if i < old(self).tree()@.nodes.len() {
                            assert(self.inode(i) == old(self).inode(i));
                        } else {
                            assert(chain_indices(self.inode(i).blocks()) =~= Seq::<
                                usize,
                            >::empty());
                        }
                    }
                }
            } else {
                self.lemma_chains_kept(old(self));
            }
        }
        match made {
            Ok(id) => Ok(Dir { dentry: id }),
            Err(e) => Err(e),
        }
    }

    /// Removes the entry called `name` from the working directory, as the
    /// tree removes a child: the dentry leaves the tree, the inode is
    /// tombstoned, and once no link is left its blocks go back to the
    /// allocator.
    ///
    /// Fails with `NotFound` where the working directory has been removed
    /// or has no entry of that name, and with `NotEmpty` where the entry
    /// has entries of its own; nothing changes then.
    fn remove(&mut self, name: &str) -> (result: Result<(), Error>)
        ensures
            final(self).cursor() == old(self).cursor(),
            result == old(self).remove_result(name@),
            result is Err ==> final(self).unchanged(old(self)),
            result is Ok ==> {
                let gone = old(self).entry(name@);
                &&& final(self).tree()@ == old(self).tree()@.remove(
                    old(self).cursor() as int,
                    name@,
                )
                &&& forall|i: int|
                    0 <= i < old(self).tree()@.nodes.len() && i != gone ==> final(self).inode(i)
                        == old(self).inode(i)
                &&& final(self).inode(gone).meta().is_delete
                &&& removed_links(
                    old(self).inode(gone),
                    final(self).inode(gone),
                    old(self).pool(),
                    final(self).pool(),
                )
            },
    {
        self.remove_entry(name)
    }

    /// Moves the working directory one step and gives its new absolute
    /// path: `/` always leads to the root, `..` to the parent, any other
    /// endpoint to the directory of that name.
    ///
    /// Fails with `NotFound` where the endpoint is not `/` and the working
    /// directory has been removed or has no directory of that name, and
    /// with `NoParent` for `..` at the root; the working directory stays
    /// where it is then.
    fn change(&mut self, endpoint: &str) -> (result: Result<String, Error>)
        ensures
            final(self).tree() == old(self).tree(),
            final(self).allocator() == old(self).allocator(),
            match old(self).change_target(endpoint@) {
                Ok(id) => result is Ok && final(self).cursor() == id && result->Ok_0@
                    == old(self).tree()@.abs_path(id as int),
                Err(e) => result == Err::<String, Error>(e)
                    && final(self).cursor() == old(self).cursor(),
            },
    {
        let found = self.dentrys_list.change(self.current_dir, endpoint);
        match self.move_to(found) {
            Ok(_) => self.dentrys_list.get_abspath(self.current_dir),
            Err(e) => Err(e),
        }
    }
}

impl<T: ServiceTrait> Finder for Filesystem<T> {
    open spec fn finder_wf(&self) -> bool {
        self.wf()
    }

    /// The inode id of the entry of the working directory called `name`,
    /// which is the position of its dentry; nothing where the working
    /// directory has been removed or has no entry of that name.
    fn find(&self, name: &str) -> (id: Option<u64>)
        ensures
            self.has_entry(name@) ==> id == Some(self.entry(name@) as u64),
            !self.has_entry(name@) ==> id is None,
    {
        match self.dentrys_list.dentry_find(self.current_dir, name) {
            Ok(id) => Some(id as u64),
            Err(_) => None,
        }
    }
}

impl<T: ServiceTrait> ConnectorStorage<DentrysTable, Storage<T>> for Filesystem<T> {
    open spec fn mount_wf(&self) -> bool {
        self.wf()
    }

    open spec fn root_wf(root: &DentrysTable) -> bool {
        &&& root.wf()
        &&& forall|i: int|
            0 <= i < root@.nodes.len() ==> (#[trigger] root.inode(i)).blocks().len() == 0
    }

    /// Binds the tree `root`, whose files have no blocks yet, and the
    /// storage to the filesystem, in place of the tree and the storage it
    /// had. The working directory moves to the root, every block of the
    /// pool is free again, and the filesystem is initialised from the
    /// storage, as `init` does: whatever the storage told of the root
    /// record, the pool and the result are what `prime` makes of it.
    fn mount(&mut self, root: DentrysTable, storage: Storage<T>) -> (result: Result<(), Error>)
        ensures
            final(self).tree() == root,
            final(self).backend() == storage,
            final(self).cursor() == 0,
            exists|told: Result<Option<u64>, Error>|
                #![trigger primed_pool(AllocatorView::fresh(old(self).pool().total), told)]
                final(self).pool() == primed_pool(
                    AllocatorView::fresh(old(self).pool().total),
                    told,
                ) && follows(told, result),
            final(self).pool() == AllocatorView::fresh(old(self).pool().total) || (result is Ok
                && exists|capacity: u64|
                capacity <= MAX_TOTAL_BLOCKS && final(self).pool() == AllocatorView::fresh(
                    capacity as nat,
                )),
    {
        self.dentrys_list = root;
        self.storage = storage;
        self.current_dir = 0;
        self.blocks = Superblock::new(self.blocks.total_blocks());
        proof {
            assert forall|i: int| 0 <= i < self.chains().len() implies (
            #[trigger] self.chains()[i]).len() == 0 by {
                assert(root.inode(i).blocks().len() == 0);
            }
            AllocatorView::lemma_account_fresh(old(self).pool().total, self.chains());
        }
        let ghost bound = *self;
        let result = self.init();
        proof {
            let told = choose|told: Result<Option<u64>, Error>|
                #![trigger bound.primed(told)]
                self.pool() == bound.primed(told) && follows(told, result);
            assert(self.pool() == primed_pool(
                AllocatorView::fresh(old(self).pool().total),
                told,
            ) && follows(told, result));
        }
        result
    }

    /// Loads the root record from the storage and primes the allocator
    /// with the capacity it holds: whatever the storage told of the root
    /// record, the pool and the result are what `prime` makes of it. So the
    /// pool is replaced only by a fresh pool of at most `MAX_TOTAL_BLOCKS`
    /// blocks, only while no block is allocated, and never where an error
    /// is returned. The tree and the storage stay as they are.
    fn init(&mut self) -> (result: Result<(), Error>)
        ensures
            final(self).tree() == old(self).tree(),
            final(self).cursor() == old(self).cursor(),
            final(self).backend() == old(self).backend(),
            exists|told: Result<Option<u64>, Error>|
                #![trigger old(self).primed(told)]
                final(self).pool() == old(self).primed(told) && follows(told, result),
            result is Err ==> final(self).pool() == old(self).pool(),
            primed_or_kept(old(self).pool(), final(self).pool(), result is Ok),
    {
        let root = self.storage.load_root();
        let ghost told = root;
        let ghost loaded = *self;
        let result = self.prime(root);
        proof {
            assert(loaded.pool() == old(self).pool());
            assert(final(self).pool() == old(self).primed(told) && follows(told, result));
        }
        result
    }
}

/// What priming does to a pool, given what the storage told of the root
/// record: a record that asks for no more than `MAX_TOTAL_BLOCKS` blocks
/// replaces the pool by a fresh one of that size, as long as no block is
/// allocated; anything else leaves the pool as it is.
pub open spec fn primed_pool(pool: AllocatorView, root: Result<Option<u64>, Error>)
    -> AllocatorView {
    match root {
        Ok(Some(capacity)) => if capacity <= MAX_TOTAL_BLOCKS && capacity <= usize::MAX
            && pool.free_count() == pool.total {
            AllocatorView::fresh(capacity as nat)
        } else {
            pool
        },
        _ => pool,
    }
}

/// What initialising does to the pool: it is kept, or, where the call
/// succeeds while no block is allocated, replaced by a pool in which every
/// block is free, of at most `MAX_TOTAL_BLOCKS` blocks.
pub open spec fn primed_or_kept(before: AllocatorView, after: AllocatorView, ok: bool) -> bool {
    after == before || (ok && before.free_count() == before.total && exists|capacity: u64|
        capacity <= MAX_TOTAL_BLOCKS && after == AllocatorView::fresh(capacity as nat))
}

/// Whether `result` is what `prime` returns for what the storage told of
/// the root record: success for any answer, and the backend's own error for
/// an error.
pub open spec fn follows(told: Result<Option<u64>, Error>, result: Result<(), Error>) -> bool {
    match told {
        Ok(_) => result is Ok,
        Err(e) => result == Err::<(), Error>(e),
    }
}

/// What removing an entry does to its inode and to the allocator: one link
/// less, and once no link is left every block goes back to the allocator,
/// which then has as many more free blocks as the file had blocks, and the
/// file is empty. While a link is left, blocks and allocator stay as they
/// are.
pub open spec fn removed_links(
    before: Inode,
    after: Inode,
    pool_before: AllocatorView,
    pool_after: AllocatorView,
) -> bool {
    if before.meta().links_count <= 1 {
        &&& after.meta().links_count == 0
        &&& after.blocks().len() == 0
        &&& pool_after == pool_before.deallocate_all(chain_indices(before.blocks()))
        &&& pool_after.free_count() == pool_before.free_count() + before.blocks().len()
    } else {
        &&& after.meta().links_count == before.meta().links_count - 1
        &&& after.blocks() == before.blocks()
        &&& pool_after == pool_before
    }
}

} // verus!
