//! Inodes: the metadata of one file together with the ordered chain of
//! blocks that holds its content.

use crate::abstracts::{BlockAllocator, InodeTrait, ServiceTrait};
use crate::block::Block;
use crate::clock::current_timestamp_secs;
use crate::error::Error;
use crate::id::{get_uuid, UUID_LEN};
use crate::metadata::{FileType, Metadata, PERMISSION_MASK};
use crate::slot::{flushed_slot, Slot};
use crate::storage::Storage;
use crate::superblock::{fresh_block, lemma_deallocate_all_push, Superblock};
use crate::BLOCK_SIZE;
use vstd::prelude::*;
use vstd::slice::slice_subrange;
use vstd::string::*;

verus! {

/// The content of a chain of blocks: the content of each block, in order.
pub open spec fn chain_content(blocks: Seq<Slot>) -> Seq<u8>
    decreases blocks.len(),
{
    if blocks.len() == 0 {
        Seq::empty()
    } else {
        chain_content(blocks.drop_last()) + blocks.last().content()
    }
}

/// The pool positions of a chain of blocks, in order.
pub open spec fn chain_indices(blocks: Seq<Slot>) -> Seq<usize> {
    Seq::new(blocks.len(), |i: int| blocks[i].index())
}

/// Whether any block of the chain has unsaved changes.
pub open spec fn chain_dirty(blocks: Seq<Slot>) -> bool {
    exists|i: int| 0 <= i < blocks.len() && (#[trigger] blocks[i]).dirty()
}

/// Whether every block of the chain is in memory.
pub open spec fn chain_present(blocks: Seq<Slot>) -> bool {
    forall|i: int| 0 <= i < blocks.len() ==> (#[trigger] blocks[i]).present()
}

/// The chain holds fresh blocks at the positions `indices`, in that order,
/// all of them in memory.
pub open spec fn fresh_chain(blocks: Seq<Slot>, indices: Seq<usize>) -> bool {
    &&& blocks.len() == indices.len()
    &&& forall|i: int| 0 <= i < blocks.len() ==> fresh_slot(#[trigger] blocks[i], indices[i])
}

/// The slot holds, in memory, a fresh block at the position `index`.
pub open spec fn fresh_slot(slot: Slot, index: usize) -> bool {
    match slot {
        Slot::Present(block) => fresh_block(block, index),
        Slot::Absent(_) => false,
    }
}

/// Number of blocks that `len` bytes take up.
pub open spec fn blocks_needed(len: int) -> int {
    if len % (BLOCK_SIZE as int) == 0 {
        len / (BLOCK_SIZE as int)
    } else {
        len / (BLOCK_SIZE as int) + 1
    }
}

/// Where the chunk of block `k` starts in `len` bytes of data.
pub open spec fn chunk_start(k: int, len: int) -> int {
    if k * BLOCK_SIZE < len {
        k * BLOCK_SIZE
    } else {
        len
    }
}

/// The part of `data` that block `k` of a chain holds after a write: up to
/// `BLOCK_SIZE` bytes from `k * BLOCK_SIZE` on, nothing past the end.
pub open spec fn chunk(data: Seq<u8>, k: int) -> Seq<u8> {
    data.subrange(chunk_start(k, data.len() as int), chunk_start(k + 1, data.len() as int))
}

/// Adding one block to a chain adds its content at the end.
pub proof fn lemma_chain_push(blocks: Seq<Slot>, block: Slot)
    ensures
        chain_content(blocks.push(block)) == chain_content(blocks) + block.content(),
{
    assert(blocks.push(block).drop_last() =~= blocks);
}

/// A chain of empty blocks adds nothing to the content before it.
pub proof fn lemma_chain_empty_tail(blocks: Seq<Slot>, tail: Seq<Slot>)
    requires
        forall|i: int| 0 <= i < tail.len() ==> (#[trigger] tail[i]).content().len() == 0,
    ensures
        chain_content(blocks + tail) == chain_content(blocks),
    decreases tail.len(),
{
    if tail.len() == 0 {
        assert(blocks + tail =~= blocks);
    } else {
        lemma_chain_empty_tail(blocks, tail.drop_last());
        assert((blocks + tail).drop_last() =~= blocks + tail.drop_last());
        assert((blocks + tail).last() == tail.last());
        assert(chain_content(blocks + tail) =~= chain_content(blocks));
    }
}

/// The chain that holds `blocks`, all of them in memory.
pub open spec fn present_chain(blocks: Seq<Block>) -> Seq<Slot> {
    Seq::new(blocks.len(), |i: int| Slot::Present(blocks[i]))
}

/// Moves `blocks` to the end of `chain`, in their order.
fn append_present(chain: &mut Vec<Slot>, blocks: Vec<Block>)
    ensures
        final(chain)@ == old(chain)@ + present_chain(blocks@),
{
    let mut blocks = blocks;
    let ghost given = blocks@;
    let mut turned: Vec<Block> = Vec::new();
    while blocks.len() > 0
        invariant
            blocks@.len() + turned@.len() == given.len(),
            blocks@ == given.take(blocks@.len() as int),
            forall|i: int| 0 <= i < turned@.len() ==> turned@[i] == given[given.len() - 1 - i],
        decreases blocks@.len(),
    {
        match blocks.pop() {
            Some(block) => {
                turned.push(block);
                proof {
                    assert(blocks@ =~= given.take(blocks@.len() as int));
                }
            },
            None => {},
        }
    }
    while turned.len() > 0
        invariant
            turned@.len() <= given.len(),
            forall|i: int| 0 <= i < turned@.len() ==> turned@[i] == given[given.len() - 1 - i],
            chain@ == old(chain)@ + present_chain(given.take(given.len() - turned@.len())),
        decreases turned@.len(),
    {
        let ghost done = given.len() - turned@.len();
        match turned.pop() {
            Some(block) => {
                assert(block == given[done]);
                chain.push(Slot::Present(block));
                proof {
                    assert(chain@ =~= old(chain)@ + present_chain(given.take(done + 1)));
                }
            },
            None => {},
        }
    }
    proof {
        assert(given.take(given.len() as int) =~= given);
    }
}

/// The metadata and block chain of one file.
pub struct Inode {
    id: usize,
    uuid: String,
    block_indices: Vec<Slot>,
    metadata: Metadata,
}

impl InodeTrait for Inode {

}

impl Inode {
    /// The stable id of the inode.
    pub closed spec fn id_spec(&self) -> usize {
        self.id
    }

    /// The inode's universally unique name.
    pub closed spec fn uuid_spec(&self) -> Seq<char> {
        self.uuid@
    }

    /// The chain of owned blocks, in order.
    pub closed spec fn blocks(&self) -> Seq<Slot> {
        self.block_indices@
    }

    /// The metadata.
    pub closed spec fn meta(&self) -> Metadata {
        self.metadata
    }

    /// The file's content: the content of its chain of blocks.
    pub open spec fn content(&self) -> Seq<u8> {
        chain_content(self.blocks())
    }

    /// The invariant of every inode: each block is well formed, the size is
    /// the length of the content, the permissions are nine bits, and the
    /// recorded first hash is that of the first block.
    pub open spec fn wf(&self) -> bool {
        &&& forall|i: int| 0 <= i < self.blocks().len() ==> (#[trigger] self.blocks()[i]).wf()
        &&& self.meta().size == self.content().len()
        &&& self.meta().permissions <= PERMISSION_MASK
        &&& self.meta().first_block_hash@ == first_hash(self.blocks())
        &&& self.uuid_spec().len() == UUID_LEN
    }

    /// Everything about the inode but its content and what depends on it:
    /// `other` has the same identity, owner, permissions, links and
    /// tombstone flag.
    pub open spec fn same_identity(&self, other: &Inode) -> bool {
        &&& self.id_spec() == other.id_spec()
        &&& self.uuid_spec() == other.uuid_spec()
        &&& self.meta().file_type == other.meta().file_type
        &&& self.meta().uid == other.meta().uid
        &&& self.meta().gid == other.meta().gid
        &&& self.meta().permissions == other.meta().permissions
        &&& self.meta().links_count == other.meta().links_count
        &&& self.meta().is_delete == other.meta().is_delete
        &&& self.meta().create_at == other.meta().create_at
    }

    /// An empty regular file with the given id and a fresh random name.
    pub fn new(id: usize) -> (inode: Inode)
        ensures
            inode.wf(),
            inode.id_spec() == id,
            inode.blocks().len() == 0,
            inode.meta().file_type == FileType::File,
            fresh_metadata(inode.meta()),
    {
        Inode::with_type(id, FileType::File)
    }

    /// An empty inode of the given type with the given id and a fresh
    /// random name.
    pub fn with_type(id: usize, file_type: FileType) -> (inode: Inode)
        ensures
            inode.wf(),
            inode.id_spec() == id,
            inode.blocks().len() == 0,
            inode.meta().file_type == file_type,
            fresh_metadata(inode.meta()),
    {
        Inode {
            id,
            uuid: get_uuid(),
            block_indices: Vec::new(),
            metadata: Metadata::new(file_type),
        }
    }

    /// The stable id of the inode.
    pub fn get_inode_id(&self) -> (id: usize)
        ensures
            id == self.id_spec(),
    {
        self.id
    }

    /// The inode's universally unique name.
    pub fn get_uuid(&self) -> (uuid: &String)
        ensures
            uuid@ == self.uuid_spec(),
    {
        &self.uuid
    }

    /// The owned blocks, in order. Changes go through the inode.
    pub fn get_blocks(&self) -> (blocks: &Vec<Slot>)
        ensures
            blocks@ == self.blocks(),
    {
        &self.block_indices
    }

    /// The metadata.
    pub fn get_metadata(&self) -> (metadata: &Metadata)
        ensures
            *metadata == self.meta(),
    {
        &self.metadata
    }

    /// The content size in bytes.
    pub fn get_size(&self) -> (size: usize)
        ensures
            size == self.meta().size,
    {
        self.metadata.size
    }

    /// The content version.
    pub fn get_version(&self) -> (version: u64)
        ensures
            version == self.meta().version,
    {
        self.metadata.version
    }

    /// The number of directory entries that name the inode.
    pub fn get_links_count(&self) -> (links: usize)
        ensures
            links == self.meta().links_count,
    {
        self.metadata.links_count
    }

    /// The permission bits.
    pub fn get_permissions(&self) -> (permissions: u16)
        ensures
            permissions == self.meta().permissions,
    {
        self.metadata.permissions
    }

    /// Whether the inode is tombstoned.
    pub fn is_deleted(&self) -> (deleted: bool)
        ensures
            deleted == self.meta().is_delete,
    {
        self.metadata.is_delete
    }

    /// Whether the inode is a directory.
    pub fn is_dir(&self) -> (dir: bool)
        ensures
            dir == (self.meta().file_type == FileType::Dir),
    {
        self.metadata.file_type == FileType::Dir
    }

    /// Whether any block has unsaved changes.
    pub fn is_dirty(&self) -> (dirty: bool)
        ensures
            dirty == chain_dirty(self.blocks()),
    {
        let mut k: usize = 0;
        while k < self.block_indices.len()
            invariant
                k <= self.block_indices@.len(),
                forall|i: int| 0 <= i < k ==> !(#[trigger] self.block_indices@[i]).dirty(),
            decreases self.block_indices@.len() - k,
        {
            if self.block_indices[k].is_dirty() {
                return true;
            }
            k += 1;
        }
        false
    }

    /// Raises the version by one and sets the modification time to `now`.
    /// Nothing else changes.
    pub fn version_up_stamped(&mut self, now: u64)
        requires
            old(self).wf(),
            old(self).meta().version < u64::MAX,
        ensures
            final(self).wf(),
            final(self).meta() == (Metadata {
                version: (old(self).meta().version + 1) as u64,
                modified_at: now,
                ..old(self).meta()
            }),
            final(self).blocks() == old(self).blocks(),
            final(self).id_spec() == old(self).id_spec(),
            final(self).uuid_spec() == old(self).uuid_spec(),
    {
        self.metadata.version = self.metadata.version + 1;
        self.metadata.modified_at = now;
    }

    /// Raises the version by one and stamps the modification time. Follows
    /// every change of content.
    pub fn do_version_up(&mut self)
        requires
            old(self).wf(),
            old(self).meta().version < u64::MAX,
        ensures
            final(self).wf(),
            final(self).meta().version == old(self).meta().version + 1,
            final(self).blocks() == old(self).blocks(),
            final(self).same_identity(old(self)),
            final(self).meta().size == old(self).meta().size,
    {
        self.version_up_stamped(current_timestamp_secs());
    }

    /// Tombstones the inode at the time `now`: marks it deleted, takes one
    /// link off where one is left, raises the version by one and sets the
    /// modification time to `now`. No block is released and nothing else
    /// changes.
    pub fn delete_stamped(&mut self, now: u64)
        requires
            old(self).wf(),
            old(self).meta().version < u64::MAX,
        ensures
            final(self).wf(),
            final(self).meta() == (Metadata {
                is_delete: true,
                links_count: if old(self).meta().links_count > 0 {
                    (old(self).meta().links_count - 1) as usize
                } else {
                    0
                },
                version: (old(self).meta().version + 1) as u64,
                modified_at: now,
                ..old(self).meta()
            }),
            final(self).blocks() == old(self).blocks(),
            final(self).id_spec() == old(self).id_spec(),
            final(self).uuid_spec() == old(self).uuid_spec(),
    {
        self.metadata.is_delete = true;
        if self.metadata.links_count > 0 {
            self.metadata.links_count = self.metadata.links_count - 1;
        }
        self.version_up_stamped(now);
    }

    /// Tombstones the inode: marks it deleted, takes one link off where one
    /// is left, and raises the version. No block is released.
    pub fn do_delete(&mut self)
        requires
            old(self).wf(),
            old(self).meta().version < u64::MAX,
        ensures
            final(self).wf(),
            final(self).meta().is_delete,
            final(self).meta().links_count == if old(self).meta().links_count > 0 {
                old(self).meta().links_count - 1
            } else {
                0
            },
            final(self).meta().version == old(self).meta().version + 1,
            final(self).blocks() == old(self).blocks(),
            final(self).id_spec() == old(self).id_spec(),
            final(self).uuid_spec() == old(self).uuid_spec(),
            final(self).meta().file_type == old(self).meta().file_type,
            final(self).meta().uid == old(self).meta().uid,
            final(self).meta().gid == old(self).meta().gid,
            final(self).meta().permissions == old(self).meta().permissions,
            final(self).meta().size == old(self).meta().size,
            final(self).meta().create_at == old(self).meta().create_at,
    {
        self.delete_stamped(current_timestamp_secs());
    }

    /// Counts one more directory entry that names the inode.
    ///
    /// Fails with `TooLarge`, changing nothing, where the count cannot grow.
    pub fn do_link(&mut self) -> (result: Result<(), Error>)
        requires
            old(self).wf(),
        ensures
            final(self).wf(),
            final(self).blocks() == old(self).blocks(),
            final(self).id_spec() == old(self).id_spec(),
            final(self).uuid_spec() == old(self).uuid_spec(),
            old(self).meta().links_count < usize::MAX ==> result is Ok
                && final(self).meta().links_count == old(self).meta().links_count + 1,
            old(self).meta().links_count == usize::MAX ==> result == Err::<(), Error>(
                Error::TooLarge,
            ) && final(self).meta().links_count == old(self).meta().links_count,
            final(self).meta().file_type == old(self).meta().file_type,
            final(self).meta().uid == old(self).meta().uid,
            final(self).meta().gid == old(self).meta().gid,
            final(self).meta().permissions == old(self).meta().permissions,
            final(self).meta().size == old(self).meta().size,
            final(self).meta().version == old(self).meta().version,
            final(self).meta().is_delete == old(self).meta().is_delete,
            final(self).meta().create_at == old(self).meta().create_at,
            final(self).meta().modified_at == old(self).meta().modified_at,
    {
        if self.metadata.links_count == usize::MAX {
            return Err(Error::TooLarge);
        }
        self.metadata.links_count = self.metadata.links_count + 1;
        Ok(())
    }

    /// Sets the permission bits to the nine low bits of `permissions` and
    /// the modification time to `now`. Nothing else changes, the version
    /// neither.
    pub fn set_permissions_stamped(&mut self, permissions: u16, now: u64)
        requires
            old(self).wf(),
        ensures
            final(self).wf(),
            final(self).meta() == (Metadata {
                permissions: permissions & PERMISSION_MASK,
                modified_at: now,
                ..old(self).meta()
            }),
            final(self).blocks() == old(self).blocks(),
            final(self).id_spec() == old(self).id_spec(),
            final(self).uuid_spec() == old(self).uuid_spec(),
    {
        assert(permissions & 0o777u16 <= 0o777u16) by (bit_vector);
        self.metadata.permissions = permissions & PERMISSION_MASK;
        self.metadata.modified_at = now;
    }

    /// Sets the permission bits to the nine low bits of `permissions` and
    /// stamps the modification time. The version does not change.
    pub fn set_permissions(&mut self, permissions: u16)
        requires
            old(self).wf(),
        ensures
            final(self).wf(),
            final(self).meta().permissions == permissions & PERMISSION_MASK,
            final(self).meta().version == old(self).meta().version,
            final(self).blocks() == old(self).blocks(),
            final(self).id_spec() == old(self).id_spec(),
            final(self).uuid_spec() == old(self).uuid_spec(),
            final(self).meta().file_type == old(self).meta().file_type,
            final(self).meta().uid == old(self).meta().uid,
            final(self).meta().gid == old(self).meta().gid,
            final(self).meta().links_count == old(self).meta().links_count,
            final(self).meta().size == old(self).meta().size,
            final(self).meta().is_delete == old(self).meta().is_delete,
            final(self).meta().create_at == old(self).meta().create_at,
    {
        self.set_permissions_stamped(permissions, current_timestamp_secs());
    }

    /// Sets the owning user and group, and the modification time to `now`.
    /// Nothing else changes, the version neither.
    pub fn set_owner_stamped(&mut self, uid: u64, gid: u64, now: u64)
        requires
            old(self).wf(),
        ensures
            final(self).wf(),
            final(self).meta() == (Metadata { uid, gid, modified_at: now, ..old(self).meta() }),
            final(self).blocks() == old(self).blocks(),
            final(self).id_spec() == old(self).id_spec(),
            final(self).uuid_spec() == old(self).uuid_spec(),
    {
        self.metadata.uid = uid;
        self.metadata.gid = gid;
        self.metadata.modified_at = now;
    }

    /// Sets the owning user and group and stamps the modification time. The
    /// version does not change.
    pub fn set_owner(&mut self, uid: u64, gid: u64)
        requires
            old(self).wf(),
        ensures
            final(self).wf(),
            final(self).meta().uid == uid,
            final(self).meta().gid == gid,
            final(self).meta().version == old(self).meta().version,
            final(self).blocks() == old(self).blocks(),
            final(self).id_spec() == old(self).id_spec(),
            final(self).uuid_spec() == old(self).uuid_spec(),
            final(self).meta().file_type == old(self).meta().file_type,
            final(self).meta().permissions == old(self).meta().permissions,
            final(self).meta().links_count == old(self).meta().links_count,
            final(self).meta().size == old(self).meta().size,
            final(self).meta().is_delete == old(self).meta().is_delete,
            final(self).meta().create_at == old(self).meta().create_at,
    {
        self.set_owner_stamped(uid, gid, current_timestamp_secs());
    }

    /// Records the hash of the first block, or nothing where there is none.
    fn sync_first_hash(&mut self)
        ensures
            final(self).block_indices == old(self).block_indices,
            final(self).id == old(self).id,
            final(self).uuid == old(self).uuid,
            final(self).metadata.first_block_hash@ == first_hash(old(self).block_indices@),
            final(self).metadata.same_but_hash(old(self).metadata),
    {
        if self.block_indices.len() > 0 {
            self.metadata.first_block_hash = self.block_indices[0].get_hash().clone();
        } else {
            self.metadata.first_block_hash = String::new();
        }
    }

    /// Adds `block` at the end of the chain. The content grows by the
    /// block's content; the version does not change.
    ///
    /// Fails with `TooLarge`, changing nothing, where the size would no
    /// longer fit.
    pub fn attach_block(&mut self, block: Block) -> (result: Result<(), Error>)
        requires
            old(self).wf(),
            block.wf(),
        ensures
            final(self).wf(),
            final(self).same_identity(old(self)),
            final(self).meta().version == old(self).meta().version,
            old(self).meta().size + block@.content.len() <= usize::MAX ==> result is Ok
                && final(self).blocks() == old(self).blocks().push(Slot::Present(block))
                && final(self).content() == old(self).content() + block@.content,
            old(self).meta().size + block@.content.len() > usize::MAX ==> result == Err::<
                (),
                Error,
            >(Error::TooLarge) && final(self).blocks() == old(self).blocks(),
    {
        proof {
            block.lemma_content_fits();
        }
        let grown = block.get_valid_length();
        if grown > usize::MAX - self.metadata.size {
            return Err(Error::TooLarge);
        }
        proof {
            lemma_chain_push(self.block_indices@, Slot::Present(block));
        }
        self.block_indices.push(Slot::Present(block));
        self.metadata.size = self.metadata.size + grown;
        self.sync_first_hash();
        Ok(())
    }

    /// Whether every block of the chain is in memory.
    pub fn is_resident(&self) -> (resident: bool)
        ensures
            resident == chain_present(self.blocks()),
    {
        let mut k: usize = 0;
        while k < self.block_indices.len()
            invariant
                k <= self.block_indices@.len(),
                forall|i: int| 0 <= i < k ==> (#[trigger] self.block_indices@[i]).present(),
            decreases self.block_indices@.len() - k,
        {
            if !self.block_indices[k].is_present() {
                return false;
            }
            k += 1;
        }
        true
    }

    /// The whole content of the file, where every block is in memory: what
    /// each block holds, in order.
    ///
    /// Fails with `NotFound` where a block is not in memory: `load` fetches
    /// such blocks.
    pub fn read(&self) -> (result: Result<Vec<u8>, Error>)
        requires
            self.wf(),
        ensures
            chain_present(self.blocks()) ==> result is Ok && result->Ok_0@ == self.content(),
            !chain_present(self.blocks()) ==> result == Err::<Vec<u8>, Error>(Error::NotFound),
    {
        let mut content: Vec<u8> = Vec::new();
        let mut k: usize = 0;
        while k < self.block_indices.len()
            invariant
                self.wf(),
                k <= self.block_indices@.len(),
                content@ == chain_content(self.block_indices@.take(k as int)),
                forall|i: int| 0 <= i < k ==> (#[trigger] self.block_indices@[i]).present(),
            decreases self.block_indices@.len() - k,
        {
            match self.block_indices[k].read() {
                None => {
                    return Err(Error::NotFound);
                },
                Some(part) => {
                    let mut part = part;
                    proof {
                        let next = self.block_indices@.take(k + 1);
                        assert(next.drop_last() =~= self.block_indices@.take(k as int));
                        assert(next.last() == self.block_indices@[k as int]);
                    }
                    content.append(&mut part);
                },
            }
            k += 1;
        }
        proof {
            assert(self.block_indices@.take(k as int) =~= self.block_indices@);
        }
        Ok(content)
    }

    /// Fetches from the storage every block that is not in memory. What
    /// comes back for a block is only accepted where it has the block's
    /// length and content hash. Stops at the first failure; the blocks
    /// fetched before stay in memory. The hash and the length of every
    /// block, and with them the size of the file, stay as they are.
    ///
    /// Fails with `ConnectorFailure` where a payload does not match its
    /// block, and with the backend's error where the backend fails.
    pub fn load<T: ServiceTrait>(&mut self, storage: &mut Storage<T>) -> (result: Result<
        (),
        Error,
    >)
        requires
            old(self).wf(),
        ensures
            final(self).wf(),
            final(self).same_identity(old(self)),
            final(self).meta() == old(self).meta(),
            same_chain(old(self).blocks(), final(self).blocks()),
            result is Ok ==> chain_present(final(self).blocks()),
            chain_present(old(self).blocks()) ==> result is Ok,
    {
        let count = self.block_indices.len();
        let mut k: usize = 0;
        while k < count
            invariant
                k <= count,
                count == self.block_indices@.len(),
                old(self).wf(),
                self.id == old(self).id,
                self.uuid == old(self).uuid,
                self.metadata == old(self).metadata,
                forall|i: int| 0 <= i < count ==> (#[trigger] self.block_indices@[i]).wf(),
                same_chain(old(self).block_indices@, self.block_indices@),
                forall|i: int| 0 <= i < k ==> (#[trigger] self.block_indices@[i]).present(),
            decreases count - k,
        {
            if !self.block_indices[k].is_present() {
                let fetched = storage.loading(self.block_indices[k].get_hash().as_str());
                let ghost before = self.block_indices@;
                let loaded = match fetched {
                    Ok(payload) => self.block_indices[k].load(payload.as_slice()),
                    Err(e) => Err(e),
                };
                proof {
                    assert forall|i: int| 0 <= i < count implies (
                    #[trigger] self.block_indices@[i]).wf() by {
                        if i != k {
                            assert(self.block_indices@[i] == before[i]);
                        }
                    }
                    assert forall|i: int| 0 <= i < count implies (
                    #[trigger] old(self).block_indices@[i]).same_block(
                        &self.block_indices@[i],
                    ) by {
                        assert(old(self).block_indices@[i].same_block(&before[i]));
                        if i != k {
                            assert(self.block_indices@[i] == before[i]);
                        }
                    }
                    lemma_same_chain(old(self).block_indices@, self.block_indices@);
                }
                match loaded {
                    Ok(_) => {
                        proof {
                            assert forall|i: int| 0 <= i < k + 1 implies (
                            #[trigger] self.block_indices@[i]).present() by {
                                if i != k {
                                    assert(self.block_indices@[i] == before[i]);
                                }
                            }
                        }
                    },
                    Err(e) => {
                        return Err(e);
                    },
                }
            }
            k += 1;
        }
        proof {
            lemma_same_chain(old(self).block_indices@, self.block_indices@);
        }
        Ok(())
    }

    /// Drops from memory the content of every block that is in memory and
    /// has no unsaved changes, and gives the number of blocks dropped.
    /// Blocks with unsaved changes stay in memory, untouched. The file
    /// stands for the same content as before.
    pub fn evict(&mut self) -> (evicted: usize)
        requires
            old(self).wf(),
        ensures
            final(self).wf(),
            final(self).same_identity(old(self)),
            final(self).meta() == old(self).meta(),
            final(self).content() == old(self).content(),
            evicted_chain(old(self).blocks(), final(self).blocks()),
            evicted == clean_in_memory(old(self).blocks()),
    {
        let count = self.block_indices.len();
        let mut evicted: usize = 0;
        let mut k: usize = 0;
        while k < count
            invariant
                k <= count,
                evicted <= k,
                evicted == clean_in_memory(old(self).block_indices@.take(k as int)),
                count == self.block_indices@.len(),
                count == old(self).block_indices@.len(),
                old(self).wf(),
                self.id == old(self).id,
                self.uuid == old(self).uuid,
                self.metadata == old(self).metadata,
                forall|i: int| 0 <= i < count ==> (#[trigger] self.block_indices@[i]).wf(),
                forall|i: int|
                    0 <= i < k ==> evicted_or_same(
                        #[trigger] old(self).block_indices@[i],
                        self.block_indices@[i],
                    ),
                forall|i: int|
                    k <= i < count ==>
                        self.block_indices@[i] == #[trigger] old(self).block_indices@[i],
            decreases count - k,
        {
            let ghost before = self.block_indices@;
            if self.block_indices[k].evict() {
                evicted += 1;
            }
            proof {
                let seen = old(self).block_indices@.take(k + 1);
                assert(seen.drop_last() =~= old(self).block_indices@.take(k as int));
                assert(seen.last() == before[k as int]);
                assert forall|i: int| 0 <= i < count implies (
                #[trigger] self.block_indices@[i]).wf() by {
                    if i != k {
                        assert(self.block_indices@[i] == before[i]);
                    }
                }
                assert forall|i: int| 0 <= i < k + 1 implies evicted_or_same(
                    #[trigger] old(self).block_indices@[i],
                    self.block_indices@[i],
                ) by {
                    if i != k {
                        assert(self.block_indices@[i] == before[i]);
                        assert(evicted_or_same(old(self).block_indices@[i], before[i]));
                    } else {
                        assert(before[k as int] == old(self).block_indices@[k as int]);
                    }
                }
                assert forall|i: int| k + 1 <= i < count implies self.block_indices@[i]
                    == #[trigger] old(self).block_indices@[i] by {
                    assert(self.block_indices@[i] == before[i]);
                }
            }
            k += 1;
        }
        proof {
            lemma_evicted_keeps_content(old(self).block_indices@, self.block_indices@);
            assert(old(self).block_indices@.take(k as int) =~= old(self).block_indices@);
        }
        evicted
    }

    /// Replaces the content of the file with `data`, cut into chunks of
    /// `BLOCK_SIZE` bytes, one for each block of the chain in order. Where
    /// the chain is too short, the missing blocks are allocated first, all
    /// at once; blocks that `data` does not reach are kept, empty. Every
    /// block is in memory afterwards. The version goes up by one.
    ///
    /// Fails with `InsufficientCapacity` where the allocator has too few
    /// free blocks; neither the file nor the allocator changes then.
    pub fn write(&mut self, data: &[u8], allocator: &mut Superblock) -> (result: Result<
        (),
        Error,
    >)
        requires
            old(self).wf(),
            old(allocator).wf(),
            old(self).meta().version < u64::MAX,
        ensures
            final(self).wf(),
            final(allocator).wf(),
            final(self).same_identity(old(self)),
            missing_blocks(old(self).blocks().len(), data@.len()) <= old(allocator)@.free_count()
                ==> {
                &&& result is Ok
                &&& final(self).content() == data@
                &&& final(self).meta().version == old(self).meta().version + 1
                &&& final(self).blocks().len() == old(self).blocks().len() + missing_blocks(
                    old(self).blocks().len(),
                    data@.len(),
                )
                &&& forall|k: int|
                    0 <= k < final(self).blocks().len() ==>
                        (#[trigger] final(self).blocks()[k]).content() == chunk(data@, k)
                        && final(self).blocks()[k].present()
                &&& chain_indices(final(self).blocks()) == chain_indices(old(self).blocks())
                    + old(allocator)@.taken(missing_blocks(old(self).blocks().len(), data@.len()))
                &&& final(allocator)@ == old(allocator)@.allocate(
                    missing_blocks(old(self).blocks().len(), data@.len()),
                )
            },
            missing_blocks(old(self).blocks().len(), data@.len()) > old(allocator)@.free_count()
                ==> {
                &&& result == Err::<(), Error>(Error::InsufficientCapacity)
                &&& *final(self) == *old(self)
                &&& final(allocator)@ == old(allocator)@
            },
    {
        let len = data.len();
        let needed = if len % BLOCK_SIZE == 0 {
            len / BLOCK_SIZE
        } else {
            len / BLOCK_SIZE + 1
        };
        let have = self.block_indices.len();
        if needed > have {
            match allocator.allocate(needed - have) {
                Err(e) => {
                    return Err(e);
                },
                Ok(fresh) => {
                    let ghost start = self.block_indices@;
                    let ghost handed = fresh@;
                    append_present(&mut self.block_indices, fresh);
                    proof {
                        let tail = present_chain(handed);
                        assert forall|i: int| 0 <= i < self.block_indices@.len() implies (
                        #[trigger] self.block_indices@[i]).wf() by {
                            if i < start.len() {
                                assert(self.block_indices@[i] == start[i]);
                                assert(old(self).blocks()[i].wf());
                            } else {
                                assert(self.block_indices@[i] == tail[i - start.len()]);
                                assert(handed[i - start.len()].wf());
                            }
                        }
                        assert forall|i: int| 0 <= i < tail.len() implies (
                        #[trigger] tail[i]).content().len() == 0 by {
                            assert(handed[i]@.content.len() == 0);
                        }
                        lemma_chain_empty_tail(start, tail);
                        assert(chain_indices(self.block_indices@) =~= chain_indices(start)
                            + old(allocator)@.taken((needed - have) as nat)) by {
                            assert forall|i: int| 0 <= i < self.block_indices@.len() implies
                                chain_indices(self.block_indices@)[i] == (chain_indices(start)
                                + old(allocator)@.taken((needed - have) as nat))[i] by {
                                if i >= start.len() {
                                    assert(self.block_indices@[i] == tail[i - start.len()]);
                                    assert(fresh_block(
                                        handed[i - start.len()],
                                        old(allocator)@.taken((needed - have) as nat)[i
                                            - start.len()],
                                    ));
                                } else {
                                    assert(self.block_indices@[i] == start[i]);
                                }
                            }
                        }
                    }
                },
            }
        }
        proof {
            assert(old(allocator)@.taken(0) =~= Seq::<usize>::empty());
            assert(chain_indices(old(self).blocks()) + Seq::<usize>::empty() =~= chain_indices(
                old(self).blocks(),
            ));
        }
        let ghost grown = self.block_indices@;
        let count = self.block_indices.len();
        let mut k: usize = 0;
        while k < count
            invariant
                k <= count,
                count == self.block_indices@.len(),
                count == grown.len(),
                needed <= count,
                len == data@.len(),
                needed == blocks_needed(len as int),
                self.id == old(self).id,
                self.uuid == old(self).uuid,
                self.metadata == old(self).metadata,
                forall|i: int| 0 <= i < count ==> (#[trigger] self.block_indices@[i]).wf(),
                forall|i: int|
                    0 <= i < count ==> (#[trigger] self.block_indices@[i]).index()
                        == grown[i].index(),
                forall|i: int|
                    0 <= i < k ==> (#[trigger] self.block_indices@[i]).content() == chunk(data@, i)
                        && self.block_indices@[i].present(),
                chain_content(self.block_indices@.take(k as int)) == data@.take(
                    chunk_start(k as int, len as int),
                ),
            decreases count - k,
        {
            let start = if k < needed {
                k * BLOCK_SIZE
            } else {
                len
            };
            let end = if len - start > BLOCK_SIZE {
                start + BLOCK_SIZE
            } else {
                len
            };
            assert(start == chunk_start(k as int, len as int));
            assert(end == chunk_start(k + 1, len as int));
            let ghost before = self.block_indices@;
            let written = self.block_indices[k].write(slice_subrange(data, start, end));
            proof {
                let next = self.block_indices@.take(k + 1);
                assert(next.drop_last() =~= before.take(k as int));
                assert(next.last() == self.block_indices@[k as int]);
                assert(data@.take(start as int) + data@.subrange(start as int, end as int)
                    =~= data@.take(end as int));
                assert forall|i: int| 0 <= i < count implies (
                #[trigger] self.block_indices@[i]).wf() && self.block_indices@[i].index()
                    == grown[i].index() by {
                    if i != k {
                        assert(self.block_indices@[i] == before[i]);
                    }
                }
                assert forall|i: int| 0 <= i < k + 1 implies (
                #[trigger] self.block_indices@[i]).content() == chunk(data@, i)
                    && self.block_indices@[i].present() by {
                    if i != k {
                        assert(self.block_indices@[i] == before[i]);
                    }
                }
            }
            k += 1;
        }
        proof {
            assert(self.block_indices@.take(k as int) =~= self.block_indices@);
            assert(data@.take(len as int) =~= data@);
            assert(old(allocator)@.allocate(0).free =~= old(allocator)@.free);
            assert(chain_indices(self.block_indices@) =~= chain_indices(grown));
        }
        self.metadata.size = len;
        self.sync_first_hash();
        self.do_version_up();
        Ok(())
    }

    /// Persists every block that has unsaved changes: its content goes to
    /// the backend under its content hash, and once the backend has taken
    /// it the block is marked clean. Stops at the first failure, with the
    /// backend's error; the blocks persisted before stay clean. Neither
    /// the content nor the metadata of the file changes.
    pub fn persist<T: ServiceTrait>(&mut self, storage: &mut Storage<T>) -> (result: Result<
        (),
        Error,
    >)
        requires
            old(self).wf(),
        ensures
            final(self).wf(),
            final(self).same_identity(old(self)),
            final(self).meta() == old(self).meta(),
            final(self).content() == old(self).content(),
            same_but_saved(old(self).blocks(), final(self).blocks()),
            result is Ok ==> !chain_dirty(final(self).blocks()),
            !chain_dirty(old(self).blocks()) ==>
                result is Ok && final(self).blocks() == old(self).blocks(),
    {
        let count = self.block_indices.len();
        let mut k: usize = 0;
        while k < count
            invariant
                k <= count,
                count == self.block_indices@.len(),
                old(self).wf(),
                self.id == old(self).id,
                self.uuid == old(self).uuid,
                self.metadata == old(self).metadata,
                forall|i: int| 0 <= i < count ==> (#[trigger] self.block_indices@[i]).wf(),
                same_but_saved(old(self).block_indices@, self.block_indices@),
                forall|i: int| 0 <= i < k ==> !(#[trigger] self.block_indices@[i]).dirty(),
                !chain_dirty(old(self).block_indices@) ==>
                    self.block_indices@ == old(self).block_indices@,
            decreases count - k,
        {
            if self.block_indices[k].is_dirty() {
                let content = match self.block_indices[k].read() {
                    Some(content) => content,
                    None => Vec::new(),
                };
                match storage.save(content.as_slice()) {
                    Ok(_) => {
                        let ghost before = self.block_indices@;
                        self.block_indices[k].do_flush();
                        proof {
                            assert forall|i: int| 0 <= i < count implies (
                            #[trigger] self.block_indices@[i]).wf() by {
                                if i != k {
                                    assert(self.block_indices@[i] == before[i]);
                                }
                            }
                            assert forall|i: int| 0 <= i < count implies saved_or_same(
                                #[trigger] old(self).block_indices@[i],
                                self.block_indices@[i],
                            ) by {
                                assert(saved_or_same(old(self).block_indices@[i], before[i]));
                                if i != k {
                                    assert(self.block_indices@[i] == before[i]);
                                }
                            }
                            assert forall|i: int| 0 <= i < k + 1 implies !(
                            #[trigger] self.block_indices@[i]).dirty() by {
                                if i != k {
                                    assert(self.block_indices@[i] == before[i]);
                                }
                            }
                        }
                    },
                    Err(e) => {
                        proof {
                            lemma_saved_keeps_content(
                                old(self).block_indices@,
                                self.block_indices@,
                            );
                        }
                        return Err(e);
                    },
                }
            }
            k += 1;
        }
        proof {
            lemma_saved_keeps_content(old(self).block_indices@, self.block_indices@);
        }
        Ok(())
    }

    /// The blocks that wait to be persisted: for every block with unsaved
    /// changes its place in the chain, its content hash and its content, in
    /// the order of the chain. A caller that persists the blocks by itself
    /// hands each one to its backend and then calls `commit` for it.
    pub fn pending(&self) -> (queue: Vec<PendingBlock>)
        requires
            self.wf(),
        ensures
            is_pending_queue(queue@, self.blocks()),
    {
        let mut queue: Vec<PendingBlock> = Vec::new();
        let mut k: usize = 0;
        while k < self.block_indices.len()
            invariant
                self.wf(),
                k <= self.block_indices@.len(),
                is_pending_queue(queue@, self.block_indices@.take(k as int)),
            decreases self.block_indices@.len() - k,
        {
            let ghost before = queue@;
            let ghost seen = self.block_indices@.take(k as int);
            let ghost next = self.block_indices@.take(k + 1);
            if self.block_indices[k].is_dirty() {
                let content = match self.block_indices[k].read() {
                    Some(content) => content,
                    None => Vec::new(),
                };
                let hash = self.block_indices[k].get_hash().clone();
                queue.push(PendingBlock { position: k, hash, content });
            }
            proof {
                assert forall|j: int| 0 <= j < queue@.len() implies queued(
                    #[trigger] queue@[j],
                    next,
                ) by {
                    if j < before.len() {
                        assert(queued(before[j], seen));
                        assert(seen[before[j].position as int] == next[before[j].position as int]);
                    }
                }
                assert forall|i: int, j: int| 0 <= i < j < queue@.len() implies (
                #[trigger] queue@[i]).position < (#[trigger] queue@[j]).position by {
                    assert(queued(queue@[i], seen));
                    if j < before.len() {
                        assert(before[i].position < before[j].position);
                    }
                }
                assert forall|i: int| 0 <= i < next.len() && (#[trigger] next[i]).dirty() implies
                    in_queue(queue@, i) by {
                    if i < k {
                        assert(seen[i].dirty());
                        assert(in_queue(before, i));
                        let j = choose|j: int| 0 <= j < before.len() && before[j].position == i;
                        assert(queue@[j].position == i);
                    } else {
                        assert(queue@[before.len() as int].position == i);
                    }
                }
            }
            k += 1;
        }
        proof {
            assert(self.block_indices@.take(k as int) =~= self.block_indices@);
        }
        queue
    }

    /// Marks the block at `position` clean, once the caller has persisted
    /// it under `hash`, and tells whether it did. Nothing is marked where
    /// the chain has no such place, the block has no unsaved changes, or
    /// the block no longer has the content hash `hash`, because it was
    /// written again in the meantime.
    pub fn commit(&mut self, position: usize, hash: &str) -> (committed: bool)
        requires
            old(self).wf(),
        ensures
            final(self).wf(),
            final(self).same_identity(old(self)),
            final(self).meta() == old(self).meta(),
            final(self).content() == old(self).content(),
            same_but_saved(old(self).blocks(), final(self).blocks()),
            committed == old(self).can_commit(position as int, hash@),
            committed ==> !final(self).blocks()[position as int].dirty(),
            forall|i: int|
                0 <= i < old(self).blocks().len() && (i != position || !committed) ==>
                    final(self).blocks()[i] == old(self).blocks()[i],
    {
        if position >= self.block_indices.len() {
            return false;
        }
        if !self.block_indices[position].is_dirty() {
            return false;
        }
        if *self.block_indices[position].get_hash() != String::from_str(hash) {
            return false;
        }
        self.block_indices[position].do_flush();
        proof {
            lemma_saved_keeps_content(old(self).block_indices@, self.block_indices@);
        }
        true
    }

    /// Whether the block at `position` waits to be persisted under `hash`.
    pub open spec fn can_commit(&self, position: int, hash: Seq<char>) -> bool {
        &&& 0 <= position < self.blocks().len()
        &&& self.blocks()[position].dirty()
        &&& self.blocks()[position].hash() == hash
    }

    /// Gives every block of the chain back to the allocator and empties the
    /// file. An index that the allocator does not hold as allocated is
    /// passed over. The version does not change.
    pub fn release_blocks(&mut self, allocator: &mut Superblock)
        requires
            old(self).wf(),
            old(allocator).wf(),
        ensures
            final(self).wf(),
            final(allocator).wf(),
            final(self).blocks().len() == 0,
            final(self).same_identity(old(self)),
            final(self).meta().version == old(self).meta().version,
            final(allocator)@ == old(allocator)@.deallocate_all(chain_indices(old(self).blocks())),
    {
        let ghost indices = chain_indices(self.block_indices@);
        let mut k: usize = 0;
        while k < self.block_indices.len()
            invariant
                k <= self.block_indices@.len(),
                *self == *old(self),
                indices == chain_indices(self.block_indices@),
                allocator.wf(),
                allocator@ == old(allocator)@.deallocate_all(indices.take(k as int)),
            decreases self.block_indices@.len() - k,
        {
            let index = self.block_indices[k].get_index();
            proof {
                lemma_deallocate_all_push(old(allocator)@, indices.take(k as int), index);
                assert(indices.take(k as int).push(index) =~= indices.take(k + 1));
            }
            let _ = allocator.deallocate(index);
            k += 1;
        }
        proof {
            assert(indices.take(k as int) =~= indices);
        }
        self.block_indices = Vec::new();
        self.metadata.size = 0;
        self.sync_first_hash();
    }
}

/// A block that waits to be persisted.
pub struct PendingBlock {
    /// The place of the block in the chain of its file.
    pub position: usize,
    /// The content hash of the block: the key to store it under.
    pub hash: String,
    /// The content of the block.
    pub content: Vec<u8>,
}

/// `entry` names a block of the chain that has unsaved changes, with its
/// hash and its content.
pub open spec fn queued(entry: PendingBlock, blocks: Seq<Slot>) -> bool {
    &&& entry.position < blocks.len()
    &&& blocks[entry.position as int].dirty()
    &&& entry.hash@ == blocks[entry.position as int].hash()
    &&& entry.content@ == blocks[entry.position as int].content()
}

/// Whether the queue has an entry for the block at `position`.
pub open spec fn in_queue(queue: Seq<PendingBlock>, position: int) -> bool {
    exists|j: int| 0 <= j < queue.len() && (#[trigger] queue[j]).position == position
}

/// `queue` lists the blocks of the chain that have unsaved changes, each
/// once, in the order of the chain, and no other block.
pub open spec fn is_pending_queue(queue: Seq<PendingBlock>, blocks: Seq<Slot>) -> bool {
    &&& forall|j: int| 0 <= j < queue.len() ==> queued(#[trigger] queue[j], blocks)
    &&& forall|i: int, j: int|
        0 <= i < j < queue.len() ==> (#[trigger] queue[i]).position < (#[trigger] queue[j]).position
    &&& forall|i: int| 0 <= i < blocks.len() && (#[trigger] blocks[i]).dirty() ==>
        in_queue(queue, i)
}

/// `after` is `before`, or `before` marked clean: the same block with the
/// same content and hash in either case.
pub open spec fn saved_or_same(before: Slot, after: Slot) -> bool {
    &&& after.content() == before.content()
    &&& after.hash() == before.hash()
    &&& after.index() == before.index()
    &&& after.created_at() == before.created_at()
    &&& after.previous() == before.previous()
    &&& after.present() == before.present()
    &&& (after == before || flushed_slot(before, after))
}

/// `after` is the chain `before` in which some blocks may have been marked
/// clean, and nothing else has changed.
pub open spec fn same_but_saved(before: Seq<Slot>, after: Seq<Slot>) -> bool {
    &&& after.len() == before.len()
    &&& forall|i: int| 0 <= i < before.len() ==> saved_or_same(#[trigger] before[i], after[i])
}

/// Marking blocks clean changes neither the content of the chain nor the
/// hash of its first block.
pub proof fn lemma_saved_keeps_content(before: Seq<Slot>, after: Seq<Slot>)
    requires
        same_but_saved(before, after),
    ensures
        chain_content(after) == chain_content(before),
        first_hash(after) == first_hash(before),
        chain_indices(after) == chain_indices(before),
    decreases before.len(),
{
    if before.len() > 0 {
        assert(saved_or_same(before[0], after[0]));
        assert(saved_or_same(before[before.len() - 1], after[after.len() - 1]));
        assert forall|i: int| 0 <= i < before.drop_last().len() implies saved_or_same(
            #[trigger] before.drop_last()[i],
            after.drop_last()[i],
        ) by {
            assert(saved_or_same(before[i], after[i]));
        }
        lemma_saved_keeps_content(before.drop_last(), after.drop_last());
    }
    assert forall|i: int| 0 <= i < before.len() implies chain_indices(after)[i] == chain_indices(
        before,
    )[i] by {
        assert(saved_or_same(before[i], after[i]));
    }
    assert(chain_indices(after) =~= chain_indices(before));
}

/// What `evict` does to one block. A block that is in memory and has no
/// unsaved changes leaves memory; any other block is as it was. Either way
/// it is the same block, with the same content and hash, the same creation
/// time and the same earlier version.
pub open spec fn evicted_or_same(before: Slot, after: Slot) -> bool {
    &&& after.content() == before.content()
    &&& after.hash() == before.hash()
    &&& after.index() == before.index()
    &&& after.created_at() == before.created_at()
    &&& after.previous() == before.previous()
    &&& after.dirty() == before.dirty()
    &&& after.present() == (before.present() && before.dirty())
    &&& (!before.present() || before.dirty() ==> after == before)
}

/// How many blocks of the chain are in memory and have no unsaved changes:
/// the blocks that `evict` drops from memory.
pub open spec fn clean_in_memory(blocks: Seq<Slot>) -> nat
    decreases blocks.len(),
{
    if blocks.len() == 0 {
        0
    } else {
        clean_in_memory(blocks.drop_last()) + if blocks.last().present() && !blocks.last().dirty() {
            1nat
        } else {
            0nat
        }
    }
}

/// `after` is the chain `before` in which every block that was in memory
/// without unsaved changes has been dropped from memory, and nothing else
/// has changed.
pub open spec fn evicted_chain(before: Seq<Slot>, after: Seq<Slot>) -> bool {
    &&& after.len() == before.len()
    &&& forall|i: int| 0 <= i < before.len() ==> evicted_or_same(#[trigger] before[i], after[i])
}

/// Dropping blocks from memory changes neither the content of the chain nor
/// the hash of its first block.
pub proof fn lemma_evicted_keeps_content(before: Seq<Slot>, after: Seq<Slot>)
    requires
        evicted_chain(before, after),
    ensures
        chain_content(after) == chain_content(before),
        first_hash(after) == first_hash(before),
        chain_indices(after) == chain_indices(before),
    decreases before.len(),
{
    if before.len() > 0 {
        assert(evicted_or_same(before[0], after[0]));
        assert(evicted_or_same(before[before.len() - 1], after[after.len() - 1]));
        assert forall|i: int| 0 <= i < before.drop_last().len() implies evicted_or_same(
            #[trigger] before.drop_last()[i],
            after.drop_last()[i],
        ) by {
            assert(evicted_or_same(before[i], after[i]));
        }
        lemma_evicted_keeps_content(before.drop_last(), after.drop_last());
    }
    assert forall|i: int| 0 <= i < before.len() implies chain_indices(after)[i] == chain_indices(
        before,
    )[i] by {
        assert(evicted_or_same(before[i], after[i]));
    }
    assert(chain_indices(after) =~= chain_indices(before));
}

/// `after` is the chain `before` in which some blocks may have come back
/// into memory: every block has the position, the content hash and the
/// length it had, and a block that was in memory is untouched.
pub open spec fn same_chain(before: Seq<Slot>, after: Seq<Slot>) -> bool {
    &&& after.len() == before.len()
    &&& forall|i: int| 0 <= i < before.len() ==> (#[trigger] before[i]).same_block(&after[i])
}

/// Blocks that come back into memory leave the length of the content, the
/// hash of the first block and the positions as they were; where every
/// block was in memory, nothing has changed at all.
pub proof fn lemma_same_chain(before: Seq<Slot>, after: Seq<Slot>)
    requires
        same_chain(before, after),
    ensures
        chain_content(after).len() == chain_content(before).len(),
        first_hash(after) == first_hash(before),
        chain_indices(after) == chain_indices(before),
        chain_present(before) ==> after == before,
    decreases before.len(),
{
    if before.len() > 0 {
        assert(before[0].same_block(&after[0]));
        assert(before[before.len() - 1].same_block(&after[after.len() - 1]));
        assert forall|i: int| 0 <= i < before.drop_last().len() implies (
        #[trigger] before.drop_last()[i]).same_block(&after.drop_last()[i]) by {
            assert(before[i].same_block(&after[i]));
        }
        lemma_same_chain(before.drop_last(), after.drop_last());
    }
    assert forall|i: int| 0 <= i < before.len() implies chain_indices(after)[i] == chain_indices(
        before,
    )[i] by {
        assert(before[i].same_block(&after[i]));
    }
    assert(chain_indices(after) =~= chain_indices(before));
    if chain_present(before) {
        assert forall|i: int| 0 <= i < before.len() implies after[i] == before[i] by {
            assert(before[i].same_block(&after[i]));
        }
        assert(after =~= before);
    }
}

/// How many blocks a chain of `have` blocks lacks to hold `len` bytes.
pub open spec fn missing_blocks(have: nat, len: nat) -> nat {
    if blocks_needed(len as int) > have {
        (blocks_needed(len as int) - have) as nat
    } else {
        0
    }
}

/// The hash recorded for a chain: that of its first block, or nothing for an
/// empty chain.
pub open spec fn first_hash(blocks: Seq<Slot>) -> Seq<char> {
    if blocks.len() > 0 {
        blocks[0].hash()
    } else {
        Seq::empty()
    }
}

/// The metadata of an inode that was just made: no content, no link, every
/// permission, version 0, owned by user and group 0.
pub open spec fn fresh_metadata(metadata: Metadata) -> bool {
    &&& metadata.uid == 0
    &&& metadata.gid == 0
    &&& metadata.size == 0
    &&& metadata.permissions == PERMISSION_MASK
    &&& metadata.links_count == 0
    &&& metadata.version == 0
    &&& !metadata.is_delete
}

} // verus!
