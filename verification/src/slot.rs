//! Slots: the places of an inode's chain. A slot holds its block, or, where
//! the content has been dropped from memory after it was persisted, only
//! what is needed to fetch it again: its hash and its length.

use crate::block::Block;
use crate::error::Error;
use crate::hash::{calculate_hash, content_hash};
use crate::BLOCK_SIZE;
use vstd::prelude::*;
use vstd::string::*;

verus! {

/// What is kept of a block whose content is not in memory: everything but
/// the content, the link to its earlier version and its creation time
/// included.
pub struct Stub {
    index: usize,
    hash: String,
    length: usize,
    created: u128,
    earlier: Option<Block>,
    content: Ghost<Seq<u8>>,
}

impl Stub {
    /// The block's position in its pool.
    pub closed spec fn index_spec(&self) -> usize {
        self.index
    }

    /// The content hash under which the content was persisted.
    pub closed spec fn hash_spec(&self) -> Seq<char> {
        self.hash@
    }

    /// The content that the stub stands for.
    pub closed spec fn content_spec(&self) -> Seq<u8> {
        self.content@
    }

    /// When the block was created, in nanoseconds since the Unix epoch.
    pub closed spec fn created_at(&self) -> u128 {
        self.created
    }

    /// The earlier version that the block is linked to, if any.
    pub closed spec fn previous(&self) -> Option<Block> {
        self.earlier
    }

    /// The recorded length is that of the content, fits a block, the
    /// recorded hash is the hash of the content, and an earlier version,
    /// where one is linked, is well formed.
    pub closed spec fn wf(&self) -> bool {
        &&& self.length <= BLOCK_SIZE
        &&& self.content@.len() == self.length
        &&& self.hash@ == content_hash(self.content@)
        &&& self.earlier matches Some(linked) ==> linked.wf()
    }

    /// A well-formed stub stands for content that fits a block and hashes
    /// to the recorded hash.
    pub proof fn lemma_wf(&self)
        requires
            self.wf(),
        ensures
            self.content_spec().len() <= BLOCK_SIZE,
            self.hash_spec() == content_hash(self.content_spec()),
    {
    }
}

/// One place in the chain of an inode.
pub enum Slot {
    /// The block is in memory.
    Present(Block),
    /// The block was persisted and dropped from memory.
    Absent(Stub),
}

/// The text of the error for a payload that does not match the block it is
/// loaded for.
pub open spec fn wrong_payload_text() -> Seq<char> {
    "payload does not match the block"@
}

impl Slot {
    /// The content of the block.
    pub open spec fn content(&self) -> Seq<u8> {
        match self {
            Slot::Present(block) => block@.content,
            Slot::Absent(stub) => stub.content_spec(),
        }
    }

    /// The content hash of the block.
    pub open spec fn hash(&self) -> Seq<char> {
        match self {
            Slot::Present(block) => block@.hash,
            Slot::Absent(stub) => stub.hash_spec(),
        }
    }

    /// The block's position in its pool.
    pub open spec fn index(&self) -> usize {
        match self {
            Slot::Present(block) => block.index_spec(),
            Slot::Absent(stub) => stub.index_spec(),
        }
    }

    /// When the block was created, in nanoseconds since the Unix epoch.
    pub open spec fn created_at(&self) -> u128 {
        match self {
            Slot::Present(block) => block.created_at(),
            Slot::Absent(stub) => stub.created_at(),
        }
    }

    /// The earlier version that the block is linked to, if any.
    pub open spec fn previous(&self) -> Option<Block> {
        match self {
            Slot::Present(block) => block.previous(),
            Slot::Absent(stub) => stub.previous(),
        }
    }

    /// Whether the block has unsaved changes. A block that is not in memory
    /// has none.
    pub open spec fn dirty(&self) -> bool {
        match self {
            Slot::Present(block) => block@.dirty,
            Slot::Absent(_) => false,
        }
    }

    /// Whether the block is in memory.
    pub open spec fn present(&self) -> bool {
        self is Present
    }

    /// The invariant of a slot: that of its block or of its stub.
    pub open spec fn wf(&self) -> bool {
        match self {
            Slot::Present(block) => block.wf(),
            Slot::Absent(stub) => stub.wf(),
        }
    }

    /// `other` names the same block with the same content hash and length,
    /// the same creation time and the same earlier version, and is the
    /// very same slot where this one is in memory.
    pub open spec fn same_block(&self, other: &Slot) -> bool {
        &&& other.index() == self.index()
        &&& other.hash() == self.hash()
        &&& other.content().len() == self.content().len()
        &&& other.created_at() == self.created_at()
        &&& other.previous() == self.previous()
        &&& self.present() ==> *other == *self
    }

    /// In a well-formed slot the content fits a block and the hash is the
    /// hash of the content.
    pub proof fn lemma_wf(&self)
        requires
            self.wf(),
        ensures
            self.content().len() <= BLOCK_SIZE,
            self.hash() == content_hash(self.content()),
    {
        match self {
            Slot::Present(block) => {},
            Slot::Absent(stub) => {
                stub.lemma_wf();
            },
        }
    }

    /// Whether the block is in memory.
    pub fn is_present(&self) -> (present: bool)
        ensures
            present == self.present(),
    {
        match self {
            Slot::Present(_) => true,
            Slot::Absent(_) => false,
        }
    }

    /// Whether the block has unsaved changes.
    pub fn is_dirty(&self) -> (dirty: bool)
        ensures
            dirty == self.dirty(),
    {
        match self {
            Slot::Present(block) => block.is_dirty(),
            Slot::Absent(_) => false,
        }
    }

    /// The block's position in its pool.
    pub fn get_index(&self) -> (index: usize)
        ensures
            index == self.index(),
    {
        match self {
            Slot::Present(block) => block.get_index(),
            Slot::Absent(stub) => stub.index,
        }
    }

    /// The content hash of the block.
    pub fn get_hash(&self) -> (hash: &String)
        ensures
            hash@ == self.hash(),
    {
        match self {
            Slot::Present(block) => block.get_hash(),
            Slot::Absent(stub) => &stub.hash,
        }
    }

    /// The length of the block's content.
    pub fn get_length(&self) -> (length: usize)
        requires
            self.wf(),
        ensures
            length == self.content().len(),
    {
        match self {
            Slot::Present(block) => block.get_valid_length(),
            Slot::Absent(stub) => stub.length,
        }
    }

    /// The block, where it is in memory.
    pub fn get_block(&self) -> (block: Option<&Block>)
        ensures
            match self {
                Slot::Present(held) => block == Some(held),
                Slot::Absent(_) => block is None,
            },
    {
        match self {
            Slot::Present(block) => Some(block),
            Slot::Absent(_) => None,
        }
    }

    /// The content of the block, where it is in memory.
    pub fn read(&self) -> (content: Option<Vec<u8>>)
        requires
            self.wf(),
        ensures
            self.present() ==> content is Some && content->Some_0@ == self.content(),
            !self.present() ==> content is None,
    {
        match self {
            Slot::Present(block) => Some(block.read()),
            Slot::Absent(_) => None,
        }
    }

    /// Replaces the content of the block with `data`. A block that is not
    /// in memory comes back into memory with the new content; it keeps its
    /// position, its creation time and its earlier version.
    ///
    /// Fails with `TooLarge`, changing nothing, where `data` is longer than
    /// a block.
    pub fn write(&mut self, data: &[u8]) -> (result: Result<(), Error>)
        requires
            old(self).wf(),
        ensures
            final(self).wf(),
            final(self).index() == old(self).index(),
            final(self).created_at() == old(self).created_at(),
            final(self).previous() == old(self).previous(),
            data@.len() <= BLOCK_SIZE ==>
                result is Ok && final(self).present() && final(self).content() == data@
                && final(self).dirty(),
            data@.len() > BLOCK_SIZE ==>
                result == Err::<(), Error>(Error::TooLarge) && *final(self) == *old(self),
    {
        if data.len() > BLOCK_SIZE {
            return Err(Error::TooLarge);
        }
        match self {
            Slot::Present(block) => block.write(data),
            Slot::Absent(stub) => {
                let mut block = Block::with_history(stub.index, stub.created, stub.earlier.take());
                let written = block.write(data);
                *self = Slot::Present(block);
                written
            },
        }
    }

    /// Marks the block clean, once the caller has persisted it. Does
    /// nothing to a block that is not in memory.
    pub fn do_flush(&mut self)
        requires
            old(self).wf(),
        ensures
            final(self).wf(),
            !final(self).dirty(),
            flushed_slot(*old(self), *final(self)),
            final(self).created_at() == old(self).created_at(),
            final(self).previous() == old(self).previous(),
            final(self).index() == old(self).index(),
            final(self).hash() == old(self).hash(),
            final(self).content() == old(self).content(),
            final(self).present() == old(self).present(),
    {
        match self {
            Slot::Present(block) => {
                block.do_flush();
            },
            Slot::Absent(_) => {},
        }
    }

    /// Drops the content of the block from memory, where the block is in
    /// memory and has no unsaved changes, and tells whether it did. What
    /// the slot stands for stays the same: position, content hash and
    /// length, creation time and the link to the earlier version.
    pub fn evict(&mut self) -> (evicted: bool)
        requires
            old(self).wf(),
        ensures
            final(self).wf(),
            final(self).index() == old(self).index(),
            final(self).hash() == old(self).hash(),
            final(self).content() == old(self).content(),
            final(self).created_at() == old(self).created_at(),
            final(self).previous() == old(self).previous(),
            evicted == (old(self).present() && !old(self).dirty()),
            evicted ==> !final(self).present(),
            !evicted ==> *final(self) == *old(self),
    {
        match self {
            Slot::Present(block) => {
                if block.is_dirty() {
                    return false;
                }
                let ghost content = block@.content;
                let earlier = block.take_previous();
                let stub = Stub {
                    index: block.get_index(),
                    hash: block.get_hash().clone(),
                    length: block.get_valid_length(),
                    created: block.get_created_at(),
                    earlier,
                    content: Ghost(content),
                };
                *self = Slot::Absent(stub);
                true
            },
            Slot::Absent(_) => false,
        }
    }

    /// Takes `payload` for the content of a block that is not in memory.
    /// The payload is accepted only where it has the recorded length and
    /// hashes to the recorded hash; the block is then in memory, clean,
    /// with `payload` for its content, at its position, with its creation
    /// time and its earlier version. A block that is in memory is left
    /// alone.
    ///
    /// Fails with `ConnectorFailure`, changing nothing, where the payload
    /// does not match.
    pub fn load(&mut self, payload: &[u8]) -> (result: Result<(), Error>)
        requires
            old(self).wf(),
        ensures
            final(self).wf(),
            final(self).index() == old(self).index(),
            final(self).hash() == old(self).hash(),
            final(self).content().len() == old(self).content().len(),
            final(self).created_at() == old(self).created_at(),
            final(self).previous() == old(self).previous(),
            old(self).present() ==> result is Ok && *final(self) == *old(self),
            !old(self).present() && payload_matches(old(self), payload@) ==>
                result is Ok && final(self).present() && final(self).content() == payload@
                && !final(self).dirty(),
            !old(self).present() && !payload_matches(old(self), payload@) ==> is_wrong_payload(
                result,
            ) && *final(self) == *old(self),
    {
        match self {
            Slot::Present(_) => Ok(()),
            Slot::Absent(stub) => {
                if payload.len() != stub.length || calculate_hash(payload) != stub.hash {
                    return Err(
                        Error::ConnectorFailure(
                            String::from_str("payload does not match the block"),
                        ),
                    );
                }
                let mut block = Block::with_history(stub.index, stub.created, stub.earlier.take());
                let _ = block.write(payload);
                block.do_flush();
                *self = Slot::Present(block);
                Ok(())
            },
        }
    }
}

/// `after` is `before` marked clean.
pub open spec fn flushed(before: &Block, after: &Block) -> bool {
    &&& after@ == before@.flush()
    &&& after.index_spec() == before.index_spec()
    &&& after.created_at() == before.created_at()
    &&& after.previous() == before.previous()
}

/// `after` is the slot `before` marked clean; a slot that is not in memory
/// is as it was.
pub open spec fn flushed_slot(before: Slot, after: Slot) -> bool {
    match before {
        Slot::Present(held) => after matches Slot::Present(kept) && flushed(&held, &kept),
        Slot::Absent(_) => after == before,
    }
}

/// Whether `payload` has the length and the content hash that `slot`
/// records.
pub open spec fn payload_matches(slot: &Slot, payload: Seq<u8>) -> bool {
    payload.len() == slot.content().len() && content_hash(payload) == slot.hash()
}

/// Whether `result` is the error for a payload that does not match its
/// block.
pub open spec fn is_wrong_payload(result: Result<(), Error>) -> bool {
    result matches Err(Error::ConnectorFailure(text)) && text@ == wrong_payload_text()
}

} // verus!
