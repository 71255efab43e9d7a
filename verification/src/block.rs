//! Blocks: fixed-capacity byte buffers whose valid content is identified by
//! its hash. A block tracks how much of its buffer is valid, whether it has
//! unsaved changes, and whether it has been tombstoned.

use crate::abstracts::{BlockIterator, BlockReadWrite, BlockTrait};
use crate::clock::current_timestamp_nanos;
use crate::error::Error;
use crate::hash::{calculate_hash, content_hash};
use crate::BLOCK_SIZE;
use vstd::prelude::*;
use vstd::slice::slice_subrange;

verus! {

/// What a block holds, apart from its timestamps and its position in a pool.
pub struct BlockView {
    /// The valid bytes, `data[0..valid_length]`.
    pub content: Seq<u8>,
    /// Changed since it was last persisted.
    pub dirty: bool,
    /// Written or persisted at least once since it was last released.
    pub used: bool,
    /// Tombstoned.
    pub deleted: bool,
    /// The stored content hash.
    pub hash: Seq<char>,
}

/// `base` with `data` laid over it from `offset` on. Where `offset` lies past
/// the end of `base`, the gap is filled with zero bytes; the result is never
/// shorter than `base`.
pub open spec fn overlay(base: Seq<u8>, offset: int, data: Seq<u8>) -> Seq<u8> {
    let end = offset + data.len();
    let len = if base.len() > end {
        base.len() as int
    } else {
        end
    };
    Seq::new(
        len as nat,
        |i: int|
            if offset <= i < end {
                data[i - offset]
            } else if i < base.len() {
                base[i]
            } else {
                0u8
            },
    )
}

impl BlockView {
    /// A block that was never written.
    pub open spec fn empty() -> BlockView {
        BlockView {
            content: Seq::empty(),
            dirty: false,
            used: false,
            deleted: false,
            hash: content_hash(Seq::empty()),
        }
    }

    /// The content fits a block and the stored hash is the hash of the
    /// content.
    pub open spec fn well_formed(self) -> bool {
        &&& self.content.len() <= BLOCK_SIZE
        &&& self.hash == content_hash(self.content)
    }

    /// The same block with new content: rehashed, dirty and in use.
    pub open spec fn with_content(self, content: Seq<u8>) -> BlockView {
        BlockView {
            content,
            dirty: true,
            used: true,
            deleted: self.deleted,
            hash: content_hash(content),
        }
    }

    /// After `write(data)`: the content is exactly `data`.
    pub open spec fn write(self, data: Seq<u8>) -> BlockView {
        self.with_content(data)
    }

    /// After `write_at(offset, data)`: `data` overlays the content, which
    /// grows to `offset + data.len()` where that is larger and never shrinks.
    pub open spec fn write_at(self, offset: int, data: Seq<u8>) -> BlockView {
        self.with_content(overlay(self.content, offset, data))
    }

    /// After `append(data)`: `data` follows the old content.
    pub open spec fn append(self, data: Seq<u8>) -> BlockView {
        self.with_content(self.content + data)
    }

    /// After `truncate(size)`: unchanged where `size` does not cut anything
    /// off, else the first `size` bytes, rehashed and dirty.
    pub open spec fn truncate(self, size: int) -> BlockView {
        if size >= self.content.len() {
            self
        } else {
            BlockView {
                content: self.content.take(size),
                dirty: true,
                used: self.used,
                deleted: self.deleted,
                hash: content_hash(self.content.take(size)),
            }
        }
    }

    /// After `do_touch()`: rehashed and dirty.
    pub open spec fn touch(self) -> BlockView {
        BlockView {
            content: self.content,
            dirty: true,
            used: self.used,
            deleted: self.deleted,
            hash: content_hash(self.content),
        }
    }

    /// After `do_flush()`: clean and in use; content and hash are untouched.
    pub open spec fn flush(self) -> BlockView {
        BlockView {
            content: self.content,
            dirty: false,
            used: true,
            deleted: self.deleted,
            hash: self.hash,
        }
    }

    /// After `release_block()`: tombstoned, every valid byte zeroed, no
    /// longer in use, rehashed and dirty.
    pub open spec fn release(self) -> BlockView {
        let zeroed = Seq::new(self.content.len(), |i: int| 0u8);
        BlockView {
            content: zeroed,
            dirty: true,
            used: false,
            deleted: true,
            hash: content_hash(zeroed),
        }
    }
}

/// Writing `data` that fits a block and then reading the block gives back
/// exactly `data`, whatever the block held before.
pub proof fn lemma_write_then_read(before: BlockView, data: Seq<u8>)
    requires
        data.len() <= BLOCK_SIZE,
    ensures
        before.write(data).content == data,
        before.write(data).well_formed(),
{
}

/// After any mutator the stored hash is the hash of the valid content,
/// computed afresh over `data[0..valid_length]`.
pub proof fn lemma_mutators_keep_hash(before: BlockView, offset: int, size: int, data: Seq<u8>)
    requires
        before.well_formed(),
    ensures
        before.write(data).hash == content_hash(before.write(data).content),
        before.write_at(offset, data).hash == content_hash(before.write_at(offset, data).content),
        before.append(data).hash == content_hash(before.append(data).content),
        before.truncate(size).hash == content_hash(before.truncate(size).content),
        before.touch().hash == content_hash(before.touch().content),
        before.flush().hash == content_hash(before.flush().content),
        before.release().hash == content_hash(before.release().content),
{
}

/// An offset write never shortens the content: the new length is the larger
/// of the old length and `offset + data.len()`. What lies outside the
/// written range is kept, and a gap past the old end reads as zero.
pub proof fn lemma_write_at_never_shrinks(before: BlockView, offset: int, data: Seq<u8>)
    requires
        0 <= offset,
    ensures
        before.write_at(offset, data).content.len() == if before.content.len() > offset
            + data.len() {
            before.content.len() as int
        } else {
            offset + data.len()
        },
        forall|i: int|
            offset <= i < offset + data.len() ==> before.write_at(offset, data).content[i]
                == data[i - offset],
        forall|i: int|
            0 <= i < before.content.len() && !(offset <= i < offset + data.len())
                ==> before.write_at(offset, data).content[i] == before.content[i],
        forall|i: int|
            before.content.len() <= i < offset ==> before.write_at(offset, data).content[i]
                == 0u8,
{
}

/// A fixed-capacity block of `BLOCK_SIZE` bytes.
pub struct Block {
    index: usize,
    data: Vec<u8>,
    valid_length: usize,
    is_dirty: bool,
    is_used: bool,
    is_deleted: bool,
    timestamp: u128,
    last_modify_time: u128,
    prev: Option<Box<Block>>,
    hash: String,
}

impl BlockTrait for Block {

}

impl View for Block {
    type V = BlockView;

    closed spec fn view(&self) -> BlockView {
        BlockView {
            content: self.data@.take(self.valid_length as int),
            dirty: self.is_dirty,
            used: self.is_used,
            deleted: self.is_deleted,
            hash: self.hash@,
        }
    }
}

/// Copies `src` into `buf` from `offset` on.
fn copy_into(buf: &mut Vec<u8>, offset: usize, src: &[u8])
    requires
        offset + src@.len() <= old(buf)@.len(),
    ensures
        final(buf)@.len() == old(buf)@.len(),
        forall|i: int|
            0 <= i < old(buf)@.len() ==> final(buf)@[i] == if offset <= i < offset + src@.len() {
                src@[i - offset]
            } else {
                old(buf)@[i]
            },
{
    let capacity = buf.len();
    let mut i: usize = 0;
    while i < src.len()
        invariant
            i <= src@.len(),
            offset + src@.len() <= capacity,
            buf@.len() == capacity,
            buf@.len() == old(buf)@.len(),
            forall|k: int|
                0 <= k < buf@.len() ==> buf@[k] == if offset <= k < offset + i {
                    src@[k - offset]
                } else {
                    old(buf)@[k]
                },
        decreases src@.len() - i,
    {
        buf[offset + i] = src[i];
        i += 1;
    }
}

/// Zeroes `buf[from..to]`.
fn zero_range(buf: &mut Vec<u8>, from: usize, to: usize)
    requires
        from <= to <= old(buf)@.len(),
    ensures
        final(buf)@.len() == old(buf)@.len(),
        forall|i: int|
            0 <= i < old(buf)@.len() ==> final(buf)@[i] == if from <= i < to {
                0u8
            } else {
                old(buf)@[i]
            },
{
    let mut i: usize = from;
    while i < to
        invariant
            from <= i <= to,
            to <= buf@.len(),
            buf@.len() == old(buf)@.len(),
            forall|k: int|
                0 <= k < buf@.len() ==> buf@[k] == if from <= k < i {
                    0u8
                } else {
                    old(buf)@[k]
                },
        decreases to - i,
    {
        buf[i] = 0;
        i += 1;
    }
}

/// Copies `src[from..to]` into a vector of its own.
fn copy_range(src: &Vec<u8>, from: usize, to: usize) -> (out: Vec<u8>)
    requires
        from <= to <= src@.len(),
    ensures
        out@ == src@.subrange(from as int, to as int),
{
    let mut out: Vec<u8> = Vec::new();
    let mut i: usize = from;
    while i < to
        invariant
            from <= i <= to,
            to <= src@.len(),
            out@ == src@.subrange(from as int, i as int),
        decreases to - i,
    {
        out.push(src[i]);
        proof {
            assert(out@ =~= src@.subrange(from as int, i + 1));
        }
        i += 1;
    }
    out
}

impl Block {
    /// The buffer has its full capacity, the valid length lies within it and
    /// every byte past the valid length is zero. An earlier version, where
    /// one is linked, is itself well formed.
    pub closed spec fn layout_wf(&self) -> bool
        decreases self, 0nat,
    {
        &&& self.data@.len() == BLOCK_SIZE
        &&& self.valid_length <= BLOCK_SIZE
        &&& forall|i: int| self.valid_length <= i < BLOCK_SIZE ==> self.data@[i] == 0u8
        &&& match self.prev {
            Some(earlier) => earlier.wf(),
            None => true,
        }
    }

    /// The invariant of every block: a sound layout, and a stored hash that
    /// is the hash of the valid content.
    pub open spec fn wf(&self) -> bool
        decreases self, 1nat,
    {
        &&& self.layout_wf()
        &&& self@.well_formed()
    }

    /// The block's position in its pool.
    pub closed spec fn index_spec(&self) -> usize {
        self.index
    }

    /// When the block was created, in nanoseconds since the Unix epoch.
    pub closed spec fn created_at(&self) -> u128 {
        self.timestamp
    }

    /// When the block was last changed, in nanoseconds since the Unix
    /// epoch.
    pub closed spec fn modified_at(&self) -> u128 {
        self.last_modify_time
    }

    /// The earlier version this block is linked to, if any.
    pub closed spec fn previous(&self) -> Option<Block> {
        match self.prev {
            Some(earlier) => Some(*earlier),
            None => None,
        }
    }

    /// A well-formed layout keeps the valid content within the capacity.
    pub proof fn lemma_content_fits(&self)
        requires
            self.layout_wf(),
        ensures
            self@.content.len() <= BLOCK_SIZE,
    {
    }

    /// An empty block at pool position 0, stamped with the current time.
    pub fn new() -> (block: Block)
        ensures
            block.wf(),
            block@ == BlockView::empty(),
            block.index_spec() == 0,
            block.previous() is None,
            block.modified_at() == block.created_at(),
    {
        Block::with_index(0)
    }

    /// An empty block at pool position `index`, stamped with the current
    /// time.
    pub fn with_index(index: usize) -> (block: Block)
        ensures
            block.wf(),
            block@ == BlockView::empty(),
            block.index_spec() == index,
            block.previous() is None,
            block.modified_at() == block.created_at(),
    {
        Block::with_history(index, current_timestamp_nanos(), None)
    }

    /// An empty block at pool position `index` that was created at `now`
    /// and is linked to `earlier` as its previous version.
    pub fn with_history(index: usize, now: u128, earlier: Option<Block>) -> (block: Block)
        requires
            earlier matches Some(linked) ==> linked.wf(),
        ensures
            block.wf(),
            block@ == BlockView::empty(),
            block.index_spec() == index,
            block.previous() == earlier,
            block.created_at() == now,
            block.modified_at() == now,
    {
        let prev = match earlier {
            Some(linked) => Some(Box::new(linked)),
            None => None,
        };
        let data: Vec<u8> = vec![0u8; BLOCK_SIZE];
        let empty: Vec<u8> = Vec::new();
        let hash = calculate_hash(empty.as_slice());
        let block = Block {
            index,
            data,
            valid_length: 0,
            is_dirty: false,
            is_used: false,
            is_deleted: false,
            timestamp: now,
            last_modify_time: now,
            prev,
            hash,
        };
        proof {
            assert(block@.content =~= Seq::<u8>::empty());
            assert(empty@ =~= Seq::<u8>::empty());
        }
        block
    }

    /// The block's position in its pool.
    pub fn get_index(&self) -> (index: usize)
        ensures
            index == self.index_spec(),
    {
        self.index
    }

    /// The capacity of the block in bytes.
    pub fn capacity(&self) -> (capacity: usize)
        ensures
            capacity == BLOCK_SIZE,
    {
        BLOCK_SIZE
    }

    /// How many bytes of the buffer are valid.
    pub fn get_valid_length(&self) -> (len: usize)
        requires
            self.layout_wf(),
        ensures
            len == self@.content.len(),
    {
        self.valid_length
    }

    /// Whether the block has changes that were not persisted yet.
    pub fn is_dirty(&self) -> (dirty: bool)
        ensures
            dirty == self@.dirty,
    {
        self.is_dirty
    }

    /// Whether the block is tombstoned.
    pub fn is_deleted(&self) -> (deleted: bool)
        ensures
            deleted == self@.deleted,
    {
        self.is_deleted
    }

    /// Whether the block was written or persisted since its last release.
    pub fn is_used(&self) -> (used: bool)
        ensures
            used == self@.used,
    {
        self.is_used
    }

    /// The stored content hash.
    pub fn get_hash(&self) -> (hash: &String)
        ensures
            hash@ == self@.hash,
    {
        &self.hash
    }

    /// When the block was created, in nanoseconds since the Unix epoch.
    pub fn get_created_at(&self) -> (at: u128)
        ensures
            at == self.created_at(),
    {
        self.timestamp
    }

    /// When the block was last changed, in nanoseconds since the Unix epoch.
    pub fn get_last_modified_at(&self) -> (at: u128)
        ensures
            at == self.modified_at(),
    {
        self.last_modify_time
    }

    /// Recomputes the hash over the valid content, marks the block dirty and
    /// sets the modification time to `now`. Every mutator ends with this.
    pub fn touch_stamped(&mut self, now: u128)
        requires
            old(self).layout_wf(),
        ensures
            final(self).wf(),
            final(self)@ == old(self)@.touch(),
            final(self).modified_at() == now,
            final(self).index_spec() == old(self).index_spec(),
            final(self).created_at() == old(self).created_at(),
            final(self).previous() == old(self).previous(),
    {
        self.last_modify_time = now;
        self.is_dirty = true;
        self.hash = calculate_hash(slice_subrange(self.data.as_slice(), 0, self.valid_length));
    }

    /// Recomputes the hash over the valid content, marks the block dirty and
    /// stamps the modification time with the reading of the clock, as
    /// `touch_stamped` does with the time it is given.
    pub fn do_touch(&mut self)
        requires
            old(self).layout_wf(),
        ensures
            final(self).wf(),
            final(self)@ == old(self)@.touch(),
            final(self).index_spec() == old(self).index_spec(),
            final(self).created_at() == old(self).created_at(),
            final(self).previous() == old(self).previous(),
    {
        self.touch_stamped(current_timestamp_nanos());
    }

    /// Clears the dirty flag once the caller has persisted the block, and
    /// sets the modification time to `now`. The hash is not recomputed.
    pub fn flush_stamped(&mut self, now: u128)
        requires
            old(self).wf(),
        ensures
            final(self).wf(),
            final(self)@ == old(self)@.flush(),
            final(self).modified_at() == now,
            final(self).index_spec() == old(self).index_spec(),
            final(self).created_at() == old(self).created_at(),
            final(self).previous() == old(self).previous(),
    {
        self.is_dirty = false;
        self.is_used = true;
        self.last_modify_time = now;
    }

    /// Clears the dirty flag once the caller has persisted the block, and
    /// stamps the modification time with the reading of the clock. The hash
    /// is not recomputed.
    pub fn do_flush(&mut self)
        requires
            old(self).wf(),
        ensures
            final(self).wf(),
            final(self)@ == old(self)@.flush(),
            final(self).index_spec() == old(self).index_spec(),
            final(self).created_at() == old(self).created_at(),
            final(self).previous() == old(self).previous(),
    {
        self.flush_stamped(current_timestamp_nanos());
    }

    /// Tombstones the block: the buffer is zeroed, the block is marked
    /// deleted and the modification time is set to `now`. Its index stays
    /// allocated until the allocator reclaims it.
    pub fn release_stamped(&mut self, now: u128)
        requires
            old(self).wf(),
        ensures
            final(self).wf(),
            final(self)@ == old(self)@.release(),
            final(self).modified_at() == now,
            final(self).index_spec() == old(self).index_spec(),
            final(self).created_at() == old(self).created_at(),
            final(self).previous() == old(self).previous(),
    {
        zero_range(&mut self.data, 0, self.valid_length);
        self.is_deleted = true;
        self.is_used = false;
        self.touch_stamped(now);
        proof {
            assert(self@.content =~= old(self)@.release().content);
        }
    }

    /// Tombstones the block, as `release_stamped` does, at the reading of
    /// the clock.
    pub fn release_block(&mut self)
        requires
            old(self).wf(),
        ensures
            final(self).wf(),
            final(self)@ == old(self)@.release(),
            final(self).index_spec() == old(self).index_spec(),
            final(self).created_at() == old(self).created_at(),
            final(self).previous() == old(self).previous(),
    {
        self.release_stamped(current_timestamp_nanos());
    }

    /// Shrinks the valid content to `size` bytes, zeroes what is cut off and
    /// sets the modification time to `now`. Does nothing, to the
    /// modification time neither, where `size` is not below the valid
    /// length.
    pub fn truncate_stamped(&mut self, size: usize, now: u128)
        requires
            old(self).wf(),
        ensures
            final(self).wf(),
            final(self)@ == old(self)@.truncate(size as int),
            final(self).index_spec() == old(self).index_spec(),
            final(self).created_at() == old(self).created_at(),
            final(self).previous() == old(self).previous(),
            final(self).modified_at() == if size < old(self)@.content.len() {
                now
            } else {
                old(self).modified_at()
            },
    {
        if size < self.valid_length {
            zero_range(&mut self.data, size, self.valid_length);
            self.valid_length = size;
            self.touch_stamped(now);
            proof {
                assert(self@.content =~= old(self)@.content.take(size as int));
            }
        }
    }

    /// Shrinks the valid content to `size` bytes, as `truncate_stamped`
    /// does, at the reading of the clock.
    pub fn truncate(&mut self, size: usize)
        requires
            old(self).wf(),
        ensures
            final(self).wf(),
            final(self)@ == old(self)@.truncate(size as int),
            final(self).index_spec() == old(self).index_spec(),
            final(self).created_at() == old(self).created_at(),
            final(self).previous() == old(self).previous(),
            size >= old(self)@.content.len() ==>
                final(self).modified_at() == old(self).modified_at(),
    {
        self.truncate_stamped(size, current_timestamp_nanos());
    }

    /// Replaces the content with `data`, from offset 0, and sets the
    /// modification time to `now`.
    ///
    /// Fails with `TooLarge`, changing nothing, where `data` is longer than
    /// the capacity.
    pub fn write_stamped(&mut self, data: &[u8], now: u128) -> (result: Result<(), Error>)
        requires
            old(self).wf(),
        ensures
            final(self).wf(),
            final(self).index_spec() == old(self).index_spec(),
            final(self).created_at() == old(self).created_at(),
            final(self).previous() == old(self).previous(),
            data@.len() <= BLOCK_SIZE ==> result is Ok && final(self)@ == old(self)@.write(data@)
                && final(self).modified_at() == now,
            data@.len() > BLOCK_SIZE ==> result == Err::<(), Error>(Error::TooLarge) && final(self)@
                == old(self)@ && final(self).modified_at() == old(self).modified_at(),
    {
        let len = data.len();
        if len > BLOCK_SIZE {
            return Err(Error::TooLarge);
        }
        copy_into(&mut self.data, 0, data);
        if len < self.valid_length {
            zero_range(&mut self.data, len, self.valid_length);
        }
        self.valid_length = len;
        self.is_used = true;
        self.touch_stamped(now);
        proof {
            assert(self@.content =~= data@);
        }
        Ok(())
    }

    /// Replaces the content with `data`, from offset 0, as `write_stamped`
    /// does, at the reading of the clock.
    ///
    /// Fails with `TooLarge`, changing nothing, where `data` is longer than
    /// the capacity.
    pub fn write(&mut self, data: &[u8]) -> (result: Result<(), Error>)
        requires
            old(self).wf(),
        ensures
            final(self).wf(),
            final(self).index_spec() == old(self).index_spec(),
            final(self).created_at() == old(self).created_at(),
            final(self).previous() == old(self).previous(),
            data@.len() <= BLOCK_SIZE ==> result is Ok && final(self)@ == old(self)@.write(data@),
            data@.len() > BLOCK_SIZE ==> result == Err::<(), Error>(Error::TooLarge) && final(self)@
                == old(self)@ && final(self).modified_at() == old(self).modified_at(),
    {
        self.write_stamped(data, current_timestamp_nanos())
    }

    /// Writes `data` at `offset` and sets the modification time to `now`.
    /// The valid length grows to `offset + data.len()` where that is
    /// larger, and never shrinks; bytes between the old valid length and
    /// `offset` read as zero.
    ///
    /// Fails with `OutOfBounds`, changing nothing, where
    /// `offset + data.len()` exceeds the capacity.
    pub fn write_at_stamped(&mut self, offset: usize, data: &[u8], now: u128) -> (result: Result<
        (),
        Error,
    >)
        requires
            old(self).wf(),
        ensures
            final(self).wf(),
            final(self).index_spec() == old(self).index_spec(),
            final(self).created_at() == old(self).created_at(),
            final(self).previous() == old(self).previous(),
            offset + data@.len() <= BLOCK_SIZE ==>
                result is Ok && final(self)@ == old(self)@.write_at(offset as int, data@)
                && final(self).modified_at() == now,
            offset + data@.len() > BLOCK_SIZE ==> result == Err::<(), Error>(Error::OutOfBounds)
                && final(self)@ == old(self)@
                    && final(self).modified_at() == old(self).modified_at(),
    {
        let len = data.len();
        if offset > BLOCK_SIZE || len > BLOCK_SIZE - offset {
            return Err(Error::OutOfBounds);
        }
        copy_into(&mut self.data, offset, data);
        if offset + len > self.valid_length {
            self.valid_length = offset + len;
        }
        self.is_used = true;
        self.touch_stamped(now);
        proof {
            assert(self@.content =~= overlay(old(self)@.content, offset as int, data@));
        }
        Ok(())
    }

    /// Writes `data` at `offset`, as `write_at_stamped` does, at the
    /// reading of the clock.
    ///
    /// Fails with `OutOfBounds`, changing nothing, where
    /// `offset + data.len()` exceeds the capacity.
    pub fn write_at(&mut self, offset: usize, data: &[u8]) -> (result: Result<(), Error>)
        requires
            old(self).wf(),
        ensures
            final(self).wf(),
            final(self).index_spec() == old(self).index_spec(),
            final(self).created_at() == old(self).created_at(),
            final(self).previous() == old(self).previous(),
            offset + data@.len() <= BLOCK_SIZE ==>
                result is Ok && final(self)@ == old(self)@.write_at(offset as int, data@),
            offset + data@.len() > BLOCK_SIZE ==> result == Err::<(), Error>(Error::OutOfBounds)
                && final(self)@ == old(self)@
                    && final(self).modified_at() == old(self).modified_at(),
    {
        self.write_at_stamped(offset, data, current_timestamp_nanos())
    }

    /// Writes `data` directly after the valid content and sets the
    /// modification time to `now`.
    ///
    /// Fails with `TooLarge`, changing nothing, where the valid length plus
    /// `data.len()` exceeds the capacity: the caller must allocate a new
    /// block and chain it.
    pub fn append_stamped(&mut self, data: &[u8], now: u128) -> (result: Result<(), Error>)
        requires
            old(self).wf(),
        ensures
            final(self).wf(),
            final(self).index_spec() == old(self).index_spec(),
            final(self).created_at() == old(self).created_at(),
            final(self).previous() == old(self).previous(),
            old(self)@.content.len() + data@.len() <= BLOCK_SIZE ==> result is Ok && final(self)@
                == old(self)@.append(data@) && final(self).modified_at() == now,
            old(self)@.content.len() + data@.len() > BLOCK_SIZE ==> result == Err::<(), Error>(
                Error::TooLarge,
            ) && final(self)@ == old(self)@ && final(self).modified_at() == old(self).modified_at(),
    {
        if data.len() > BLOCK_SIZE - self.valid_length {
            return Err(Error::TooLarge);
        }
        let offset = self.valid_length;
        let written = self.write_at_stamped(offset, data, now);
        proof {
            assert(overlay(old(self)@.content, offset as int, data@) =~= old(self)@.content
                + data@);
        }
        written
    }

    /// Writes `data` directly after the valid content, as `append_stamped`
    /// does, at the reading of the clock.
    ///
    /// Fails with `TooLarge`, changing nothing, where the valid length plus
    /// `data.len()` exceeds the capacity: the caller must allocate a new
    /// block and chain it.
    pub fn append(&mut self, data: &[u8]) -> (result: Result<(), Error>)
        requires
            old(self).wf(),
        ensures
            final(self).wf(),
            final(self).index_spec() == old(self).index_spec(),
            final(self).created_at() == old(self).created_at(),
            final(self).previous() == old(self).previous(),
            old(self)@.content.len() + data@.len() <= BLOCK_SIZE ==> result is Ok && final(self)@
                == old(self)@.append(data@),
            old(self)@.content.len() + data@.len() > BLOCK_SIZE ==> result == Err::<(), Error>(
                Error::TooLarge,
            ) && final(self)@ == old(self)@ && final(self).modified_at() == old(self).modified_at(),
    {
        self.append_stamped(data, current_timestamp_nanos())
    }

    /// The whole valid content.
    pub fn read(&self) -> (content: Vec<u8>)
        requires
            self.wf(),
        ensures
            content@ == self@.content,
    {
        copy_range(&self.data, 0, self.valid_length)
    }

    /// `size` bytes of the valid content, from `offset` on.
    ///
    /// Fails with `OutOfRange` where `offset + size` exceeds the valid
    /// length: nothing past the valid content is ever read.
    pub fn read_at(&self, offset: usize, size: usize) -> (result: Result<Vec<u8>, Error>)
        requires
            self.wf(),
        ensures
            offset + size <= self@.content.len() ==> result is Ok && result->Ok_0@
                == self@.content.subrange(offset as int, offset + size),
            offset + size > self@.content.len() ==> result == Err::<Vec<u8>, Error>(
                Error::OutOfRange,
            ),
    {
        if offset > self.valid_length || size > self.valid_length - offset {
            return Err(Error::OutOfRange);
        }
        let bytes = copy_range(&self.data, offset, offset + size);
        proof {
            assert(bytes@ =~= self@.content.subrange(offset as int, offset + size));
        }
        Ok(bytes)
    }

    /// Takes the link to the previous version out of the block and gives
    /// the version that was linked, if any. Nothing else changes.
    pub fn take_previous(&mut self) -> (earlier: Option<Block>)
        requires
            old(self).wf(),
        ensures
            final(self).wf(),
            final(self)@ == old(self)@,
            final(self).index_spec() == old(self).index_spec(),
            final(self).created_at() == old(self).created_at(),
            final(self).modified_at() == old(self).modified_at(),
            earlier == old(self).previous(),
            final(self).previous() is None,
            earlier matches Some(linked) ==> linked.wf(),
    {
        match self.prev.take() {
            Some(linked) => Some(*linked),
            None => None,
        }
    }

    /// Links `earlier` as the previous version of this block. The chain of
    /// versions only grows: a link that is already set is never replaced.
    ///
    /// Fails with `AlreadyExists`, changing nothing, where a previous
    /// version is already linked.
    pub fn link_previous(&mut self, earlier: Block) -> (result: Result<(), Error>)
        requires
            old(self).wf(),
            earlier.wf(),
        ensures
            final(self).wf(),
            final(self)@ == old(self)@,
            final(self).index_spec() == old(self).index_spec(),
            final(self).created_at() == old(self).created_at(),
            final(self).modified_at() == old(self).modified_at(),
            old(self).previous() is None ==> result is Ok && final(self).previous() == Some(
                earlier,
            ),
            old(self).previous() is Some ==> result == Err::<(), Error>(Error::AlreadyExists)
                && final(self).previous() == old(self).previous(),
    {
        if self.prev.is_some() {
            return Err(Error::AlreadyExists);
        }
        self.prev = Some(Box::new(earlier));
        Ok(())
    }
}

impl BlockReadWrite for Block {
    open spec fn rw_wf(&self) -> bool {
        self.wf()
    }

    /// The valid content from `index` to its end.
    ///
    /// Fails with `OutOfRange` where `index` lies past the valid length.
    fn read_block(&self, index: usize) -> (result: Result<Vec<u8>, Error>)
        ensures
            index <= self@.content.len() ==> result is Ok && result->Ok_0@
                == self@.content.subrange(index as int, self@.content.len() as int),
            index > self@.content.len() ==> result == Err::<Vec<u8>, Error>(Error::OutOfRange),
    {
        if index > self.valid_length {
            return Err(Error::OutOfRange);
        }
        self.read_at(index, self.valid_length - index)
    }

    /// Writes `data` at offset `index`. At offset 0 this replaces the
    /// content, as `write` does: the block then holds exactly `data`. At
    /// any other offset it is an offset write, as `write_at` does.
    ///
    /// Fails, changing nothing, with `TooLarge` where `index` is 0 and
    /// `data` is longer than the capacity, and with `OutOfBounds` where
    /// `index` is not 0 and `index + data.len()` exceeds the capacity.
    fn write_block(&mut self, index: usize, data: &[u8]) -> (result: Result<(), Error>)
        ensures
            final(self).index_spec() == old(self).index_spec(),
            final(self).created_at() == old(self).created_at(),
            final(self).previous() == old(self).previous(),
            match write_block_result(index, data@) {
                Ok(_) => result is Ok && final(self)@ == if index == 0 {
                    old(self)@.write(data@)
                } else {
                    old(self)@.write_at(index as int, data@)
                },
                Err(e) => result == Err::<(), Error>(e) && final(self)@ == old(self)@
                    && final(self).modified_at() == old(self).modified_at(),
            },
    {
        if index == 0 {
            self.write(data)
        } else {
            self.write_at(index, data)
        }
    }
}

/// What `write_block` returns: at offset 0 `TooLarge` for data longer than
/// a block, at any other offset `OutOfBounds` for data that reaches past
/// the end of the block.
pub open spec fn write_block_result(index: usize, data: Seq<u8>) -> Result<(), Error> {
    if index == 0 {
        if data.len() > BLOCK_SIZE {
            Err(Error::TooLarge)
        } else {
            Ok(())
        }
    } else if index + data.len() > BLOCK_SIZE {
        Err(Error::OutOfBounds)
    } else {
        Ok(())
    }
}

impl BlockIterator<Block> for Block {
    /// The previous version of this block, if one is linked.
    fn next(&self) -> (earlier: Option<&Block>)
        ensures
            match earlier {
                Some(block) => self.previous() == Some(*block),
                None => self.previous() is None,
            },
    {
        match &self.prev {
            Some(earlier) => Some(&**earlier),
            None => None,
        }
    }
}

} // verus!
