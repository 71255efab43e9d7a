use blockfs::abstracts::BlockIterator;
use blockfs::block::Block;
use blockfs::calculate_hash;
use blockfs::error::Error;
use blockfs::inode::Inode;
use blockfs::slot::Slot;
use blockfs::superblock::Superblock;

fn wrong_payload() -> Error {
    Error::ConnectorFailure("payload does not match the block".to_string())
}

fn clean_slot(index: usize, content: &[u8]) -> Slot {
    let mut block = Block::with_index(index);
    block.write(content).unwrap();
    block.do_flush();
    Slot::Present(block)
}

#[test]
fn present_slot_shows_its_block() {
    let slot = clean_slot(3, b"content");
    assert!(slot.is_present());
    assert!(!slot.is_dirty());
    assert_eq!(slot.get_index(), 3);
    assert_eq!(slot.get_length(), 7);
    assert_eq!(*slot.get_hash(), calculate_hash(b"content"));
    assert_eq!(slot.read(), Some(b"content".to_vec()));
    assert_eq!(slot.get_block().unwrap().read(), b"content");
}

#[test]
fn evict_keeps_hash_length_and_position() {
    let mut slot = clean_slot(3, b"content");
    assert!(slot.evict());
    assert!(!slot.is_present());
    assert!(!slot.is_dirty());
    assert_eq!(slot.get_index(), 3);
    assert_eq!(slot.get_length(), 7);
    assert_eq!(*slot.get_hash(), calculate_hash(b"content"));
    assert_eq!(slot.read(), None);
    assert!(slot.get_block().is_none());
    assert!(!slot.evict());
}

#[test]
fn evict_leaves_a_dirty_block_in_memory() {
    let mut block = Block::new();
    block.write(b"unsaved").unwrap();
    let mut slot = Slot::Present(block);
    assert!(!slot.evict());
    assert!(slot.is_present());
    assert_eq!(slot.read(), Some(b"unsaved".to_vec()));
}

#[test]
fn load_brings_the_matching_payload_back() {
    let mut slot = clean_slot(5, b"content");
    slot.evict();
    assert_eq!(slot.load(b"content"), Ok(()));
    assert!(slot.is_present());
    assert!(!slot.is_dirty());
    assert_eq!(slot.get_index(), 5);
    assert_eq!(slot.read(), Some(b"content".to_vec()));
    assert_eq!(*slot.get_hash(), calculate_hash(b"content"));
}

#[test]
fn load_refuses_a_payload_that_does_not_match() {
    let mut slot = clean_slot(5, b"content");
    slot.evict();
    assert_eq!(slot.load(b"contenT"), Err(wrong_payload()));
    assert_eq!(slot.load(b"content and more"), Err(wrong_payload()));
    assert_eq!(slot.load(b""), Err(wrong_payload()));
    assert_eq!(slot.load(&vec![0u8; 600]), Err(wrong_payload()));
    assert!(!slot.is_present());
    assert_eq!(slot.get_length(), 7);
    assert_eq!(slot.load(b"content"), Ok(()));
}

#[test]
fn load_leaves_a_block_in_memory_alone() {
    let mut slot = clean_slot(5, b"content");
    assert_eq!(slot.load(b"anything"), Ok(()));
    assert_eq!(slot.read(), Some(b"content".to_vec()));
}

#[test]
fn write_makes_an_evicted_block_anew() {
    let mut slot = clean_slot(5, b"content");
    slot.evict();
    assert_eq!(slot.write(b"fresh"), Ok(()));
    assert!(slot.is_present());
    assert!(slot.is_dirty());
    assert_eq!(slot.get_index(), 5);
    assert_eq!(slot.read(), Some(b"fresh".to_vec()));
}

#[test]
fn write_beyond_capacity_changes_nothing() {
    let mut slot = clean_slot(5, b"content");
    assert_eq!(slot.write(&vec![1u8; 513]), Err(Error::TooLarge));
    assert_eq!(slot.read(), Some(b"content".to_vec()));
    slot.evict();
    assert_eq!(slot.write(&vec![1u8; 513]), Err(Error::TooLarge));
    assert!(!slot.is_present());
    assert_eq!(slot.get_length(), 7);
}

#[test]
fn flush_marks_a_block_clean() {
    let mut block = Block::new();
    block.write(b"unsaved").unwrap();
    let mut slot = Slot::Present(block);
    assert!(slot.is_dirty());
    slot.do_flush();
    assert!(!slot.is_dirty());
    assert_eq!(slot.read(), Some(b"unsaved".to_vec()));
    slot.evict();
    slot.do_flush();
    assert!(!slot.is_present());
}

#[test]
fn inode_queue_lists_dirty_blocks_in_order() {
    let mut pool = Superblock::new(8);
    let mut inode = Inode::new(1);
    let data: Vec<u8> = (0..1100).map(|i| (i % 200) as u8).collect();
    inode.write(&data, &mut pool).unwrap();
    let queue = inode.pending();
    assert_eq!(queue.len(), 3);
    assert_eq!(queue[0].position, 0);
    assert_eq!(queue[2].position, 2);
    assert_eq!(queue[2].content, data[1024..].to_vec());
    assert_eq!(queue[2].hash, calculate_hash(&data[1024..]));
    assert!(inode.commit(1, &queue[1].hash));
    assert!(!inode.commit(1, &queue[1].hash));
    assert!(!inode.commit(3, &queue[1].hash));
    assert!(!inode.commit(0, &queue[1].hash));
    let left = inode.pending();
    assert_eq!(left.len(), 2);
    assert_eq!(left[0].position, 0);
    assert_eq!(left[1].position, 2);
    assert!(inode.is_dirty());
    assert!(inode.commit(0, &queue[0].hash));
    assert!(inode.commit(2, &queue[2].hash));
    assert!(!inode.is_dirty());
    assert!(inode.pending().is_empty());
    assert_eq!(inode.read(), Ok(data));
}

#[test]
fn inode_evicts_clean_blocks_only() {
    let mut pool = Superblock::new(8);
    let mut inode = Inode::new(1);
    inode.write(&vec![4u8; 1100], &mut pool).unwrap();
    assert_eq!(inode.evict(), 0);
    let queue = inode.pending();
    inode.commit(0, &queue[0].hash);
    inode.commit(2, &queue[2].hash);
    assert_eq!(inode.evict(), 2);
    assert!(!inode.is_resident());
    assert!(!inode.get_blocks()[0].is_present());
    assert!(inode.get_blocks()[1].is_present());
    assert!(!inode.get_blocks()[2].is_present());
    assert_eq!(inode.read(), Err(Error::NotFound));
    assert_eq!(inode.get_size(), 1100);
    assert_eq!(inode.get_version(), 1);
    assert_eq!(inode.pending().len(), 1);
    assert_eq!(inode.evict(), 0);
    inode.release_blocks(&mut pool);
    assert_eq!(pool.free_count(), 8);
}

#[test]
fn inode_evict_counts_the_blocks_it_drops() {
    let mut pool = Superblock::new(8);
    let mut inode = Inode::new(1);
    assert_eq!(inode.evict(), 0);
    inode.write(&vec![4u8; 1500], &mut pool).unwrap();
    let queue = inode.pending();
    for block in &queue {
        assert!(inode.commit(block.position, &block.hash));
    }
    assert_eq!(inode.evict(), 3);
    for slot in inode.get_blocks() {
        assert!(!slot.is_present());
    }
    assert_eq!(inode.evict(), 0);
}

#[test]
fn eviction_keeps_creation_time_and_earlier_version() {
    let mut earlier = Block::with_history(7, 10, None);
    earlier.write(b"version one").unwrap();
    let mut block = Block::with_history(7, 20, Some(earlier));
    block.write(b"version two").unwrap();
    block.do_flush();
    let mut slot = Slot::Present(block);
    assert!(slot.evict());
    assert!(!slot.is_present());
    assert_eq!(slot.load(b"version two"), Ok(()));
    let back = slot.get_block().unwrap();
    assert_eq!(back.get_created_at(), 20);
    assert_eq!(back.get_index(), 7);
    assert_eq!(back.read(), b"version two");
    assert_eq!(back.next().unwrap().read(), b"version one");
    assert_eq!(back.next().unwrap().get_created_at(), 10);
}

#[test]
fn writing_over_an_evicted_block_keeps_creation_time_and_earlier_version() {
    let mut earlier = Block::with_history(7, 10, None);
    earlier.write(b"version one").unwrap();
    let mut block = Block::with_history(7, 20, Some(earlier));
    block.write(b"version two").unwrap();
    block.do_flush();
    let mut slot = Slot::Present(block);
    slot.evict();
    assert_eq!(slot.write(b"version three"), Ok(()));
    let back = slot.get_block().unwrap();
    assert_eq!(back.get_created_at(), 20);
    assert_eq!(back.read(), b"version three");
    assert_eq!(back.next().unwrap().read(), b"version one");
}
