use blockfs::abstracts::{BlockIterator, BlockReadWrite};
use blockfs::block::Block;
use blockfs::error::Error;
use blockfs::{calculate_hash, BLOCK_SIZE};

fn hash_matches_content(block: &Block) -> bool {
    *block.get_hash() == calculate_hash(&block.read())
}

#[test]
fn new_block_is_empty_and_clean() {
    let block = Block::new();
    assert_eq!(block.get_index(), 0);
    assert_eq!(block.capacity(), BLOCK_SIZE);
    assert_eq!(block.capacity(), 512);
    assert_eq!(block.get_valid_length(), 0);
    assert!(!block.is_dirty());
    assert!(!block.is_deleted());
    assert!(!block.is_used());
    assert_eq!(block.read(), Vec::<u8>::new());
    assert_eq!(*block.get_hash(), calculate_hash(b""));
    assert!(block.next().is_none());
    assert_eq!(block.get_created_at(), block.get_last_modified_at());
}

#[test]
fn write_then_read_returns_the_data() {
    for len in [0usize, 1, 13, 511, 512] {
        let data: Vec<u8> = (0..len).map(|i| (i % 251) as u8).collect();
        let mut block = Block::new();
        assert_eq!(block.write(&data), Ok(()));
        assert_eq!(block.read(), data);
        assert_eq!(block.get_valid_length(), len);
        assert!(block.is_dirty());
        assert!(block.is_used());
    }
}

#[test]
fn write_replaces_longer_content() {
    let mut block = Block::new();
    block.write(b"Hello, world!").unwrap();
    block.write(b"Hi").unwrap();
    assert_eq!(block.read(), b"Hi");
    assert_eq!(block.get_valid_length(), 2);
}

#[test]
fn write_beyond_capacity_is_too_large_and_changes_nothing() {
    let mut block = Block::new();
    block.write(b"kept").unwrap();
    block.do_flush();
    let hash = block.get_hash().clone();
    let data = vec![7u8; BLOCK_SIZE + 1];
    assert_eq!(block.write(&data), Err(Error::TooLarge));
    assert_eq!(block.read(), b"kept");
    assert_eq!(*block.get_hash(), hash);
    assert!(!block.is_dirty());
}

#[test]
fn hash_follows_every_mutator() {
    let mut block = Block::new();
    assert!(hash_matches_content(&block));
    block.write(b"Hello, world!").unwrap();
    assert!(hash_matches_content(&block));
    assert_eq!(*block.get_hash(), calculate_hash(b"Hello, world!"));
    block.write_at(20, b"far").unwrap();
    assert!(hash_matches_content(&block));
    block.append(b" more").unwrap();
    assert!(hash_matches_content(&block));
    block.truncate(5);
    assert!(hash_matches_content(&block));
    assert_eq!(*block.get_hash(), calculate_hash(b"Hello"));
    block.do_touch();
    assert!(hash_matches_content(&block));
    block.do_flush();
    assert!(hash_matches_content(&block));
    block.release_block();
    assert!(hash_matches_content(&block));
    assert_eq!(*block.get_hash(), calculate_hash(&[0u8; 5]));
}

#[test]
fn write_at_inside_the_content_keeps_the_tail() {
    let mut block = Block::new();
    block.write(b"Hello, world!").unwrap();
    assert_eq!(block.write_at(7, b"Six"), Ok(()));
    assert_eq!(block.get_valid_length(), 13);
    assert_eq!(block.read(), b"Hello, Sixld!");
    block.truncate(10);
    assert_eq!(block.read(), b"Hello, Six");
    assert_eq!(block.get_valid_length(), 10);
}

#[test]
fn write_at_past_the_end_grows_and_fills_the_gap_with_zeros() {
    let mut block = Block::new();
    block.write(b"abc").unwrap();
    assert_eq!(block.write_at(5, b"xy"), Ok(()));
    assert_eq!(block.read(), vec![b'a', b'b', b'c', 0, 0, b'x', b'y']);
    assert_eq!(block.get_valid_length(), 7);
}

#[test]
fn stale_bytes_never_come_back() {
    let mut block = Block::new();
    block.write(b"Hello, world!").unwrap();
    block.write(b"Hi").unwrap();
    block.write_at(5, b"X").unwrap();
    assert_eq!(block.read(), vec![b'H', b'i', 0, 0, 0, b'X']);
    block.truncate(1);
    block.write_at(3, b"Z").unwrap();
    assert_eq!(block.read(), vec![b'H', 0, 0, b'Z']);
}

#[test]
fn write_at_up_to_the_capacity_is_accepted() {
    let mut block = Block::new();
    assert_eq!(block.write_at(BLOCK_SIZE - 3, b"end"), Ok(()));
    assert_eq!(block.get_valid_length(), BLOCK_SIZE);
    assert_eq!(block.read_at(BLOCK_SIZE - 3, 3), Ok(b"end".to_vec()));
    assert_eq!(block.write_at(BLOCK_SIZE, b""), Ok(()));
}

#[test]
fn write_at_beyond_capacity_is_out_of_bounds_and_changes_nothing() {
    let mut block = Block::new();
    block.write(b"kept").unwrap();
    assert_eq!(block.write_at(BLOCK_SIZE - 2, b"end"), Err(Error::OutOfBounds));
    assert_eq!(block.write_at(BLOCK_SIZE + 1, b""), Err(Error::OutOfBounds));
    assert_eq!(block.write_at(usize::MAX, b"x"), Err(Error::OutOfBounds));
    assert_eq!(block.read(), b"kept");
}

#[test]
fn append_adds_after_the_content() {
    let mut block = Block::new();
    block.write(b"Hello").unwrap();
    assert_eq!(block.append(b", world!"), Ok(()));
    assert_eq!(block.read(), b"Hello, world!");
    assert_eq!(block.append(b""), Ok(()));
    assert_eq!(block.read(), b"Hello, world!");
}

#[test]
fn append_beyond_capacity_is_too_large_and_changes_nothing() {
    let mut block = Block::new();
    block.write(&vec![1u8; BLOCK_SIZE - 2]).unwrap();
    assert_eq!(block.append(b"abc"), Err(Error::TooLarge));
    assert_eq!(block.get_valid_length(), BLOCK_SIZE - 2);
    assert_eq!(block.append(b"ab"), Ok(()));
    assert_eq!(block.get_valid_length(), BLOCK_SIZE);
    assert_eq!(block.append(b"c"), Err(Error::TooLarge));
}

#[test]
fn read_at_stays_within_the_valid_content() {
    let mut block = Block::new();
    block.write(b"Hello, world!").unwrap();
    assert_eq!(block.read_at(7, 5), Ok(b"world".to_vec()));
    assert_eq!(block.read_at(0, 13), Ok(b"Hello, world!".to_vec()));
    assert_eq!(block.read_at(13, 0), Ok(Vec::new()));
    assert_eq!(block.read_at(7, 7), Err(Error::OutOfRange));
    assert_eq!(block.read_at(14, 0), Err(Error::OutOfRange));
    assert_eq!(block.read_at(usize::MAX, 2), Err(Error::OutOfRange));
    assert_eq!(block.read_at(2, usize::MAX), Err(Error::OutOfRange));
}

#[test]
fn truncate_to_the_same_or_more_does_nothing() {
    let mut block = Block::new();
    block.write(b"Hello").unwrap();
    block.do_flush();
    let modified = block.get_last_modified_at();
    block.truncate(5);
    block.truncate(9);
    assert_eq!(block.read(), b"Hello");
    assert!(!block.is_dirty());
    assert_eq!(block.get_last_modified_at(), modified);
}

#[test]
fn truncate_shrinks_and_marks_dirty() {
    let mut block = Block::new();
    block.write(b"Hello, world!").unwrap();
    block.do_flush();
    block.truncate(5);
    assert_eq!(block.read(), b"Hello");
    assert!(block.is_dirty());
    block.truncate(0);
    assert_eq!(block.read(), b"");
}

#[test]
fn flush_clears_dirty_and_keeps_the_hash() {
    let mut block = Block::new();
    block.write(b"payload").unwrap();
    let hash = block.get_hash().clone();
    assert!(block.is_dirty());
    block.do_flush();
    assert!(!block.is_dirty());
    assert!(block.is_used());
    assert_eq!(*block.get_hash(), hash);
    assert_eq!(block.read(), b"payload");
}

#[test]
fn touch_marks_dirty() {
    let mut block = Block::new();
    block.do_touch();
    assert!(block.is_dirty());
    assert!(!block.is_used());
    assert_eq!(*block.get_hash(), calculate_hash(b""));
}

#[test]
fn release_zeroes_and_tombstones() {
    let mut block = Block::with_index(3);
    block.write(b"secret").unwrap();
    block.do_flush();
    block.release_block();
    assert!(block.is_deleted());
    assert!(!block.is_used());
    assert!(block.is_dirty());
    assert_eq!(block.read(), vec![0u8; 6]);
    assert_eq!(block.get_index(), 3);
}

#[test]
fn created_at_survives_changes() {
    let mut block = Block::new();
    let created = block.get_created_at();
    block.write(b"a").unwrap();
    block.append(b"b").unwrap();
    block.truncate(1);
    block.do_flush();
    block.release_block();
    assert_eq!(block.get_created_at(), created);
    assert!(block.get_last_modified_at() >= created);
}

#[test]
fn read_block_reads_from_an_offset_to_the_end() {
    let mut block = Block::new();
    block.write(b"Hello, world!").unwrap();
    assert_eq!(block.read_block(7), Ok(b"world!".to_vec()));
    assert_eq!(block.read_block(0), Ok(b"Hello, world!".to_vec()));
    assert_eq!(block.read_block(13), Ok(Vec::new()));
    assert_eq!(block.read_block(14), Err(Error::OutOfRange));
}

#[test]
fn write_block_writes_at_an_offset() {
    let mut block = Block::new();
    assert_eq!(block.write_block(2, b"cd"), Ok(()));
    assert_eq!(block.read(), vec![0, 0, b'c', b'd']);
    assert_eq!(block.write_block(BLOCK_SIZE, b"x"), Err(Error::OutOfBounds));
    assert_eq!(block.write_block(1, &vec![1u8; BLOCK_SIZE]), Err(Error::OutOfBounds));
    assert_eq!(block.read(), vec![0, 0, b'c', b'd']);
}

#[test]
fn write_block_at_offset_zero_replaces_the_content() {
    let mut block = Block::new();
    assert_eq!(block.write_block(0, b"Hello, world!"), Ok(()));
    assert_eq!(block.read_block(0), Ok(b"Hello, world!".to_vec()));
    assert_eq!(block.write_block(0, b"Hi"), Ok(()));
    assert_eq!(block.read_block(0), Ok(b"Hi".to_vec()));
    assert_eq!(block.get_valid_length(), 2);
    assert!(block.is_dirty());
    assert_eq!(*block.get_hash(), calculate_hash(b"Hi"));
    assert_eq!(block.write_block(0, &vec![3u8; BLOCK_SIZE]), Ok(()));
    assert_eq!(block.get_valid_length(), BLOCK_SIZE);
}

#[test]
fn write_block_at_offset_zero_refuses_too_much_as_too_large() {
    let mut block = Block::new();
    block.write_block(0, b"kept").unwrap();
    block.do_flush();
    let hash = block.get_hash().clone();
    assert_eq!(block.write_block(0, &vec![1u8; BLOCK_SIZE + 1]), Err(Error::TooLarge));
    assert_eq!(block.read(), b"kept");
    assert_eq!(block.get_valid_length(), 4);
    assert_eq!(*block.get_hash(), hash);
    assert!(!block.is_dirty());
}

#[test]
fn stamped_mutators_set_the_modification_time() {
    let mut block = Block::with_history(2, 100, None);
    assert_eq!(block.get_created_at(), 100);
    assert_eq!(block.get_last_modified_at(), 100);
    block.touch_stamped(101);
    assert_eq!(block.get_last_modified_at(), 101);
    assert!(block.is_dirty());
    assert_eq!(block.write_stamped(b"Hello", 102), Ok(()));
    assert_eq!(block.get_last_modified_at(), 102);
    assert_eq!(block.write_at_stamped(5, b", world", 103), Ok(()));
    assert_eq!(block.get_last_modified_at(), 103);
    assert_eq!(block.append_stamped(b"!", 104), Ok(()));
    assert_eq!(block.get_last_modified_at(), 104);
    assert_eq!(block.read(), b"Hello, world!");
    block.flush_stamped(105);
    assert_eq!(block.get_last_modified_at(), 105);
    assert!(!block.is_dirty());
    block.truncate_stamped(5, 106);
    assert_eq!(block.get_last_modified_at(), 106);
    assert_eq!(block.read(), b"Hello");
    block.release_stamped(107);
    assert_eq!(block.get_last_modified_at(), 107);
    assert!(block.is_deleted());
    assert_eq!(block.get_created_at(), 100);
    assert_eq!(block.get_index(), 2);
}

#[test]
fn stamped_mutators_that_change_nothing_keep_the_modification_time() {
    let mut block = Block::with_history(0, 100, None);
    block.write_stamped(b"Hello", 101).unwrap();
    block.truncate_stamped(5, 200);
    block.truncate_stamped(9, 201);
    assert_eq!(block.write_stamped(&vec![0u8; BLOCK_SIZE + 1], 202), Err(Error::TooLarge));
    assert_eq!(block.write_at_stamped(BLOCK_SIZE, b"x", 203), Err(Error::OutOfBounds));
    assert_eq!(block.append_stamped(&vec![0u8; BLOCK_SIZE], 204), Err(Error::TooLarge));
    assert_eq!(block.get_last_modified_at(), 101);
    assert_eq!(block.read(), b"Hello");
}

#[test]
fn the_clock_stamps_a_touch() {
    let mut block = Block::new();
    let created = block.get_created_at();
    block.do_touch();
    assert!(block.get_last_modified_at() > 1_577_836_800_000_000_000);
    assert!(block.get_last_modified_at() >= created);
}

#[test]
fn a_block_with_history_keeps_its_link() {
    let mut earlier = Block::with_history(4, 50, None);
    earlier.write(b"version one").unwrap();
    let mut block = Block::with_history(4, 60, Some(earlier));
    assert_eq!(block.next().unwrap().read(), b"version one");
    assert_eq!(block.next().unwrap().get_created_at(), 50);
    let taken = block.take_previous().unwrap();
    assert_eq!(taken.read(), b"version one");
    assert!(block.next().is_none());
    assert!(block.take_previous().is_none());
    assert_eq!(block.get_created_at(), 60);
}

#[test]
fn previous_version_is_linked_once() {
    let mut earlier = Block::with_index(4);
    earlier.write(b"version one").unwrap();
    let mut block = Block::with_index(4);
    block.write(b"version two").unwrap();
    assert_eq!(block.link_previous(earlier), Ok(()));
    assert_eq!(block.next().unwrap().read(), b"version one");
    assert!(block.next().unwrap().next().is_none());
    assert_eq!(block.read(), b"version two");
    let other = Block::new();
    assert_eq!(block.link_previous(other), Err(Error::AlreadyExists));
    assert_eq!(block.next().unwrap().read(), b"version one");
}
