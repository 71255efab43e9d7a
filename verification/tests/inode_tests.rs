use blockfs::abstracts::BlockAllocator;
use blockfs::error::Error;
use blockfs::inode::Inode;
use blockfs::metadata::FileType;
use blockfs::superblock::Superblock;

#[test]
fn new_inode_has_no_blocks() {
    let inode = Inode::new(9);
    assert_eq!(inode.get_inode_id(), 9);
    assert_eq!(inode.get_uuid().len(), 36);
    assert_eq!(inode.get_blocks().len(), 0);
    assert_eq!(inode.get_size(), 0);
    assert_eq!(inode.get_version(), 0);
    assert_eq!(inode.get_links_count(), 0);
    assert_eq!(inode.get_permissions(), 0o777);
    assert!(!inode.is_deleted());
    assert!(!inode.is_dir());
    assert!(!inode.is_dirty());
    assert_eq!(inode.read(), Ok(Vec::<u8>::new()));
    assert!(inode.is_resident());
    assert!(Inode::with_type(1, FileType::Dir).is_dir());
    assert_ne!(inode.get_uuid(), Inode::new(9).get_uuid());
}

#[test]
fn version_up_raises_the_version_by_one() {
    let mut inode = Inode::new(1);
    inode.do_version_up();
    inode.do_version_up();
    assert_eq!(inode.get_version(), 2);
}

#[test]
fn set_permissions_keeps_nine_bits_and_the_version() {
    let mut inode = Inode::new(1);
    inode.set_permissions(0o644);
    assert_eq!(inode.get_permissions(), 0o644);
    inode.set_permissions(0o7755);
    assert_eq!(inode.get_permissions(), 0o755);
    inode.set_permissions(u16::MAX);
    assert_eq!(inode.get_permissions(), 0o777);
    assert_eq!(inode.get_version(), 0);
}

#[test]
fn set_owner_keeps_the_version() {
    let mut inode = Inode::new(1);
    inode.set_owner(1000, 100);
    assert_eq!(inode.get_metadata().uid, 1000);
    assert_eq!(inode.get_metadata().gid, 100);
    assert_eq!(inode.get_version(), 0);
}

#[test]
fn delete_takes_a_link_off_and_raises_the_version() {
    let mut inode = Inode::new(1);
    assert_eq!(inode.do_link(), Ok(()));
    assert_eq!(inode.do_link(), Ok(()));
    assert_eq!(inode.get_links_count(), 2);
    inode.do_delete();
    assert!(inode.is_deleted());
    assert_eq!(inode.get_links_count(), 1);
    assert_eq!(inode.get_version(), 1);
    inode.do_delete();
    inode.do_delete();
    assert_eq!(inode.get_links_count(), 0);
    assert_eq!(inode.get_version(), 3);
}

#[test]
fn write_cuts_data_into_blocks() {
    let mut pool = Superblock::new(8);
    let mut inode = Inode::new(1);
    let data: Vec<u8> = (0..1300).map(|i| (i % 256) as u8).collect();
    assert_eq!(inode.write(&data, &mut pool), Ok(()));
    assert_eq!(inode.get_blocks().len(), 3);
    assert_eq!(inode.get_blocks()[0].get_length(), 512);
    assert_eq!(inode.get_blocks()[1].get_length(), 512);
    assert_eq!(inode.get_blocks()[2].get_length(), 276);
    assert_eq!(inode.get_blocks()[0].read(), Some(data[..512].to_vec()));
    assert_eq!(inode.get_blocks()[2].read(), Some(data[1024..].to_vec()));
    assert_eq!(inode.get_blocks()[0].get_index(), 0);
    assert_eq!(inode.get_blocks()[1].get_index(), 1);
    assert_eq!(inode.get_blocks()[2].get_index(), 2);
    assert_eq!(inode.read(), Ok(data));
    assert_eq!(inode.get_size(), 1300);
    assert_eq!(inode.get_version(), 1);
    assert_eq!(pool.free_count(), 5);
    assert!(inode.is_dirty());
    assert_eq!(
        inode.get_metadata().first_block_hash,
        *inode.get_blocks()[0].get_hash()
    );
}

#[test]
fn later_blocks_are_chained_in_the_order_of_their_allocation() {
    let mut pool = Superblock::new(8);
    let mut inode = Inode::new(1);
    inode.write(b"one block", &mut pool).unwrap();
    inode.write(&vec![9u8; 2000], &mut pool).unwrap();
    let indices: Vec<usize> = inode.get_blocks().iter().map(|slot| slot.get_index()).collect();
    assert_eq!(indices, vec![0, 1, 2, 3]);
    assert_eq!(inode.read(), Ok(vec![9u8; 2000]));
}

#[test]
fn write_of_a_whole_number_of_blocks_takes_no_extra_block() {
    let mut pool = Superblock::new(8);
    let mut inode = Inode::new(1);
    assert_eq!(inode.write(&vec![5u8; 1024], &mut pool), Ok(()));
    assert_eq!(inode.get_blocks().len(), 2);
    assert_eq!(inode.read(), Ok(vec![5u8; 1024]));
    assert_eq!(inode.write(b"", &mut pool), Ok(()));
    assert_eq!(inode.get_blocks().len(), 2);
    assert_eq!(inode.read(), Ok(Vec::new()));
    assert_eq!(inode.get_size(), 0);
    assert_eq!(pool.free_count(), 6);
}

#[test]
fn shorter_write_keeps_the_blocks_and_empties_the_rest() {
    let mut pool = Superblock::new(8);
    let mut inode = Inode::new(1);
    inode.write(&vec![1u8; 1300], &mut pool).unwrap();
    inode.write(b"short", &mut pool).unwrap();
    assert_eq!(inode.read(), Ok(b"short".to_vec()));
    assert_eq!(inode.get_blocks().len(), 3);
    assert_eq!(inode.get_blocks()[1].get_length(), 0);
    assert_eq!(inode.get_version(), 2);
    assert_eq!(pool.free_count(), 5);
}

#[test]
fn write_without_enough_blocks_changes_nothing() {
    let mut pool = Superblock::new(2);
    let mut inode = Inode::new(1);
    inode.write(b"kept", &mut pool).unwrap();
    assert_eq!(pool.free_count(), 1);
    let result = inode.write(&vec![1u8; 1300], &mut pool);
    assert_eq!(result, Err(Error::InsufficientCapacity));
    assert_eq!(inode.read(), Ok(b"kept".to_vec()));
    assert_eq!(inode.get_version(), 1);
    assert_eq!(inode.get_blocks().len(), 1);
    assert_eq!(pool.free_count(), 1);
}

#[test]
fn attach_adds_a_block_and_its_content() {
    let mut pool = Superblock::new(2);
    let mut inode = Inode::new(1);
    let mut blocks = pool.allocate(2).unwrap();
    let mut second = blocks.pop().unwrap();
    let mut first = blocks.pop().unwrap();
    first.write(b"Hello, ").unwrap();
    second.write(b"world!").unwrap();
    assert_eq!(inode.attach_block(first), Ok(()));
    assert_eq!(inode.attach_block(second), Ok(()));
    assert_eq!(inode.read(), Ok(b"Hello, world!".to_vec()));
    assert_eq!(inode.get_size(), 13);
    assert_eq!(inode.get_version(), 0);
}

#[test]
fn release_gives_every_block_back() {
    let mut pool = Superblock::new(4);
    let mut inode = Inode::new(1);
    inode.write(&vec![1u8; 1300], &mut pool).unwrap();
    assert_eq!(pool.free_count(), 1);
    inode.release_blocks(&mut pool);
    assert_eq!(pool.free_count(), 4);
    assert_eq!(inode.get_blocks().len(), 0);
    assert_eq!(inode.get_size(), 0);
    assert_eq!(inode.read(), Ok(Vec::new()));
    assert_eq!(inode.get_metadata().first_block_hash, "");
}

#[test]
fn stamped_changes_set_the_modification_time() {
    let mut inode = Inode::new(1);
    let created = inode.get_metadata().create_at;
    inode.version_up_stamped(11);
    assert_eq!(inode.get_metadata().modified_at, 11);
    assert_eq!(inode.get_version(), 1);
    inode.set_permissions_stamped(0o7640, 12);
    assert_eq!(inode.get_metadata().modified_at, 12);
    assert_eq!(inode.get_permissions(), 0o640);
    assert_eq!(inode.get_version(), 1);
    inode.set_owner_stamped(5, 6, 13);
    assert_eq!(inode.get_metadata().modified_at, 13);
    assert_eq!(inode.get_metadata().uid, 5);
    assert_eq!(inode.get_metadata().gid, 6);
    inode.do_link().unwrap();
    assert_eq!(inode.get_metadata().modified_at, 13);
    inode.delete_stamped(14);
    assert_eq!(inode.get_metadata().modified_at, 14);
    assert!(inode.is_deleted());
    assert_eq!(inode.get_links_count(), 0);
    assert_eq!(inode.get_version(), 2);
    assert_eq!(inode.get_metadata().create_at, created);
}
