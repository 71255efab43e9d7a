use blockfs::abstracts::BlockAllocator;
use blockfs::block::Block;
use blockfs::error::Error;
use blockfs::superblock::Superblock;

fn indices(blocks: &[Block]) -> Vec<usize> {
    blocks.iter().map(|block| block.get_index()).collect()
}

#[test]
fn new_pool_is_all_free() {
    let pool = Superblock::new(4);
    assert_eq!(pool.total_blocks(), 4);
    assert_eq!(pool.free_count(), 4);
    for index in 0..4 {
        assert!(!pool.is_allocated(index));
    }
    assert!(!pool.is_allocated(4));
}

#[test]
fn allocate_hands_out_empty_blocks_from_index_zero_up() {
    let mut pool = Superblock::new(4);
    let blocks = pool.allocate(3).unwrap();
    assert_eq!(indices(&blocks), vec![0, 1, 2]);
    for block in &blocks {
        assert_eq!(block.get_valid_length(), 0);
        assert!(!block.is_dirty());
        assert!(!block.is_deleted());
    }
    assert!(pool.is_allocated(0));
    assert!(pool.is_allocated(1));
    assert!(pool.is_allocated(2));
    assert!(!pool.is_allocated(3));
}

#[test]
fn allocate_three_of_four_then_two_more_fails() {
    let mut pool = Superblock::new(4);
    let blocks = pool.allocate(3);
    assert!(blocks.is_ok());
    assert_eq!(blocks.unwrap().len(), 3);
    assert_eq!(pool.free_count(), 1);
    let more = pool.allocate(2);
    assert!(matches!(more, Err(Error::InsufficientCapacity)));
    assert_eq!(pool.free_count(), 1);
    assert!(!pool.is_allocated(3));
}

#[test]
fn allocate_then_deallocate_restores_the_free_count() {
    for n in 0..=5usize {
        let mut pool = Superblock::new(5);
        let kept = pool.allocate(1).unwrap();
        let before = pool.free_count();
        if n > before {
            assert!(matches!(pool.allocate(n), Err(Error::InsufficientCapacity)));
            assert_eq!(pool.free_count(), before);
            continue;
        }
        let blocks = pool.allocate(n).unwrap();
        assert_eq!(pool.free_count(), before - n);
        for index in indices(&blocks) {
            assert_eq!(pool.deallocate(index), Ok(()));
        }
        assert_eq!(pool.free_count(), before);
        assert!(pool.is_allocated(kept[0].get_index()));
        for index in indices(&blocks) {
            assert!(!pool.is_allocated(index));
        }
    }
}

#[test]
fn allocate_nothing_succeeds() {
    let mut pool = Superblock::new(0);
    assert_eq!(pool.allocate(0).unwrap().len(), 0);
    assert!(matches!(pool.allocate(1), Err(Error::InsufficientCapacity)));
    assert_eq!(pool.free_count(), 0);
}

#[test]
fn allocate_everything_then_one_more_fails() {
    let mut pool = Superblock::new(3);
    assert_eq!(pool.allocate(3).unwrap().len(), 3);
    assert_eq!(pool.free_count(), 0);
    assert!(matches!(pool.allocate(1), Err(Error::InsufficientCapacity)));
}

#[test]
fn deallocate_a_free_index_is_not_allocated() {
    let mut pool = Superblock::new(4);
    pool.allocate(1).unwrap();
    assert_eq!(pool.deallocate(2), Err(Error::NotAllocated));
    assert_eq!(pool.free_count(), 3);
    assert_eq!(pool.deallocate(0), Ok(()));
    assert_eq!(pool.deallocate(0), Err(Error::NotAllocated));
    assert_eq!(pool.free_count(), 4);
}

#[test]
fn deallocate_outside_the_pool_is_not_found() {
    let mut pool = Superblock::new(4);
    assert_eq!(pool.deallocate(4), Err(Error::NotFound));
    assert_eq!(pool.deallocate(usize::MAX), Err(Error::NotFound));
    assert_eq!(pool.free_count(), 4);
}

#[test]
fn a_freed_index_is_handed_out_next() {
    let mut pool = Superblock::new(4);
    pool.allocate(3).unwrap();
    pool.deallocate(1).unwrap();
    let again = pool.allocate(2).unwrap();
    assert_eq!(indices(&again), vec![1, 3]);
    assert_eq!(pool.free_count(), 0);
}
