use blockfs::abstracts::{
    BlockAllocator, ConnectorStorage, DentryOp, DirectoryOprations, FileOperations, Finder,
    ServiceTrait,
};
use blockfs::calculate_hash;
use blockfs::dentry::DentrysTable;
use blockfs::error::Error;
use blockfs::filesystem::{Dir, File, Filesystem, DEFAULT_TOTAL_BLOCKS};
use blockfs::metadata::FileType;
use blockfs::storage::{encode_root, Storage};
use std::collections::HashMap;
use std::sync::{Arc, Mutex};

#[derive(Default)]
struct Shared {
    objects: HashMap<String, Vec<u8>>,
    fail_puts: bool,
    fail_gets: bool,
    puts: usize,
    gets: usize,
}

#[derive(Clone)]
struct MemoryService {
    shared: Arc<Mutex<Shared>>,
}

impl MemoryService {
    fn new() -> MemoryService {
        MemoryService { shared: Arc::new(Mutex::new(Shared::default())) }
    }
}

impl ServiceTrait for MemoryService {
    fn connect(&mut self) -> Result<(), Error> {
        Ok(())
    }

    fn put(&mut self, hash: &str, data: &[u8]) -> Result<(), Error> {
        let mut shared = self.shared.lock().unwrap();
        if shared.fail_puts {
            return Err(Error::ConnectorFailure("disk full".to_string()));
        }
        shared.puts += 1;
        shared.objects.insert(hash.to_string(), data.to_vec());
        Ok(())
    }

    fn get(&self, hash: &str) -> Result<Vec<u8>, Error> {
        let mut shared = self.shared.lock().unwrap();
        if shared.fail_gets {
            return Err(Error::ConnectorFailure("unreachable".to_string()));
        }
        shared.gets += 1;
        match shared.objects.get(hash) {
            Some(data) => Ok(data.clone()),
            None => Err(Error::NotFound),
        }
    }

    fn delete(&mut self, hash: &str) -> Result<(), Error> {
        match self.shared.lock().unwrap().objects.remove(hash) {
            Some(_) => Ok(()),
            None => Err(Error::NotFound),
        }
    }

    fn list(&self) -> Vec<String> {
        self.shared.lock().unwrap().objects.keys().cloned().collect()
    }
}

fn filesystem(total_blocks: usize) -> (Filesystem<MemoryService>, MemoryService) {
    let service = MemoryService::new();
    let filesystem = Filesystem::with_capacity(Storage::new(service.clone()), total_blocks);
    (filesystem, service)
}

fn pattern(len: usize) -> Vec<u8> {
    (0..len).map(|i| (i * 7 % 256) as u8).collect()
}

#[test]
fn new_filesystem_has_a_root_and_the_default_pool() {
    let fs = Filesystem::new(Storage::new(MemoryService::new()));
    assert_eq!(fs.current_dir(), 0);
    assert_eq!(fs.pwd(), Ok("/".to_string()));
    assert_eq!(fs.list(), Ok(Vec::<String>::new()));
    assert_eq!(fs.get_allocator().total_blocks(), DEFAULT_TOTAL_BLOCKS);
    assert_eq!(fs.get_allocator().total_blocks(), 1024);
    assert_eq!(fs.get_allocator().free_count(), 1024);
    assert_eq!(fs.get_tree().len(), 1);
}

#[test]
fn create_makes_an_empty_file_with_one_block() {
    let (mut fs, _) = filesystem(4);
    let file = FileOperations::create(&mut fs, "a.txt").unwrap();
    assert_eq!(file, File { dentry: 1 });
    assert_eq!(fs.get_allocator().free_count(), 3);
    assert!(fs.get_allocator().is_allocated(0));
    assert_eq!(fs.read(&file), Ok(Vec::new()));
    let stat = fs.stat("a.txt").unwrap();
    assert_eq!(stat.file_type, FileType::File);
    assert_eq!(stat.size, 0);
    assert_eq!(stat.version, 0);
    assert_eq!(stat.links_count, 1);
    assert_eq!(stat.first_block_hash, calculate_hash(b""));
    let inode = fs.get_tree().get_inode(1).unwrap();
    assert_eq!(inode.get_blocks().len(), 1);
    assert_eq!(inode.get_blocks()[0].get_index(), 0);
    assert_eq!(fs.list(), Ok(vec!["a.txt".to_string()]));
}

#[test]
fn create_of_an_existing_name_fails_and_changes_nothing() {
    let (mut fs, _) = filesystem(4);
    FileOperations::create(&mut fs, "a").unwrap();
    assert!(matches!(FileOperations::create(&mut fs, "a"), Err(Error::AlreadyExists)));
    fs.create_dir("d").unwrap();
    assert!(matches!(FileOperations::create(&mut fs, "d"), Err(Error::AlreadyExists)));
    assert_eq!(fs.get_allocator().free_count(), 3);
    assert_eq!(fs.get_tree().len(), 3);
}

#[test]
fn create_without_a_free_block_fails_and_changes_nothing() {
    let (mut fs, _) = filesystem(1);
    FileOperations::create(&mut fs, "a").unwrap();
    assert!(matches!(
        FileOperations::create(&mut fs, "b"),
        Err(Error::InsufficientCapacity)
    ));
    assert_eq!(fs.list(), Ok(vec!["a".to_string()]));
    assert_eq!(fs.get_tree().len(), 2);
    assert!(matches!(FileOperations::create(&mut fs, "a"), Err(Error::AlreadyExists)));
}

#[test]
fn write_then_read_gives_the_data_back() {
    let (mut fs, _) = filesystem(8);
    let file = FileOperations::create(&mut fs, "f").unwrap();
    for len in [0usize, 1, 511, 512, 513, 1300, 2048] {
        let data = pattern(len);
        assert_eq!(fs.write(&file, &data), Ok(()));
        assert_eq!(fs.read(&file), Ok(data.clone()));
        assert_eq!(fs.cat("f"), Ok(data));
        assert_eq!(fs.stat("f").unwrap().size, len);
    }
    assert_eq!(fs.stat("f").unwrap().version, 7);
    assert_eq!(fs.get_allocator().free_count(), 4);
}

#[test]
fn write_persists_every_block_under_its_hash() {
    let (mut fs, service) = filesystem(8);
    let file = FileOperations::create(&mut fs, "f").unwrap();
    let data = pattern(1300);
    fs.write(&file, &data).unwrap();
    let shared = service.shared.lock().unwrap();
    assert_eq!(shared.puts, 3);
    assert_eq!(shared.objects.get(&calculate_hash(&data[..512])), Some(&data[..512].to_vec()));
    assert_eq!(
        shared.objects.get(&calculate_hash(&data[512..1024])),
        Some(&data[512..1024].to_vec())
    );
    assert_eq!(shared.objects.get(&calculate_hash(&data[1024..])), Some(&data[1024..].to_vec()));
    drop(shared);
    let inode = fs.get_tree().get_inode(file.dentry).unwrap();
    assert!(!inode.is_dirty());
    assert_eq!(fs.stat("f").unwrap().first_block_hash, calculate_hash(&data[..512]));
}

#[test]
fn write_that_needs_too_many_blocks_changes_nothing() {
    let (mut fs, service) = filesystem(2);
    let file = FileOperations::create(&mut fs, "f").unwrap();
    fs.write(&file, b"kept").unwrap();
    let puts = service.shared.lock().unwrap().puts;
    assert_eq!(fs.write(&file, &pattern(1300)), Err(Error::InsufficientCapacity));
    assert_eq!(fs.read(&file), Ok(b"kept".to_vec()));
    assert_eq!(fs.stat("f").unwrap().version, 1);
    assert_eq!(fs.get_allocator().free_count(), 1);
    assert_eq!(service.shared.lock().unwrap().puts, puts);
    assert_eq!(fs.write(&file, &pattern(1024)), Ok(()));
    assert_eq!(fs.get_allocator().free_count(), 0);
}

#[test]
fn write_keeps_the_data_when_the_backend_fails() {
    let (mut fs, service) = filesystem(8);
    let file = FileOperations::create(&mut fs, "f").unwrap();
    service.shared.lock().unwrap().fail_puts = true;
    let data = pattern(700);
    assert_eq!(
        fs.write(&file, &data),
        Err(Error::ConnectorFailure("disk full".to_string()))
    );
    assert_eq!(fs.read(&file), Ok(data.clone()));
    assert_eq!(fs.stat("f").unwrap().version, 1);
    assert!(fs.get_tree().get_inode(file.dentry).unwrap().is_dirty());
    assert_eq!(fs.flush(), Err(Error::ConnectorFailure("disk full".to_string())));
    service.shared.lock().unwrap().fail_puts = false;
    assert_eq!(fs.flush(), Ok(()));
    assert!(!fs.get_tree().get_inode(file.dentry).unwrap().is_dirty());
    assert_eq!(service.shared.lock().unwrap().puts, 2);
    assert_eq!(fs.read(&file), Ok(data));
}

#[test]
fn write_to_a_stale_handle_is_not_found() {
    let (mut fs, _) = filesystem(8);
    let file = FileOperations::create(&mut fs, "f").unwrap();
    fs.delete("f").unwrap();
    assert_eq!(fs.write(&file, b"x"), Err(Error::NotFound));
    assert_eq!(fs.read(&file), Err(Error::NotFound));
    assert_eq!(fs.write(&File { dentry: 99 }, b"x"), Err(Error::NotFound));
    assert_eq!(fs.read(&File { dentry: 0 }), Err(Error::NotFound));
}

#[test]
fn evicted_blocks_are_fetched_again_on_read() {
    let (mut fs, service) = filesystem(8);
    let file = FileOperations::create(&mut fs, "f").unwrap();
    let data = pattern(1300);
    fs.write(&file, &data).unwrap();
    fs.evict();
    let inode = fs.get_tree().get_inode(file.dentry).unwrap();
    assert!(!inode.is_resident());
    assert_eq!(inode.read(), Err(Error::NotFound));
    assert_eq!(inode.get_size(), 1300);
    assert_eq!(*inode.get_blocks()[0].get_hash(), calculate_hash(&data[..512]));
    assert_eq!(inode.get_blocks()[2].get_length(), 276);
    assert_eq!(service.shared.lock().unwrap().gets, 0);
    assert_eq!(fs.read(&file), Ok(data.clone()));
    assert_eq!(service.shared.lock().unwrap().gets, 3);
    assert!(fs.get_tree().get_inode(file.dentry).unwrap().is_resident());
    assert_eq!(fs.read(&file), Ok(data));
    assert_eq!(service.shared.lock().unwrap().gets, 3);
    assert_eq!(fs.stat("f").unwrap().version, 1);
}

#[test]
fn dirty_blocks_are_never_evicted() {
    let (mut fs, service) = filesystem(8);
    let file = FileOperations::create(&mut fs, "f").unwrap();
    service.shared.lock().unwrap().fail_puts = true;
    let _ = fs.write(&file, b"unsaved");
    fs.evict();
    assert!(fs.get_tree().get_inode(file.dentry).unwrap().is_resident());
    assert_eq!(fs.read(&file), Ok(b"unsaved".to_vec()));
}

#[test]
fn read_fails_when_an_evicted_block_cannot_be_fetched() {
    let (mut fs, service) = filesystem(8);
    let file = FileOperations::create(&mut fs, "f").unwrap();
    let data = pattern(600);
    fs.write(&file, &data).unwrap();
    fs.evict();
    service.shared.lock().unwrap().fail_gets = true;
    assert_eq!(
        fs.read(&file),
        Err(Error::ConnectorFailure("unreachable".to_string()))
    );
    service.shared.lock().unwrap().fail_gets = false;
    service.shared.lock().unwrap().objects.remove(&calculate_hash(&data[512..]));
    assert_eq!(fs.read(&file), Err(Error::NotFound));
    assert_eq!(fs.stat("f").unwrap().size, 600);
}

#[test]
fn read_refuses_a_fetched_block_that_was_tampered_with() {
    let (mut fs, service) = filesystem(8);
    let file = FileOperations::create(&mut fs, "f").unwrap();
    fs.write(&file, b"genuine").unwrap();
    fs.evict();
    service
        .shared
        .lock()
        .unwrap()
        .objects
        .insert(calculate_hash(b"genuine"), b"tampered".to_vec());
    assert_eq!(
        fs.read(&file),
        Err(Error::ConnectorFailure("content hash mismatch".to_string()))
    );
    service
        .shared
        .lock()
        .unwrap()
        .objects
        .insert(calculate_hash(b"genuine"), b"genuine".to_vec());
    assert_eq!(fs.read(&file), Ok(b"genuine".to_vec()));
}

#[test]
fn write_over_evicted_blocks_needs_no_fetch() {
    let (mut fs, service) = filesystem(8);
    let file = FileOperations::create(&mut fs, "f").unwrap();
    fs.write(&file, &pattern(1000)).unwrap();
    fs.evict();
    fs.write(&file, b"new content").unwrap();
    assert_eq!(service.shared.lock().unwrap().gets, 0);
    assert_eq!(fs.read(&file), Ok(b"new content".to_vec()));
    let inode = fs.get_tree().get_inode(file.dentry).unwrap();
    assert_eq!(inode.get_blocks()[0].get_index(), 0);
    assert_eq!(inode.get_blocks()[1].get_index(), 1);
    assert_eq!(fs.get_allocator().free_count(), 6);
}

#[test]
fn open_finds_files_only() {
    let (mut fs, _) = filesystem(8);
    let made = FileOperations::create(&mut fs, "f").unwrap();
    fs.create_dir("d").unwrap();
    assert_eq!(fs.open("f").unwrap().dentry, made.dentry);
    assert!(matches!(fs.open("d"), Err(Error::NotFound)));
    assert!(matches!(fs.open("missing"), Err(Error::NotFound)));
    assert_eq!(fs.cat("d"), Err(Error::NotFound));
    assert_eq!(fs.cat("missing"), Err(Error::NotFound));
    assert_eq!(fs.find("f"), Some(1));
    assert_eq!(fs.find("d"), Some(2));
    assert_eq!(fs.find("missing"), None);
}

#[test]
fn stat_tells_of_files_and_directories() {
    let (mut fs, _) = filesystem(8);
    let file = FileOperations::create(&mut fs, "f").unwrap();
    fs.create_dir("d").unwrap();
    fs.write(&file, &pattern(600)).unwrap();
    let stat = fs.stat("f").unwrap();
    assert_eq!(stat.file_type, FileType::File);
    assert_eq!(stat.size, 600);
    assert_eq!(stat.version, 1);
    assert_eq!(stat.permissions, 0o777);
    assert_eq!(stat.uid, 0);
    assert!(!stat.is_delete);
    let dir = fs.stat("d").unwrap();
    assert_eq!(dir.file_type, FileType::Dir);
    assert_eq!(dir.size, 0);
    assert_eq!(dir.links_count, 1);
    assert!(matches!(fs.stat("missing"), Err(Error::NotFound)));
}

#[test]
fn delete_removes_the_file_and_frees_its_blocks() {
    let (mut fs, _) = filesystem(8);
    let file = FileOperations::create(&mut fs, "f").unwrap();
    fs.write(&file, &pattern(1300)).unwrap();
    assert_eq!(fs.get_allocator().free_count(), 5);
    assert_eq!(fs.delete("f"), Ok(()));
    assert_eq!(fs.get_allocator().free_count(), 8);
    assert_eq!(fs.list(), Ok(Vec::<String>::new()));
    assert!(!fs.get_tree().is_live(file.dentry));
    let inode = fs.get_tree().get_inode(file.dentry).unwrap();
    assert!(inode.is_deleted());
    assert_eq!(inode.get_links_count(), 0);
    assert_eq!(inode.get_version(), 2);
    assert_eq!(inode.get_blocks().len(), 0);
    assert_eq!(fs.delete("f"), Err(Error::NotFound));
    let again = FileOperations::create(&mut fs, "f").unwrap();
    assert_eq!(again.dentry, 2);
    assert_eq!(fs.read(&again), Ok(Vec::new()));
}

#[test]
fn delete_and_remove_take_any_entry() {
    let (mut fs, _) = filesystem(8);
    let file = FileOperations::create(&mut fs, "f").unwrap();
    fs.write(&file, &pattern(600)).unwrap();
    fs.create_dir("d").unwrap();
    assert_eq!(fs.remove("missing"), Err(Error::NotFound));
    assert_eq!(fs.delete("missing"), Err(Error::NotFound));
    assert_eq!(fs.delete("d"), Ok(()));
    assert_eq!(fs.list(), Ok(vec!["f".to_string()]));
    assert_eq!(fs.remove("f"), Ok(()));
    assert_eq!(fs.list(), Ok(Vec::<String>::new()));
    assert_eq!(fs.get_allocator().free_count(), 8);
    assert!(fs.get_tree().get_inode(2).unwrap().is_deleted());
}

#[test]
fn delete_of_a_directory_with_entries_is_not_empty() {
    let (mut fs, _) = filesystem(8);
    fs.create_dir("e").unwrap();
    fs.change_dir("e").unwrap();
    fs.create_dir("c").unwrap();
    fs.change_dir("..").unwrap();
    assert_eq!(fs.delete("e"), Err(Error::NotEmpty));
    assert_eq!(fs.list(), Ok(vec!["e".to_string()]));
    assert_eq!(fs.change_dir("e/c"), Ok(()));
    assert_eq!(fs.change_dir("/e"), Ok(()));
    assert_eq!(fs.delete("c"), Ok(()));
    assert_eq!(fs.change_dir("/"), Ok(()));
    assert_eq!(fs.delete("e"), Ok(()));
    assert_eq!(fs.list(), Ok(Vec::<String>::new()));
}

#[test]
fn remove_of_a_directory_with_entries_is_not_empty() {
    let (mut fs, _) = filesystem(8);
    fs.create_dir("d").unwrap();
    fs.change_dir("d").unwrap();
    FileOperations::create(&mut fs, "inner").unwrap();
    fs.change_dir("..").unwrap();
    assert_eq!(fs.remove("d"), Err(Error::NotEmpty));
    fs.change_dir("d").unwrap();
    fs.delete("inner").unwrap();
    fs.change_dir("/").unwrap();
    assert_eq!(fs.remove("d"), Ok(()));
}

#[test]
fn directories_nest_and_pwd_follows() {
    let (mut fs, _) = filesystem(8);
    assert_eq!(fs.create_dir("a"), Ok(Dir { dentry: 1 }));
    assert_eq!(fs.create_dir("a"), Err(Error::AlreadyExists));
    assert_eq!(fs.change("a"), Ok("/a".to_string()));
    assert_eq!(fs.create_dir("b"), Ok(Dir { dentry: 2 }));
    assert_eq!(fs.change("b"), Ok("/a/b".to_string()));
    assert_eq!(fs.pwd(), Ok("/a/b".to_string()));
    assert_eq!(fs.current_dir(), 2);
    assert_eq!(fs.change(".."), Ok("/a".to_string()));
    assert_eq!(fs.change("/"), Ok("/".to_string()));
    assert_eq!(fs.change(".."), Err(Error::NoParent));
    assert_eq!(fs.change("missing"), Err(Error::NotFound));
    assert_eq!(fs.pwd(), Ok("/".to_string()));
    assert_eq!(fs.change_dir("a"), Ok(()));
    assert_eq!(fs.change_dir("missing"), Err(Error::NotFound));
    assert_eq!(fs.current_dir(), 1);
}

#[test]
fn change_does_not_enter_files() {
    let (mut fs, _) = filesystem(8);
    FileOperations::create(&mut fs, "f").unwrap();
    assert_eq!(fs.change_dir("f"), Err(Error::NotFound));
    assert_eq!(fs.change("f"), Err(Error::NotFound));
    assert_eq!(fs.current_dir(), 0);
}

#[test]
fn files_in_different_directories_are_kept_apart() {
    let (mut fs, _) = filesystem(8);
    fs.create_dir("a").unwrap();
    fs.create_dir("b").unwrap();
    fs.change_dir("a").unwrap();
    let first = FileOperations::create(&mut fs, "same").unwrap();
    fs.write(&first, b"in a").unwrap();
    fs.change_dir("..").unwrap();
    fs.change_dir("b").unwrap();
    let second = FileOperations::create(&mut fs, "same").unwrap();
    fs.write(&second, b"in b").unwrap();
    assert_eq!(fs.cat("same"), Ok(b"in b".to_vec()));
    assert_eq!(fs.read(&first), Ok(b"in a".to_vec()));
    assert_eq!(fs.get_tree().get_abspath(second.dentry), Ok("/b/same".to_string()));
}

#[test]
fn rename_keeps_the_content() {
    let (mut fs, _) = filesystem(8);
    let file = FileOperations::create(&mut fs, "old").unwrap();
    fs.write(&file, b"content").unwrap();
    FileOperations::create(&mut fs, "taken").unwrap();
    assert_eq!(fs.rename("old", "new"), Ok(()));
    assert_eq!(fs.cat("new"), Ok(b"content".to_vec()));
    assert_eq!(fs.cat("old"), Err(Error::NotFound));
    assert_eq!(fs.read(&file), Ok(b"content".to_vec()));
    assert_eq!(fs.rename("new", "taken"), Err(Error::AlreadyExists));
    assert_eq!(fs.rename("missing", "x"), Err(Error::NotFound));
    assert_eq!(fs.list(), Ok(vec!["new".to_string(), "taken".to_string()]));
}

#[test]
fn mount_binds_a_tree_and_moves_to_its_root() {
    let service = MemoryService::new();
    let mut fs = Filesystem::with_capacity(Storage::new(MemoryService::new()), 8);
    fs.create_dir("old").unwrap();
    fs.change_dir("old").unwrap();
    FileOperations::create(&mut fs, "gone").unwrap();
    assert_eq!(fs.get_allocator().free_count(), 7);
    let mut tree = DentrysTable::new();
    tree.dentry_add(0, "d").unwrap();
    tree.create(1, "f", FileType::File).unwrap();
    assert_eq!(fs.mount(tree, Storage::new(service.clone())), Ok(()));
    assert_eq!(fs.current_dir(), 0);
    assert_eq!(fs.pwd(), Ok("/".to_string()));
    assert_eq!(fs.list(), Ok(vec!["d".to_string()]));
    assert_eq!(fs.get_allocator().total_blocks(), 8);
    assert_eq!(fs.get_allocator().free_count(), 8);
    assert_eq!(fs.change("d"), Ok("/d".to_string()));
    let file = fs.open("f").unwrap();
    fs.write(&file, b"through the new storage").unwrap();
    assert_eq!(service.shared.lock().unwrap().puts, 1);
}

#[test]
fn mount_primes_the_pool_from_the_root_record() {
    let service = MemoryService::new();
    service.shared.lock().unwrap().objects.insert("0".to_string(), encode_root(16));
    let mut fs = Filesystem::with_capacity(Storage::new(MemoryService::new()), 4);
    assert_eq!(fs.mount(DentrysTable::new(), Storage::new(service)), Ok(()));
    assert_eq!(fs.get_allocator().total_blocks(), 16);
    assert_eq!(fs.get_allocator().free_count(), 16);
}

#[test]
fn init_without_a_root_record_keeps_the_pool() {
    let (mut fs, _) = filesystem(4);
    assert_eq!(fs.init(), Ok(()));
    assert_eq!(fs.get_allocator().total_blocks(), 4);
}

#[test]
fn init_does_not_replace_a_pool_that_is_in_use() {
    let (mut fs, service) = filesystem(4);
    FileOperations::create(&mut fs, "f").unwrap();
    service.shared.lock().unwrap().objects.insert("0".to_string(), encode_root(16));
    assert_eq!(fs.init(), Ok(()));
    assert_eq!(fs.get_allocator().total_blocks(), 4);
    assert_eq!(fs.get_allocator().free_count(), 3);
}

#[test]
fn init_passes_over_a_record_that_asks_for_too_much() {
    let (mut fs, service) = filesystem(4);
    service.shared.lock().unwrap().objects.insert("0".to_string(), encode_root(u64::MAX));
    assert_eq!(fs.init(), Ok(()));
    assert_eq!(fs.get_allocator().total_blocks(), 4);
    service.shared.lock().unwrap().objects.insert("0".to_string(), vec![1, 2, 3]);
    assert_eq!(fs.init(), Ok(()));
    assert_eq!(fs.get_allocator().total_blocks(), 4);
}

#[test]
fn init_hands_on_the_error_of_the_backend() {
    let (mut fs, service) = filesystem(4);
    service.shared.lock().unwrap().fail_gets = true;
    assert_eq!(fs.init(), Err(Error::ConnectorFailure("unreachable".to_string())));
    assert_eq!(fs.get_allocator().total_blocks(), 4);
}

#[test]
fn prime_follows_what_the_storage_told() {
    let (mut fs, _) = filesystem(4);
    assert_eq!(fs.prime(Ok(None)), Ok(()));
    assert_eq!(fs.get_allocator().total_blocks(), 4);
    assert_eq!(fs.prime(Err(Error::NotAllocated)), Err(Error::NotAllocated));
    assert_eq!(fs.get_allocator().total_blocks(), 4);
    assert_eq!(fs.prime(Ok(Some(0x100_0001))), Ok(()));
    assert_eq!(fs.get_allocator().total_blocks(), 4);
    assert_eq!(fs.prime(Ok(Some(9))), Ok(()));
    assert_eq!(fs.get_allocator().total_blocks(), 9);
    assert_eq!(fs.get_allocator().free_count(), 9);
}

#[test]
fn write_local_changes_the_file_and_queues_its_blocks() {
    let (mut fs, service) = filesystem(8);
    let file = FileOperations::create(&mut fs, "f").unwrap();
    let data = pattern(1300);
    assert_eq!(fs.write_local(&file, &data), Ok(()));
    assert_eq!(service.shared.lock().unwrap().puts, 0);
    assert_eq!(fs.read(&file), Ok(data.clone()));
    let queue = fs.pending(&file).ok().unwrap();
    assert_eq!(queue.len(), 3);
    assert_eq!(queue[0].position, 0);
    assert_eq!(queue[1].position, 1);
    assert_eq!(queue[2].position, 2);
    assert_eq!(queue[0].content, data[..512].to_vec());
    assert_eq!(queue[2].content, data[1024..].to_vec());
    assert_eq!(queue[1].hash, calculate_hash(&data[512..1024]));
}

#[test]
fn write_local_fails_as_write_does() {
    let (mut fs, _) = filesystem(2);
    let file = FileOperations::create(&mut fs, "f").unwrap();
    assert_eq!(fs.write_local(&file, &pattern(1300)), Err(Error::InsufficientCapacity));
    assert_eq!(fs.write_local(&File { dentry: 7 }, b"x"), Err(Error::NotFound));
    assert_eq!(fs.read(&file), Ok(Vec::new()));
    assert_eq!(fs.stat("f").unwrap().version, 0);
}

#[test]
fn commit_marks_a_persisted_block_clean() {
    let (mut fs, _) = filesystem(8);
    let file = FileOperations::create(&mut fs, "f").unwrap();
    fs.write_local(&file, &pattern(600)).unwrap();
    let queue = fs.pending(&file).ok().unwrap();
    assert_eq!(fs.commit(&file, 1, &queue[1].hash), Ok(true));
    let left = fs.pending(&file).ok().unwrap();
    assert_eq!(left.len(), 1);
    assert_eq!(left[0].position, 0);
    assert_eq!(fs.commit(&file, 1, &queue[1].hash), Ok(false));
    assert_eq!(fs.commit(&file, 0, &queue[0].hash), Ok(true));
    assert!(fs.pending(&file).ok().unwrap().is_empty());
    assert!(!fs.get_tree().get_inode(file.dentry).unwrap().is_dirty());
    assert_eq!(fs.read(&file), Ok(pattern(600)));
}

#[test]
fn commit_passes_over_a_block_that_was_written_again() {
    let (mut fs, _) = filesystem(8);
    let file = FileOperations::create(&mut fs, "f").unwrap();
    fs.write_local(&file, b"first").unwrap();
    let queue = fs.pending(&file).ok().unwrap();
    fs.write_local(&file, b"second").unwrap();
    assert_eq!(fs.commit(&file, 0, &queue[0].hash), Ok(false));
    assert_eq!(fs.commit(&file, 5, &queue[0].hash), Ok(false));
    assert_eq!(fs.commit(&file, 0, "not a hash"), Ok(false));
    let again = fs.pending(&file).ok().unwrap();
    assert_eq!(again.len(), 1);
    assert_eq!(again[0].content, b"second".to_vec());
    assert_eq!(fs.commit(&file, 0, &again[0].hash), Ok(true));
}

#[test]
fn pending_and_commit_need_a_live_file() {
    let (mut fs, _) = filesystem(8);
    fs.create_dir("d").unwrap();
    assert!(matches!(fs.pending(&File { dentry: 1 }), Err(Error::NotFound)));
    assert!(matches!(fs.pending(&File { dentry: 9 }), Err(Error::NotFound)));
    assert_eq!(fs.commit(&File { dentry: 1 }, 0, "x"), Err(Error::NotFound));
}

#[test]
fn change_dir_follows_a_path() {
    let (mut fs, _) = filesystem(8);
    fs.create_dir("a").unwrap();
    fs.change_dir("a").unwrap();
    fs.create_dir("b").unwrap();
    FileOperations::create(&mut fs, "f").unwrap();
    assert_eq!(fs.change_dir("/a/b"), Ok(()));
    assert_eq!(fs.pwd(), Ok("/a/b".to_string()));
    assert_eq!(fs.change_dir("../.."), Ok(()));
    assert_eq!(fs.pwd(), Ok("/".to_string()));
    assert_eq!(fs.change_dir("a/b/.."), Ok(()));
    assert_eq!(fs.pwd(), Ok("/a".to_string()));
    assert_eq!(fs.change_dir(""), Ok(()));
    assert_eq!(fs.pwd(), Ok("/a".to_string()));
    assert_eq!(fs.change_dir("/a/f"), Err(Error::NotFound));
    assert_eq!(fs.change_dir("/a/missing/b"), Err(Error::NotFound));
    assert_eq!(fs.change_dir("/.."), Err(Error::NoParent));
    assert_eq!(fs.pwd(), Ok("/a".to_string()));
    assert_eq!(fs.change("b/.."), Err(Error::NotFound));
}

#[test]
fn read_local_never_fetches() {
    let (mut fs, service) = filesystem(8);
    let file = FileOperations::create(&mut fs, "f").unwrap();
    fs.create_dir("d").unwrap();
    fs.write(&file, b"content").unwrap();
    assert_eq!(fs.read_local(&file), Ok(b"content".to_vec()));
    assert_eq!(fs.read_local(&File { dentry: 2 }), Err(Error::NotFound));
    assert_eq!(fs.read_local(&File { dentry: 9 }), Err(Error::NotFound));
    fs.evict();
    assert_eq!(fs.read_local(&file), Err(Error::NotFound));
    assert_eq!(service.shared.lock().unwrap().gets, 0);
    assert_eq!(fs.read(&file), Ok(b"content".to_vec()));
    assert_eq!(fs.read_local(&file), Ok(b"content".to_vec()));
}

#[test]
fn slash_always_leads_to_the_root() {
    let (mut fs, _) = filesystem(8);
    assert_eq!(fs.change_dir("/"), Ok(()));
    assert_eq!(fs.current_dir(), 0);
    fs.create_dir("a").unwrap();
    fs.change_dir("a").unwrap();
    fs.create_dir("b").unwrap();
    fs.change_dir("b").unwrap();
    assert_eq!(fs.change_dir("/"), Ok(()));
    assert_eq!(fs.current_dir(), 0);
    fs.change_dir("a/b").unwrap();
    assert_eq!(fs.change("/"), Ok("/".to_string()));
    assert_eq!(fs.current_dir(), 0);
    assert_eq!(fs.get_tree().len(), 3);
    assert_eq!(fs.get_allocator().free_count(), 8);
}
