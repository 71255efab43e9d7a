use blockfs::abstracts::ServiceTrait;
use blockfs::calculate_hash;
use blockfs::error::Error;
use blockfs::storage::{
    decode_root, encode_root, root_key_text, root_outcome, saved, verified_payload, Storage,
};
use std::collections::HashMap;

struct MemoryService {
    objects: HashMap<String, Vec<u8>>,
    fail_puts: bool,
}

impl MemoryService {
    fn new() -> MemoryService {
        MemoryService { objects: HashMap::new(), fail_puts: false }
    }
}

impl ServiceTrait for MemoryService {
    fn connect(&mut self) -> Result<(), Error> {
        Ok(())
    }

    fn put(&mut self, hash: &str, data: &[u8]) -> Result<(), Error> {
        if self.fail_puts {
            return Err(Error::ConnectorFailure("disk full".to_string()));
        }
        self.objects.insert(hash.to_string(), data.to_vec());
        Ok(())
    }

    fn get(&self, hash: &str) -> Result<Vec<u8>, Error> {
        match self.objects.get(hash) {
            Some(data) => Ok(data.clone()),
            None => Err(Error::NotFound),
        }
    }

    fn delete(&mut self, hash: &str) -> Result<(), Error> {
        match self.objects.remove(hash) {
            Some(_) => Ok(()),
            None => Err(Error::NotFound),
        }
    }

    fn list(&self) -> Vec<String> {
        self.objects.keys().cloned().collect()
    }
}

#[test]
fn save_stores_under_the_content_hash() {
    let mut storage = Storage::new(MemoryService::new());
    let hash = storage.save(b"hello world").unwrap();
    assert_eq!(hash, "b94d27b9934d3e08a52e52d7da7dabfac484efe37a5380ee9088f7ace2efcde9");
    assert_eq!(storage.service.objects.get(&hash), Some(&b"hello world".to_vec()));
    assert_eq!(storage.service.list(), vec![hash]);
}

#[test]
fn save_then_loading_gives_the_payload_back() {
    let mut storage = Storage::new(MemoryService::new());
    let hash = storage.save(b"payload").unwrap();
    assert_eq!(storage.loading(&hash), Ok(b"payload".to_vec()));
}

#[test]
fn save_hands_on_the_error_of_the_backend() {
    let mut service = MemoryService::new();
    service.fail_puts = true;
    let mut storage = Storage::new(service);
    assert_eq!(
        storage.save(b"payload"),
        Err(Error::ConnectorFailure("disk full".to_string()))
    );
    assert!(storage.service.objects.is_empty());
}

#[test]
fn loading_a_missing_key_is_not_found() {
    let mut storage = Storage::new(MemoryService::new());
    let hash = calculate_hash(b"never stored");
    assert_eq!(storage.loading(&hash), Err(Error::NotFound));
}

#[test]
fn loading_a_payload_that_does_not_match_its_key_fails() {
    let mut service = MemoryService::new();
    let hash = calculate_hash(b"genuine");
    service.objects.insert(hash.clone(), b"tampered".to_vec());
    let mut storage = Storage::new(service);
    assert_eq!(
        storage.loading(&hash),
        Err(Error::ConnectorFailure("content hash mismatch".to_string()))
    );
}

#[test]
fn loading_an_empty_payload_under_its_own_hash_succeeds() {
    let mut storage = Storage::new(MemoryService::new());
    let hash = storage.save(b"").unwrap();
    assert_eq!(storage.loading(&hash), Ok(Vec::new()));
}

#[test]
fn saved_gives_the_hash_or_the_error() {
    assert_eq!(saved("abc".to_string(), Ok(())), Ok("abc".to_string()));
    assert_eq!(saved("abc".to_string(), Err(Error::NotFound)), Err(Error::NotFound));
}

#[test]
fn verified_payload_checks_the_hash() {
    let hash = calculate_hash(b"data");
    assert_eq!(verified_payload(&hash, Ok(b"data".to_vec())), Ok(b"data".to_vec()));
    assert_eq!(
        verified_payload(&hash, Ok(b"datb".to_vec())),
        Err(Error::ConnectorFailure("content hash mismatch".to_string()))
    );
    assert_eq!(verified_payload(&hash, Err(Error::NotFound)), Err(Error::NotFound));
    assert_eq!(
        verified_payload(&hash, Err(Error::ConnectorFailure("io".to_string()))),
        Err(Error::ConnectorFailure("io".to_string()))
    );
}

#[test]
fn root_record_is_eight_bytes_lowest_first() {
    assert_eq!(encode_root(0), vec![0u8; 8]);
    assert_eq!(encode_root(1), vec![1, 0, 0, 0, 0, 0, 0, 0]);
    assert_eq!(encode_root(0x0102), vec![2, 1, 0, 0, 0, 0, 0, 0]);
    assert_eq!(encode_root(u64::MAX), vec![255u8; 8]);
}

#[test]
fn root_record_round_trips() {
    for capacity in [0u64, 1, 4, 1024, 0x0102_0304_0506_0708, u64::MAX] {
        assert_eq!(decode_root(&encode_root(capacity)), Some(capacity));
    }
}

#[test]
fn root_record_that_is_too_short_holds_nothing() {
    assert_eq!(decode_root(&[]), None);
    assert_eq!(decode_root(&[1, 2, 3, 4, 5, 6, 7]), None);
    assert_eq!(decode_root(&[4, 0, 0, 0, 0, 0, 0, 0, 99, 98]), Some(4));
}

#[test]
fn root_outcome_reads_the_record() {
    assert_eq!(root_outcome(Ok(encode_root(16))), Ok(Some(16)));
    assert_eq!(root_outcome(Ok(vec![1, 2])), Ok(None));
    assert_eq!(root_outcome(Err(Error::NotFound)), Ok(None));
    assert_eq!(
        root_outcome(Err(Error::ConnectorFailure("io".to_string()))),
        Err(Error::ConnectorFailure("io".to_string()))
    );
}

#[test]
fn binding_stores_the_root_record_under_key_zero() {
    let mut storage = Storage::new(MemoryService::new());
    assert_eq!(storage.load_root(), Ok(None));
    assert_eq!(storage.binding(12), Ok(()));
    assert_eq!(storage.service.objects.get("0"), Some(&encode_root(12)));
    assert_eq!(storage.load_root(), Ok(Some(12)));
}

#[test]
fn the_root_key_is_zero() {
    assert_eq!(root_key_text(), "0");
}

#[test]
fn load_root_asks_for_the_root_key_and_takes_a_missing_record_for_none() {
    let mut service = MemoryService::new();
    service.objects.insert("1".to_string(), encode_root(5));
    let mut storage = Storage::new(service);
    assert_eq!(storage.load_root(), Ok(None));
    storage.service.objects.insert("0".to_string(), encode_root(7));
    assert_eq!(storage.load_root(), Ok(Some(7)));
    storage.service.objects.insert("0".to_string(), vec![1, 2, 3]);
    assert_eq!(storage.load_root(), Ok(None));
    assert_eq!(storage.service.objects.len(), 2);
}
