//! The storage layer: payloads are kept in a backend under the hash of
//! their content, and checked against that hash when they come back.

use crate::abstracts::ServiceTrait;
use crate::error::Error;
use crate::hash::{calculate_hash, content_hash};
use vstd::bytes::{
    lemma_auto_spec_u64_to_from_le_bytes, spec_u64_from_le_bytes, spec_u64_to_le_bytes,
    u64_from_le_bytes, u64_to_le_bytes,
};
use vstd::prelude::*;
use vstd::slice::slice_subrange;
use vstd::string::*;

verus! {

/// The key of the root record.
pub open spec fn root_key() -> Seq<char> {
    seq!['0']
}

/// The key of the root record, as the text that a backend is given.
pub fn root_key_text() -> (key: &'static str)
    ensures
        key@ == root_key(),
{
    proof {
        reveal_strlit("0");
        assert("0"@ =~= root_key());
    }
    "0"
}

/// Number of bytes in the root record.
pub const ROOT_RECORD_LEN: usize = 8;

/// The text of the error for a payload that does not match its key.
pub open spec fn mismatch_text() -> Seq<char> {
    "content hash mismatch"@
}

/// The root record of a pool of `capacity` blocks: the capacity as eight
/// bytes, lowest first.
pub open spec fn root_record(capacity: u64) -> Seq<u8> {
    spec_u64_to_le_bytes(capacity)
}

/// The capacity that a root record holds: that of its first eight bytes, or
/// nothing where the record is shorter.
pub open spec fn root_capacity(record: Seq<u8>) -> Option<u64> {
    if record.len() >= ROOT_RECORD_LEN {
        Some(spec_u64_from_le_bytes(record.subrange(0, ROOT_RECORD_LEN as int)))
    } else {
        None
    }
}

/// A root record gives back the capacity it was made from.
pub proof fn lemma_root_record_round_trip(capacity: u64)
    ensures
        root_record(capacity).len() == ROOT_RECORD_LEN,
        root_capacity(root_record(capacity)) == Some(capacity),
{
    lemma_auto_spec_u64_to_from_le_bytes();
    assert(root_record(capacity).subrange(0, ROOT_RECORD_LEN as int) =~= root_record(capacity));
}

/// Writes the root record of a pool of `capacity` blocks.
pub fn encode_root(capacity: u64) -> (record: Vec<u8>)
    ensures
        record@ == root_record(capacity),
{
    u64_to_le_bytes(capacity)
}

/// Reads the capacity out of a root record.
pub fn decode_root(record: &[u8]) -> (capacity: Option<u64>)
    ensures
        capacity == root_capacity(record@),
{
    if record.len() >= ROOT_RECORD_LEN {
        Some(u64_from_le_bytes(slice_subrange(record, 0, ROOT_RECORD_LEN)))
    } else {
        None
    }
}

/// What `save` returns once the backend has answered: the key where the
/// backend took the payload, else the backend's error.
pub fn saved(hash: String, outcome: Result<(), Error>) -> (result: Result<String, Error>)
    ensures
        match outcome {
            Ok(_) => result == Ok::<String, Error>(hash),
            Err(e) => result == Err::<String, Error>(e),
        },
{
    match outcome {
        Ok(_) => Ok(hash),
        Err(e) => Err(e),
    }
}

/// What `loading` returns once the backend has answered: the payload where
/// its content hash is the key it was asked for, `ConnectorFailure` where
/// it is not, else the backend's error.
pub fn verified_payload(hash: &str, fetched: Result<Vec<u8>, Error>) -> (result: Result<
    Vec<u8>,
    Error,
>)
    ensures
        match fetched {
            Ok(payload) => if content_hash(payload@) == hash@ {
                result == Ok::<Vec<u8>, Error>(payload)
            } else {
                result matches Err(Error::ConnectorFailure(text)) && text@ == mismatch_text()
            },
            Err(e) => result == Err::<Vec<u8>, Error>(e),
        },
{
    match fetched {
        Ok(payload) => {
            let actual = calculate_hash(payload.as_slice());
            if actual == String::from_str(hash) {
                Ok(payload)
            } else {
                Err(Error::ConnectorFailure(String::from_str("content hash mismatch")))
            }
        },
        Err(e) => Err(e),
    }
}

/// What `load_root` returns once the backend has answered: the capacity in
/// the record, nothing where the backend holds no record or a record that
/// is too short, else the backend's error.
pub fn root_outcome(fetched: Result<Vec<u8>, Error>) -> (result: Result<Option<u64>, Error>)
    ensures
        match fetched {
            Ok(record) => result == Ok::<Option<u64>, Error>(root_capacity(record@)),
            Err(Error::NotFound) => result == Ok::<Option<u64>, Error>(None),
            Err(e) => result == Err::<Option<u64>, Error>(e),
        },
{
    match fetched {
        Ok(record) => Ok(decode_root(record.as_slice())),
        Err(Error::NotFound) => Ok(None),
        Err(e) => Err(e),
    }
}

/// A storage backend together with the rules for keys: what goes in is
/// keyed by its content hash, and what comes out is checked against its
/// key.
pub struct Storage<T: ServiceTrait> {
    /// The backend.
    pub service: T,
}

impl<T: ServiceTrait> Storage<T> {
    /// Wraps a backend.
    pub fn new(service: T) -> (storage: Storage<T>)
        ensures
            storage.service == service,
    {
        Storage { service }
    }

    /// Stores `data` in the backend under its content hash and gives the
    /// hash. Fails with the backend's error where the backend fails.
    pub fn save(&mut self, data: &[u8]) -> (result: Result<String, Error>)
        ensures
            result matches Ok(hash) ==> hash@ == content_hash(data@),
    {
        let hash = calculate_hash(data);
        let outcome = self.service.put(hash.as_str(), data);
        saved(hash, outcome)
    }

    /// Fetches the payload stored under `hash` and checks it against the
    /// key. The storage itself is left as it is. Fails with
    /// `ConnectorFailure` where the payload does not hash to `hash`, and
    /// with the backend's error where the backend fails.
    pub fn loading(&mut self, hash: &str) -> (result: Result<Vec<u8>, Error>)
        ensures
            *final(self) == *old(self),
            result matches Ok(payload) ==> content_hash(payload@) == hash@,
    {
        let fetched = self.service.get(hash);
        verified_payload(hash, fetched)
    }

    /// Binds the backend to a pool of `capacity` blocks: stores the root
    /// record, which `encode_root` writes, under the root key, which
    /// `root_key_text` gives. Fails with the backend's error where the
    /// backend fails.
    pub fn binding(&mut self, capacity: u64) -> (result: Result<(), Error>) {
        let record = encode_root(capacity);
        self.service.put(root_key_text(), record.as_slice())
    }

    /// Fetches the root record, under the root key that `root_key_text`
    /// gives, and gives the capacity it holds, or nothing where the backend
    /// has no record or one that is too short: a missing record is no
    /// error. The storage itself is left as it is. Fails with the backend's
    /// error where the backend fails otherwise.
    pub fn load_root(&mut self) -> (result: Result<Option<u64>, Error>)
        ensures
            *final(self) == *old(self),
            result != Err::<Option<u64>, Error>(Error::NotFound),
    {
        let fetched = self.service.get(root_key_text());
        root_outcome(fetched)
    }
}

} // verus!
