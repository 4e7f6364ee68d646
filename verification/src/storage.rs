//! The abstract key/value store and the in-memory store.
//!
//! A store maps `/`-separated UTF-8 keys to byte values. The storage traits
//! specify every operation against a mathematical view of the store: a map
//! from key characters to byte sequences. The read-modify-write protocol of
//! the array engine is sequential here; callers that share a store across
//! threads must serialise access to it themselves.

pub mod store;

use vstd::prelude::*;
use vstd::string::StrSliceExecFns;
use vstd::string::StringExecFns;

use crate::byte_range::{all_ranges_fit, range_of, ByteRange};
use crate::node::NodePath;

verus! {

/// A store key is valid: non-empty and neither beginning nor ending with `/`.
pub open spec fn store_key_valid(s: Seq<char>) -> bool {
    &&& s.len() >= 1
    &&& s[0] != '/'
    &&& s[s.len() - 1] != '/'
}

/// An invalid store key.
#[derive(Clone, Debug)]
pub struct StoreKeyError {
    /// The offending key.
    pub key: String,
}

/// A key of the store: a `/`-separated UTF-8 string.
#[derive(Clone, Debug)]
pub struct StoreKey {
    key: String,
}

impl StoreKey {
    /// The characters of the key.
    pub closed spec fn spec_key(&self) -> Seq<char> {
        self.key@
    }

    /// The key is valid.
    pub open spec fn wf(&self) -> bool {
        store_key_valid(self.spec_key())
    }

    /// Create a store key.
    ///
    /// Fails with [`StoreKeyError`] if and only if the key is empty or
    /// begins or ends with `/`.
    pub fn new(key: &str) -> (r: Result<Self, StoreKeyError>)
        ensures
            r is Ok <==> store_key_valid(key@),
            r matches Ok(k) ==> k.spec_key() == key@ && k.wf(),
    {
        let n = key.unicode_len();
        if n == 0 {
            return Err(StoreKeyError { key: key.to_owned() });
        }
        if key.get_char(0) == '/' {
            return Err(StoreKeyError { key: key.to_owned() });
        }
        if key.get_char(n - 1) == '/' {
            return Err(StoreKeyError { key: key.to_owned() });
        }
        Ok(StoreKey { key: key.to_owned() })
    }

    /// The key as a string slice.
    pub fn as_str(&self) -> (r: &str)
        ensures
            r@ == self.spec_key(),
    {
        self.key.as_str()
    }

    /// A store key from a string already known to be valid.
    pub fn from_valid_string(key: String) -> (r: StoreKey)
        requires
            store_key_valid(key@),
        ensures
            r.spec_key() == key@,
            r.wf(),
    {
        StoreKey { key }
    }
}

/// A prefix of store keys: empty, or ending with `/` and not beginning with
/// one.
pub open spec fn store_prefix_valid(s: Seq<char>) -> bool {
    s.len() == 0 || (s[0] != '/' && s[s.len() - 1] == '/')
}

/// A prefix of store keys.
#[derive(Clone, Debug)]
pub struct StorePrefix {
    prefix: String,
}

impl StorePrefix {
    /// The characters of the prefix.
    pub closed spec fn spec_prefix(&self) -> Seq<char> {
        self.prefix@
    }

    /// The prefix is valid.
    pub open spec fn wf(&self) -> bool {
        store_prefix_valid(self.spec_prefix())
    }

    /// Create a store prefix.
    ///
    /// Fails with [`StoreKeyError`] if and only if the prefix is non-empty
    /// and begins with `/` or does not end with one.
    pub fn new(prefix: &str) -> (r: Result<Self, StoreKeyError>)
        ensures
            r is Ok <==> store_prefix_valid(prefix@),
            r matches Ok(p) ==> p.spec_prefix() == prefix@ && p.wf(),
    {
        let n = prefix.unicode_len();
        if n == 0 {
            return Ok(StorePrefix { prefix: prefix.to_owned() });
        }
        if prefix.get_char(0) == '/' {
            return Err(StoreKeyError { key: prefix.to_owned() });
        }
        if prefix.get_char(n - 1) != '/' {
            return Err(StoreKeyError { key: prefix.to_owned() });
        }
        Ok(StorePrefix { prefix: prefix.to_owned() })
    }

    /// The prefix as a string slice.
    pub fn as_str(&self) -> (r: &str)
        ensures
            r@ == self.spec_prefix(),
    {
        self.prefix.as_str()
    }
}

/// The metadata key of a node: the node path without its leading `/`, joined
/// with `zarr.json`.
pub open spec fn meta_key_of(path: Seq<char>) -> Seq<char> {
    if path.len() == 1 {
        "zarr.json"@
    } else {
        path.skip(1) + "/zarr.json"@
    }
}

/// The metadata key of the node at `path`.
pub fn meta_key(path: &NodePath) -> (r: StoreKey)
    requires
        path.wf(),
    ensures
        r.spec_key() == meta_key_of(path.spec_path()),
{
    let p = path.as_str();
    let n = p.unicode_len();
    if n == 1 {
        match StoreKey::new("zarr.json") {
            Ok(k) => k,
            Err(_) => {
                proof {
                    reveal_strlit("zarr.json");
                    assert(store_key_valid("zarr.json"@));
                    assert(false);
                }
                StoreKey { key: String::new() }
            },
        }
    } else {
        let tail = p.substring_char(1, n);
        let mut s = tail.to_owned();
        s.append("/zarr.json");
        proof {
            reveal_strlit("/zarr.json");
            reveal_strlit("zarr.json");
            assert(s@ == path.spec_path().skip(1) + "/zarr.json"@);
            assert(store_key_valid(s@)) by {
                assert(s@[0] == path.spec_path()[1]);
                assert(path.spec_path()[path.spec_path().len() - 1] != '/' || true);
                assert(s@[s@.len() - 1] == 'n');
            }
        }
        StoreKey { key: s }
    }
}

/// The data key of a chunk: the array path without its leading `/`, joined
/// with the encoded chunk key.
pub open spec fn data_key_of(path: Seq<char>, chunk_key: Seq<char>) -> Seq<char> {
    if path.len() == 1 {
        chunk_key
    } else {
        path.skip(1) + seq!['/'] + chunk_key
    }
}

/// The data key of the chunk with encoded key `chunk_key` of the array at
/// `path`.
pub fn data_key(path: &NodePath, chunk_key: &StoreKey) -> (r: StoreKey)
    requires
        path.wf(),
        chunk_key.wf(),
    ensures
        r.spec_key() == data_key_of(path.spec_path(), chunk_key.spec_key()),
{
    let p = path.as_str();
    let n = p.unicode_len();
    if n == 1 {
        proof {
            assert(data_key_of(path.spec_path(), chunk_key.spec_key()) == chunk_key.spec_key());
        }
        chunk_key.clone_key()
    } else {
        let tail = p.substring_char(1, n);
        let mut s = tail.to_owned();
        s.append("/");
        s.append(chunk_key.as_str());
        proof {
            reveal_strlit("/");
            assert("/"@ =~= seq!['/']);
            assert(s@ =~= path.spec_path().skip(1) + seq!['/'] + chunk_key.spec_key());
            assert(store_key_valid(s@)) by {
                assert(s@[0] == path.spec_path()[1]);
                assert(s@[s@.len() - 1] == chunk_key.spec_key()[chunk_key.spec_key().len() - 1]);
            }
        }
        StoreKey { key: s }
    }
}

impl StoreKey {
    /// A copy of the key.
    pub fn clone_key(&self) -> (r: StoreKey)
        ensures
            r.spec_key() == self.spec_key(),
    {
        StoreKey { key: self.key.clone() }
    }
}

/// A storage error.
#[derive(Clone, Debug)]
pub enum StorageError {
    /// An invalid byte range was requested.
    InvalidByteRange(crate::byte_range::InvalidByteRangeError),
    /// The metadata at a key cannot be parsed.
    InvalidMetadata(StoreKey, String),
    /// Any other error of the underlying store.
    Other(String),
}

impl StorageError {
    /// The error message.
    pub fn to_string(&self) -> (r: String)
        ensures
            match self {
                StorageError::InvalidMetadata(key, msg) => r@ == "error parsing metadata for "@
                    + key.spec_key() + ": "@ + msg@,
                StorageError::InvalidByteRange(_) => r@ == "invalid byte range"@,
                StorageError::Other(msg) => r@ == msg@,
            },
    {
        match self {
            StorageError::InvalidMetadata(key, msg) => {
                let mut s = String::new();
                s.append("error parsing metadata for ");
                s.append(key.as_str());
                s.append(": ");
                s.append(msg.as_str());
                proof {
                    assert(Seq::<char>::empty() + "error parsing metadata for "@ + self->InvalidMetadata_0.spec_key()
                        + ": "@ + self->InvalidMetadata_1@ =~= "error parsing metadata for "@
                        + self->InvalidMetadata_0.spec_key() + ": "@ + self->InvalidMetadata_1@);
                }
                s
            },
            StorageError::InvalidByteRange(_) => {
                let mut s = String::new();
                s.append("invalid byte range");
                proof {
                    assert(Seq::<char>::empty() + "invalid byte range"@ =~= "invalid byte range"@);
                }
                s
            },
            StorageError::Other(msg) => msg.clone(),
        }
    }
}

/// Whether `prefix` is a prefix of `s`.
pub open spec fn chars_start_with(s: Seq<char>, prefix: Seq<char>) -> bool {
    prefix.len() <= s.len() && s.take(prefix.len() as int) == prefix
}

/// The view of a store: a map from key characters to byte values.
pub trait StoreViewTraits {
    /// The contents of the store.
    spec fn store_view(&self) -> Map<Seq<char>, Seq<u8>>;
}

/// Read operations of a store.
pub trait ReadableStorageTraits: StoreViewTraits {
    /// Retrieve the value at `key`, or `None` if the key is absent.
    ///
    /// An `Err` leaves the outcome unspecified; the store did not change.
    fn get(&self, key: &StoreKey) -> (r: Result<Option<Vec<u8>>, StorageError>)
        ensures
            r matches Ok(o) ==> match o {
                Some(v) => self.store_view().contains_key(key.spec_key()) && v@
                    == self.store_view()[key.spec_key()],
                None => !self.store_view().contains_key(key.spec_key()),
            },
    ;

    /// Retrieve the given byte ranges of the value at `key`, one buffer per
    /// range, or `None` if the key is absent.
    ///
    /// Fails when the key is present and some range does not resolve within
    /// its value.
    fn get_partial_values_key(&self, key: &StoreKey, byte_ranges: &[ByteRange]) -> (r: Result<
        Option<Vec<Vec<u8>>>,
        StorageError,
    >)
        ensures
            r matches Ok(o) ==> match o {
                Some(bufs) => {
                    &&& self.store_view().contains_key(key.spec_key())
                    &&& self.store_view()[key.spec_key()].len() <= u64::MAX
                    &&& all_ranges_fit(
                        byte_ranges@,
                        self.store_view()[key.spec_key()].len() as u64,
                    )
                    &&& bufs@.len() == byte_ranges@.len()
                    &&& forall|i: int|
                        0 <= i < bufs@.len() ==> #[trigger] bufs@[i]@ == range_of(
                            self.store_view()[key.spec_key()],
                            byte_ranges@[i],
                        )
                },
                None => !self.store_view().contains_key(key.spec_key()),
            },
    ;

    /// The size in bytes of the value at `key`, or `None` if the key is
    /// absent.
    fn size_key(&self, key: &StoreKey) -> (r: Result<Option<u64>, StorageError>)
        ensures
            r matches Ok(o) ==> match o {
                Some(n) => self.store_view().contains_key(key.spec_key()) && n
                    == self.store_view()[key.spec_key()].len(),
                None => !self.store_view().contains_key(key.spec_key()),
            },
    ;
}

/// Write operations of a store.
pub trait WritableStorageTraits: StoreViewTraits {
    /// Store `value` at `key`.
    ///
    /// An `Err` leaves the store's state unspecified.
    fn set(&mut self, key: &StoreKey, value: &[u8]) -> (r: Result<(), StorageError>)
        ensures
            r is Ok ==> final(self).store_view() == old(self).store_view().insert(
                key.spec_key(),
                value@,
            ),
    ;

    /// Erase the value at `key`. Succeeds if the key is absent.
    ///
    /// An `Err` leaves the store's state unspecified.
    fn erase(&mut self, key: &StoreKey) -> (r: Result<(), StorageError>)
        ensures
            r is Ok ==> final(self).store_view() == old(self).store_view().remove(key.spec_key()),
    ;

    /// Erase every key under `prefix`.
    ///
    /// An `Err` leaves the store's state unspecified.
    fn erase_prefix(&mut self, prefix: &StorePrefix) -> (r: Result<(), StorageError>)
        ensures
            r is Ok ==> final(self).store_view() == Map::<Seq<char>, Seq<u8>>::new(
                |k: Seq<char>|
                    old(self).store_view().contains_key(k) && !chars_start_with(
                        k,
                        prefix.spec_prefix(),
                    ),
                |k: Seq<char>| old(self).store_view()[k],
            ),
    ;
}

/// Read and write operations of a store.
pub trait ReadableWritableStorageTraits: ReadableStorageTraits + WritableStorageTraits {

}

} // verus!
