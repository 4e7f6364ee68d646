//! The in-memory store: a verified key/value store backed by a vector of
//! entries with pairwise distinct keys.

use vstd::prelude::*;
use vstd::string::StrSliceExecFns;

use crate::byte_range::{extract_byte_ranges, ByteRange};
use crate::storage::{
    chars_start_with, ReadableStorageTraits, ReadableWritableStorageTraits, StorageError,
    StoreKey, StorePrefix, StoreViewTraits, WritableStorageTraits,
};

verus! {

/// One key/value pair of the in-memory store.
struct MemoryStoreEntry {
    key: String,
    value: Vec<u8>,
}

/// The keys of the entries are pairwise distinct.
spec fn entries_distinct(es: Seq<MemoryStoreEntry>) -> bool {
    forall|i: int, j: int|
        0 <= i < j < es.len() ==> (#[trigger] es[i].key)@ != (#[trigger] es[j].key)@
}

/// The index of the entry holding key `k`.
spec fn entry_index_of(es: Seq<MemoryStoreEntry>, k: Seq<char>) -> int {
    choose|i: int| 0 <= i < es.len() && (#[trigger] es[i].key)@ == k
}

/// The map view of a sequence of entries.
spec fn entries_view(es: Seq<MemoryStoreEntry>) -> Map<Seq<char>, Seq<u8>> {
    Map::new(
        |k: Seq<char>| exists|i: int| 0 <= i < es.len() && (#[trigger] es[i].key)@ == k,
        |k: Seq<char>| es[entry_index_of(es, k)].value@,
    )
}

/// With distinct keys, the entry index of a present key is unique.
proof fn lemma_entry_index(es: Seq<MemoryStoreEntry>, i: int)
    requires
        entries_distinct(es),
        0 <= i < es.len(),
    ensures
        entry_index_of(es, es[i].key@) == i,
{
    let k = es[i].key@;
    let j = entry_index_of(es, k);
    assert(0 <= j < es.len() && es[j].key@ == k);
    if i < j {
        assert(es[i].key@ != es[j].key@);
    } else if j < i {
        assert(es[j].key@ != es[i].key@);
    }
}

/// An in-memory key/value store.
pub struct MemoryStore {
    entries: Vec<MemoryStoreEntry>,
}

impl MemoryStore {
    #[verifier::type_invariant]
    spec fn inv(&self) -> bool {
        entries_distinct(self.entries@)
    }

    /// Create an empty in-memory store.
    pub fn new() -> (r: Self)
        ensures
            r.store_view() == Map::<Seq<char>, Seq<u8>>::empty(),
    {
        let s = MemoryStore { entries: Vec::new() };
        proof {
            assert(entries_view(s.entries@) =~= Map::<Seq<char>, Seq<u8>>::empty());
        }
        s
    }

    /// Find the index of the entry holding `key`.
    fn find(&self, key: &StoreKey) -> (r: Option<usize>)
        ensures
            r matches Some(i) ==> i < self.entries@.len() && self.entries@[i as int].key@
                == key.spec_key(),
            r is None ==> !self.store_view().contains_key(key.spec_key()),
    {
        let mut i: usize = 0;
        while i < self.entries.len()
            invariant
                0 <= i <= self.entries@.len(),
                forall|j: int|
                    0 <= j < i ==> (#[trigger] self.entries@[j].key)@ != key.spec_key(),
            decreases self.entries@.len() - i,
        {
            if crate::str_equal(self.entries[i].key.as_str(), key.as_str()) {
                return Some(i);
            }
            i = i + 1;
        }
        None
    }
}

impl StoreViewTraits for MemoryStore {
    closed spec fn store_view(&self) -> Map<Seq<char>, Seq<u8>> {
        entries_view(self.entries@)
    }
}

impl ReadableStorageTraits for MemoryStore {
    fn get(&self, key: &StoreKey) -> (r: Result<Option<Vec<u8>>, StorageError>) {
        proof {
            use_type_invariant(&*self);
        }
        match self.find(key) {
            Some(i) => {
                proof {
                    lemma_entry_index(self.entries@, i as int);
                }
                Ok(Some(self.entries[i].value.clone()))
            },
            None => Ok(None),
        }
    }

    fn get_partial_values_key(&self, key: &StoreKey, byte_ranges: &[ByteRange]) -> (r: Result<
        Option<Vec<Vec<u8>>>,
        StorageError,
    >) {
        proof {
            use_type_invariant(&*self);
        }
        match self.find(key) {
            Some(i) => {
                proof {
                    lemma_entry_index(self.entries@, i as int);
                }
                let vlen: usize = self.entries[i].value.len();
                proof {
                    assert(self.entries@[i as int].value@.len() == vlen);
                }
                match extract_byte_ranges(self.entries[i].value.as_slice(), byte_ranges) {
                    Ok(bufs) => Ok(Some(bufs)),
                    Err(e) => Err(StorageError::InvalidByteRange(e)),
                }
            },
            None => Ok(None),
        }
    }

    fn size_key(&self, key: &StoreKey) -> (r: Result<Option<u64>, StorageError>) {
        proof {
            use_type_invariant(&*self);
        }
        match self.find(key) {
            Some(i) => {
                proof {
                    lemma_entry_index(self.entries@, i as int);
                }
                Ok(Some(self.entries[i].value.len() as u64))
            },
            None => Ok(None),
        }
    }
}

impl WritableStorageTraits for MemoryStore {
    fn set(&mut self, key: &StoreKey, value: &[u8]) -> (r: Result<(), StorageError>) {
        proof {
            use_type_invariant(&*self);
        }
        let ghost old_es = self.entries@;
        let found = self.find(key);
        let mut entries: Vec<MemoryStoreEntry> = Vec::new();
        core::mem::swap(&mut entries, &mut self.entries);
        let new_entry = MemoryStoreEntry {
            key: key.as_str().to_owned(),
            value: vstd::slice::slice_to_vec(value),
        };
        match found {
            Some(i) => {
                entries[i] = new_entry;
                proof {
                    assert(entries_distinct(entries@)) by {
                        assert(forall|j: int|
                            0 <= j < entries@.len() && j != i ==> (#[trigger] entries@[j].key)@
                                == old_es[j].key@);
                        assert forall|a: int, b: int|
                            0 <= a < b < entries@.len() implies (#[trigger] entries@[a].key)@ != (
                        #[trigger] entries@[b].key)@ by {
                            if a != i && b != i {
                                assert(old_es[a].key@ != old_es[b].key@);
                            } else if a == i {
                                lemma_entry_index(old_es, i as int);
                                assert(old_es[b].key@ != old_es[i as int].key@);
                            } else {
                                lemma_entry_index(old_es, i as int);
                                assert(old_es[a].key@ != old_es[i as int].key@);
                            }
                        }
                    }
                    assert(entries_view(entries@) =~= entries_view(old_es).insert(
                        key.spec_key(),
                        value@,
                    )) by {
                        let k = key.spec_key();
                        assert forall|kk: Seq<char>|
                            entries_view(entries@).contains_key(kk) == entries_view(
                                old_es,
                            ).insert(k, value@).contains_key(kk) by {
                            if kk == k {
                                assert(entries@[i as int].key@ == kk);
                            } else {
                                assert forall|j: int|
                                    0 <= j < entries@.len() && (#[trigger] entries@[j].key)@ == kk
                                        implies old_es[j].key@ == kk by {
                                    assert(j != i);
                                }
                                assert forall|j: int|
                                    0 <= j < old_es.len() && (#[trigger] old_es[j].key)@ == kk
                                        implies entries@[j].key@ == kk by {
                                    lemma_entry_index(old_es, i as int);
                                    assert(j != i);
                                }
                            }
                        }
                        assert forall|kk: Seq<char>|
                            #[trigger] entries_view(entries@).contains_key(kk) implies
                            entries_view(entries@)[kk] == entries_view(old_es).insert(
                                k,
                                value@,
                            )[kk] by {
                            let idx = entry_index_of(entries@, kk);
                            assert(0 <= idx < entries@.len() && entries@[idx].key@ == kk);
                            lemma_entry_index(entries@, idx);
                            if kk == k {
                                lemma_entry_index(entries@, i as int);
                            } else {
                                assert(idx != i);
                                lemma_entry_index(old_es, idx);
                            }
                        }
                    }
                }
                self.entries = entries;
                Ok(())
            },
            None => {
                entries.push(new_entry);
                proof {
                    let n = old_es.len() as int;
                    assert(entries_distinct(entries@)) by {
                        assert forall|a: int, b: int|
                            0 <= a < b < entries@.len() implies (#[trigger] entries@[a].key)@ != (
                        #[trigger] entries@[b].key)@ by {
                            if b < n {
                                assert(old_es[a].key@ != old_es[b].key@);
                            } else {
                                assert(old_es[a].key@ != key.spec_key());
                            }
                        }
                    }
                    assert(entries_view(entries@) =~= entries_view(old_es).insert(
                        key.spec_key(),
                        value@,
                    )) by {
                        let k = key.spec_key();
                        assert forall|kk: Seq<char>|
                            entries_view(entries@).contains_key(kk) == entries_view(
                                old_es,
                            ).insert(k, value@).contains_key(kk) by {
                            if kk == k {
                                assert(entries@[n].key@ == kk);
                            } else {
                                assert forall|j: int|
                                    0 <= j < entries@.len() && (#[trigger] entries@[j].key)@ == kk
                                        implies j < n && old_es[j].key@ == kk by {}
                                assert forall|j: int|
                                    0 <= j < old_es.len() && (#[trigger] old_es[j].key)@ == kk
                                        implies entries@[j].key@ == kk by {}
                            }
                        }
                        assert forall|kk: Seq<char>|
                            #[trigger] entries_view(entries@).contains_key(kk) implies
                            entries_view(entries@)[kk] == entries_view(old_es).insert(
                                k,
                                value@,
                            )[kk] by {
                            let idx = entry_index_of(entries@, kk);
                            assert(0 <= idx < entries@.len() && entries@[idx].key@ == kk);
                            lemma_entry_index(entries@, idx);
                            if kk == k {
                                lemma_entry_index(entries@, n);
                            } else {
                                assert(idx != n);
                                lemma_entry_index(old_es, idx);
                            }
                        }
                    }
                }
                self.entries = entries;
                Ok(())
            },
        }
    }

    fn erase(&mut self, key: &StoreKey) -> (r: Result<(), StorageError>) {
        proof {
            use_type_invariant(&*self);
        }
        let found = self.find(key);
        match found {
            Some(i) => {
                self.remove_entry_at(i);
                Ok(())
            },
            None => {
                proof {
                    assert(entries_view(self.entries@) =~= entries_view(self.entries@).remove(
                        key.spec_key(),
                    ));
                }
                Ok(())
            },
        }
    }

    fn erase_prefix(&mut self, prefix: &StorePrefix) -> (r: Result<(), StorageError>) {
        let ghost pfx = prefix.spec_prefix();
        loop
            invariant
                pfx == prefix.spec_prefix(),
                forall|k: Seq<char>|
                    #[trigger] self.store_view().contains_key(k) ==> old(
                        self,
                    ).store_view().contains_key(k) && self.store_view()[k] == old(
                        self,
                    ).store_view()[k],
                forall|k: Seq<char>|
                    old(self).store_view().contains_key(k) && !chars_start_with(k, pfx)
                        ==> #[trigger] self.store_view().contains_key(k),
            ensures
                forall|k: Seq<char>|
                    #[trigger] self.store_view().contains_key(k) ==> old(
                        self,
                    ).store_view().contains_key(k) && self.store_view()[k] == old(
                        self,
                    ).store_view()[k],
                forall|k: Seq<char>|
                    old(self).store_view().contains_key(k) && !chars_start_with(k, pfx)
                        ==> #[trigger] self.store_view().contains_key(k),
                forall|k: Seq<char>|
                    #[trigger] self.store_view().contains_key(k) ==> !chars_start_with(k, pfx),
            decreases self.entries@.len(),
        {
            match self.find_prefixed(prefix) {
                Some(i) => {
                    proof {
                        use_type_invariant(&*self);
                    }
                    let ghost removed = self.entries@[i as int].key@;
                    self.remove_entry_at(i);
                    proof {
                        assert(chars_start_with(removed, pfx));
                    }
                },
                None => {
                    proof {
                        assert forall|k: Seq<char>|
                            #[trigger] self.store_view().contains_key(k) implies !chars_start_with(
                            k,
                            pfx,
                        ) by {
                            let i = choose|i: int|
                                0 <= i < self.entries@.len() && (#[trigger] self.entries@[i].key)@
                                    == k;
                            assert(!chars_start_with(self.entries@[i].key@, pfx));
                        }
                    }
                    break ;
                },
            }
        }
        proof {
            assert(self.store_view() =~= Map::<Seq<char>, Seq<u8>>::new(
                |k: Seq<char>|
                    old(self).store_view().contains_key(k) && !chars_start_with(
                        k,
                        prefix.spec_prefix(),
                    ),
                |k: Seq<char>| old(self).store_view()[k],
            ));
        }
        Ok(())
    }
}

impl MemoryStore {
    /// Find an entry whose key starts with `prefix`.
    fn find_prefixed(&self, prefix: &StorePrefix) -> (r: Option<usize>)
        ensures
            r matches Some(i) ==> i < self.entries@.len() && chars_start_with(
                self.entries@[i as int].key@,
                prefix.spec_prefix(),
            ),
            r is None ==> forall|j: int|
                0 <= j < self.entries@.len() ==> !chars_start_with(
                    (#[trigger] self.entries@[j].key)@,
                    prefix.spec_prefix(),
                ),
    {
        let plen = prefix.as_str().unicode_len();
        let mut i: usize = 0;
        while i < self.entries.len()
            invariant
                0 <= i <= self.entries@.len(),
                plen == prefix.spec_prefix().len(),
                forall|j: int|
                    0 <= j < i ==> !chars_start_with(
                        (#[trigger] self.entries@[j].key)@,
                        prefix.spec_prefix(),
                    ),
            decreases self.entries@.len() - i,
        {
            let klen = self.entries[i].key.as_str().unicode_len();
            let hit = if klen < plen {
                false
            } else {
                crate::str_equal(
                    self.entries[i].key.as_str().substring_char(0, plen),
                    prefix.as_str(),
                )
            };
            proof {
                assert(hit == chars_start_with(self.entries@[i as int].key@, prefix.spec_prefix()))
                    by {
                    if klen >= plen {
                        assert(self.entries@[i as int].key@.subrange(0, plen as int)
                            =~= self.entries@[i as int].key@.take(plen as int));
                    }
                }
            }
            if hit {
                return Some(i);
            }
            i = i + 1;
        }
        None
    }

    /// Remove the entry at index `i`.
    fn remove_entry_at(&mut self, i: usize)
        requires
            i < old(self).entries@.len(),
        ensures
            final(self).store_view() == old(self).store_view().remove(
                old(self).entries@[i as int].key@,
            ),
            final(self).entries@.len() == old(self).entries@.len() - 1,
    {
        proof {
            use_type_invariant(&*self);
        }
        let ghost old_es = self.entries@;
        let ghost k = old_es[i as int].key@;
        let mut entries: Vec<MemoryStoreEntry> = Vec::new();
        core::mem::swap(&mut entries, &mut self.entries);
        entries.remove(i);
        proof {
            assert(entries@ == old_es.remove(i as int));
            assert(entries_distinct(entries@)) by {
                assert forall|a: int, b: int|
                    0 <= a < b < entries@.len() implies (#[trigger] entries@[a].key)@ != (
                #[trigger] entries@[b].key)@ by {
                    let oa = if a < i {
                        a
                    } else {
                        a + 1
                    };
                    let ob = if b < i {
                        b
                    } else {
                        b + 1
                    };
                    assert(entries@[a] == old_es[oa]);
                    assert(entries@[b] == old_es[ob]);
                    assert(old_es[oa].key@ != old_es[ob].key@);
                }
            }
            assert(entries_view(entries@) =~= entries_view(old_es).remove(k)) by {
                assert forall|kk: Seq<char>|
                    entries_view(entries@).contains_key(kk) == entries_view(old_es).remove(
                        k,
                    ).contains_key(kk) by {
                    if kk == k {
                        assert forall|j: int|
                            0 <= j < entries@.len() implies (#[trigger] entries@[j].key)@ != k by {
                            let oj = if j < i {
                                j
                            } else {
                                j + 1
                            };
                            assert(entries@[j] == old_es[oj]);
                            if oj != i {
                                lemma_entry_index(old_es, i as int);
                                assert(old_es[oj].key@ != old_es[i as int].key@);
                            }
                        }
                    } else {
                        if entries_view(old_es).remove(k).contains_key(kk) {
                            let j = choose|j: int|
                                0 <= j < old_es.len() && (#[trigger] old_es[j].key)@ == kk;
                            let nj = if j < i {
                                j
                            } else {
                                j - 1
                            };
                            assert(j != i);
                            assert(entries@[nj] == old_es[j]);
                            assert(entries@[nj].key@ == kk);
                        }
                        if entries_view(entries@).contains_key(kk) {
                            let j = choose|j: int|
                                0 <= j < entries@.len() && (#[trigger] entries@[j].key)@ == kk;
                            let oj = if j < i {
                                j
                            } else {
                                j + 1
                            };
                            assert(entries@[j] == old_es[oj]);
                            assert(old_es[oj].key@ == kk);
                        }
                    }
                }
                assert forall|kk: Seq<char>|
                    #[trigger] entries_view(entries@).contains_key(kk) implies entries_view(
                    entries@,
                )[kk] == entries_view(old_es).remove(k)[kk] by {
                    let idx = entry_index_of(entries@, kk);
                    assert(0 <= idx < entries@.len() && entries@[idx].key@ == kk);
                    lemma_entry_index(entries@, idx);
                    let oidx = if idx < i {
                        idx
                    } else {
                        idx + 1
                    };
                    assert(entries@[idx] == old_es[oidx]);
                    lemma_entry_index(old_es, oidx);
                }
            }
        }
        self.entries = entries;
    }
}

impl ReadableWritableStorageTraits for MemoryStore {

}

} // verus!
