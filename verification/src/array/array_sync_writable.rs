//! Writing chunks and metadata; erasing chunks.

use vstd::prelude::*;

use crate::array::{Array, ArrayError};
use crate::array_subset::{coords_add, coords_sub, extracted_bytes, ArraySubset};
use crate::codec::codec_chain::{chain_decoding, chain_encoding};
use crate::codec::CodecOptions;
use crate::fill_value::all_fill;
use crate::indexing::{delinearise, shape_product};
use crate::storage::{meta_key, meta_key_of, StorageError, WritableStorageTraits};

verus! {

/// The view of a store after one chunk write: the chunk's key erased when
/// the chunk equals the fill value repeated, else set to the chain's
/// encoding of the chunk.
pub open spec fn spec_store_chunk_update(
    view: Map<Seq<char>, Seq<u8>>,
    a: Array,
    chunk_indices: Seq<u64>,
    chunk_bytes: Seq<u8>,
) -> Map<Seq<char>, Seq<u8>> {
    if all_fill(a.spec_fill_value().spec_bytes(), chunk_bytes) {
        view.remove(a.spec_chunk_key(chunk_indices))
    } else {
        view.insert(
            a.spec_chunk_key(chunk_indices),
            chain_encoding(
                a.spec_codecs().spec_array_to_bytes(),
                a.spec_codecs().spec_bytes_to_bytes(),
                chunk_bytes,
                a.spec_data_type().spec_size() as nat,
            ),
        )
    }
}

/// The slab of the packed buffer `chunks_bytes` that belongs to the chunk
/// at `c`, when the buffer covers the region of the `chunks` rectangle of
/// the chunk grid of `a`.
pub open spec fn spec_chunks_slab(
    a: Array,
    chunks: ArraySubset,
    chunks_bytes: Seq<u8>,
    c: Seq<u64>,
) -> Seq<u8> {
    extracted_bytes(
        chunks_bytes,
        coords_sub(a.spec_chunk_origin(c), a.spec_chunks_region_start(chunks)),
        a.spec_chunk_shape(c),
        a.spec_chunks_region_shape(chunks),
        a.spec_data_type().spec_size() as nat,
    )
}

/// The view of a store after the first `k` chunks of the `chunks` rectangle
/// are stored from the packed buffer `chunks_bytes`, taken in row-major
/// order of their coordinates: each chunk's key is updated with its slab of
/// the buffer.
pub open spec fn spec_store_chunks_fold(
    view: Map<Seq<char>, Seq<u8>>,
    a: Array,
    chunks: ArraySubset,
    chunks_bytes: Seq<u8>,
    k: int,
) -> Map<Seq<char>, Seq<u8>>
    decreases k,
{
    if k <= 0 {
        view
    } else {
        let c = coords_add(chunks.spec_start(), delinearise((k - 1) as nat, chunks.spec_shape()));
        spec_store_chunk_update(
            spec_store_chunks_fold(view, a, chunks, chunks_bytes, k - 1),
            a,
            c,
            spec_chunks_slab(a, chunks, chunks_bytes, c),
        )
    }
}

/// Every key that is not a chunk key of the array `a` is unchanged between
/// the two store views.
pub open spec fn preserves_non_chunk_keys(
    a: Array,
    old_view: Map<Seq<char>, Seq<u8>>,
    new_view: Map<Seq<char>, Seq<u8>>,
) -> bool {
    forall|k: Seq<char>|
        (forall|c: Seq<u64>| k != #[trigger] a.spec_chunk_key(c)) ==> ((
        #[trigger] new_view.contains_key(k)) == old_view.contains_key(k) && (
        new_view.contains_key(k) ==> new_view[k] == old_view[k]))
}

impl Array {
    /// Encode `chunk_bytes` and store the chunk at `chunk_indices`; a chunk
    /// equal to the fill value end to end erases the chunk's key instead.
    ///
    /// A representable in-grid chunk with an input of the wrong length is
    /// rejected, naming the two lengths, before the store is touched; a
    /// stored (non-fill) chunk decodes back to exactly the input.
    pub fn store_chunk_opt<TStorage: WritableStorageTraits>(
        &self,
        storage: &mut TStorage,
        chunk_indices: &[u64],
        chunk_bytes: Vec<u8>,
        options: &CodecOptions,
    ) -> (r: Result<(), ArrayError>)
        requires
            self.wf(),
        ensures
            r is Ok ==> chunk_bytes@.len() == self.spec_chunk_byte_size(chunk_indices@)
                && final(storage).store_view() == spec_store_chunk_update(
                old(storage).store_view(),
                *self,
                chunk_indices@,
                chunk_bytes@,
            ),
            r is Ok && !all_fill(self.spec_fill_value().spec_bytes(), chunk_bytes@)
                ==> chain_decoding(
                self.spec_codecs().spec_array_to_bytes(),
                self.spec_codecs().spec_bytes_to_bytes(),
                final(storage).store_view()[self.spec_chunk_key(chunk_indices@)],
                self.spec_chunk_byte_size(chunk_indices@),
                self.spec_data_type().spec_size() as nat,
            ) == Some(chunk_bytes@),
            self.spec_chunk_in_grid(chunk_indices@) && self.spec_chunk_byte_size(chunk_indices@)
                <= usize::MAX && chunk_bytes@.len() != self.spec_chunk_byte_size(chunk_indices@)
                ==> r == Err::<(), ArrayError>(
                ArrayError::InvalidBytesInputSize(
                    chunk_bytes@.len() as usize,
                    self.spec_chunk_byte_size(chunk_indices@) as u64,
                ),
            ),
            r matches Err(ArrayError::InvalidBytesInputSize(l, s)) ==> l == chunk_bytes@.len()
                && s == self.spec_chunk_byte_size(chunk_indices@) && l as u64 != s,
            r matches Err(e) && !(e is StorageError) ==> final(storage).store_view() == old(
                storage,
            ).store_view(),
    {
        let rep = match self.chunk_array_representation(chunk_indices) {
            Ok(rep) => rep,
            Err(e) => {
                return Err(e);
            },
        };
        let size = rep.size();
        if chunk_bytes.len() != size {
            return Err(ArrayError::InvalidBytesInputSize(chunk_bytes.len(), size as u64));
        }
        let key = self.chunk_key(chunk_indices);
        if self.fill_value().equals_all(chunk_bytes.as_slice()) {
            match storage.erase(&key) {
                Ok(_) => Ok(()),
                Err(e) => Err(ArrayError::StorageError(e)),
            }
        } else {
            let encoded = match self.codecs().encode(chunk_bytes, &rep, options) {
                Ok(enc) => enc,
                Err(e) => {
                    return Err(ArrayError::CodecError(e));
                },
            };
            match storage.set(&key, encoded.as_slice()) {
                Ok(_) => Ok(()),
                Err(e) => Err(ArrayError::StorageError(e)),
            }
        }
    }

    /// Encode `chunk_bytes` and store the chunk at `chunk_indices` with
    /// default codec options.
    pub fn store_chunk<TStorage: WritableStorageTraits>(
        &self,
        storage: &mut TStorage,
        chunk_indices: &[u64],
        chunk_bytes: Vec<u8>,
    ) -> (r: Result<(), ArrayError>)
        requires
            self.wf(),
        ensures
            r is Ok ==> chunk_bytes@.len() == self.spec_chunk_byte_size(chunk_indices@)
                && final(storage).store_view() == spec_store_chunk_update(
                old(storage).store_view(),
                *self,
                chunk_indices@,
                chunk_bytes@,
            ),
            r is Ok && !all_fill(self.spec_fill_value().spec_bytes(), chunk_bytes@)
                ==> chain_decoding(
                self.spec_codecs().spec_array_to_bytes(),
                self.spec_codecs().spec_bytes_to_bytes(),
                final(storage).store_view()[self.spec_chunk_key(chunk_indices@)],
                self.spec_chunk_byte_size(chunk_indices@),
                self.spec_data_type().spec_size() as nat,
            ) == Some(chunk_bytes@),
            self.spec_chunk_in_grid(chunk_indices@) && self.spec_chunk_byte_size(chunk_indices@)
                <= usize::MAX && chunk_bytes@.len() != self.spec_chunk_byte_size(chunk_indices@)
                ==> r == Err::<(), ArrayError>(
                ArrayError::InvalidBytesInputSize(
                    chunk_bytes@.len() as usize,
                    self.spec_chunk_byte_size(chunk_indices@) as u64,
                ),
            ),
            r matches Err(e) && !(e is StorageError) ==> final(storage).store_view() == old(
                storage,
            ).store_view(),
    {
        let options = CodecOptions::new();
        self.store_chunk_opt(storage, chunk_indices, chunk_bytes, &options)
    }

    /// Erase the chunk at `chunk_indices`. Succeeds if no chunk is stored
    /// there.
    pub fn erase_chunk<TStorage: WritableStorageTraits>(
        &self,
        storage: &mut TStorage,
        chunk_indices: &[u64],
    ) -> (r: Result<(), StorageError>)
        requires
            self.wf(),
        ensures
            r is Ok ==> final(storage).store_view() == old(storage).store_view().remove(
                self.spec_chunk_key(chunk_indices@),
            ),
    {
        let key = self.chunk_key(chunk_indices);
        storage.erase(&key)
    }

    /// Erase every chunk of the `chunks` rectangle of the chunk grid.
    ///
    /// Keys that are not chunk keys of this array are untouched; the erased
    /// chunks' keys are absent afterwards.
    pub fn erase_chunks<TStorage: WritableStorageTraits>(
        &self,
        storage: &mut TStorage,
        chunks: &ArraySubset,
    ) -> (r: Result<(), StorageError>)
        requires
            self.wf(),
            chunks.wf(),
            chunks.end_fits(),
            chunks.spec_num_elements() <= usize::MAX,
        ensures
            r is Ok ==> preserves_non_chunk_keys(
                *self,
                old(storage).store_view(),
                final(storage).store_view(),
            ),
    {
        let coords = chunks.indices();
        let mut i: usize = 0;
        while i < coords.len()
            invariant
                self.wf(),
                preserves_non_chunk_keys(
                    *self,
                    old(storage).store_view(),
                    storage.store_view(),
                ),
            decreases coords@.len() - i,
        {
            let key = self.chunk_key(coords[i].as_slice());
            let ghost pre = storage.store_view();
            match storage.erase(&key) {
                Ok(_) => {},
                Err(e) => {
                    return Err(e);
                },
            }
            proof {
                assert forall|k: Seq<char>|
                    (forall|c: Seq<u64>| k != #[trigger] self.spec_chunk_key(c)) implies ((
                #[trigger] storage.store_view().contains_key(k)) == old(
                    storage,
                ).store_view().contains_key(k) && (storage.store_view().contains_key(k)
                    ==> storage.store_view()[k] == old(storage).store_view()[k])) by {
                    assert(k != self.spec_chunk_key(coords@[i as int]@));
                }
            }
            i = i + 1;
        }
        Ok(())
    }

    /// Write the metadata of the array to `storage` under the array's
    /// metadata key: the UTF-8 bytes of the rendered metadata document.
    pub fn store_metadata<TStorage: WritableStorageTraits>(&self, storage: &mut TStorage) -> (r:
        Result<(), StorageError>)
        requires
            self.wf(),
        ensures
            r is Ok ==> exists|v: crate::json::JsonValue|
                #[trigger] crate::array::array_builder::array_metadata_value_matches(*self, v)
                    && final(storage).store_view() == old(storage).store_view().insert(
                    meta_key_of(self.spec_path()),
                    vstd::utf8::encode_utf8(crate::json::json_text(v)),
                ),
    {
        let key = meta_key(self.path());
        let text = self.metadata_to_string();
        let ghost doc = choose|v: crate::json::JsonValue|
            #[trigger] crate::array::array_builder::array_metadata_value_matches(*self, v)
                && text@ == crate::json::json_text(v);
        let bytes = vstd::string::StrSliceExecFns::as_bytes_vec(text.as_str());
        let r = storage.set(&key, bytes.as_slice());
        proof {
            if r is Ok {
                assert(final(storage).store_view() == old(storage).store_view().insert(
                    meta_key_of(self.spec_path()),
                    vstd::utf8::encode_utf8(crate::json::json_text(doc)),
                ));
            }
        }
        r
    }
}

impl Array {
    /// Store a tightly packed buffer covering the `chunks` rectangle of the
    /// chunk grid, chunk by chunk and without decoding.
    ///
    /// On success every chunk of the rectangle has been stored from its
    /// slab of the buffer, in row-major order; keys that are not chunk keys
    /// of this array are untouched.
    pub fn store_chunks_opt<TStorage: WritableStorageTraits>(
        &self,
        storage: &mut TStorage,
        chunks: &ArraySubset,
        chunks_bytes: Vec<u8>,
        options: &CodecOptions,
    ) -> (r: Result<(), ArrayError>)
        requires
            self.wf(),
            chunks.wf(),
            chunks.end_fits(),
        ensures
            r is Ok ==> preserves_non_chunk_keys(
                *self,
                old(storage).store_view(),
                final(storage).store_view(),
            ),
            r is Ok ==> final(storage).store_view() == spec_store_chunks_fold(
                old(storage).store_view(),
                *self,
                *chunks,
                chunks_bytes@,
                chunks.spec_num_elements() as int,
            ),
            chunks.spec_num_elements() == 0 ==> r is Ok,
            r matches Err(ArrayError::InvalidBytesInputSize(l, s)) ==> l == chunks_bytes@.len()
                && l as u64 != s && final(storage).store_view() == old(storage).store_view() && (
            chunks.spec_start().len() == self.spec_shape().len() ==> s == shape_product(
                self.spec_chunks_region_shape(*chunks),
            ) * self.spec_data_type().spec_size()),
    {
        if chunks.is_empty() {
            proof {
                let i = choose|i: int|
                    0 <= i < chunks.spec_shape().len() && #[trigger] chunks.spec_shape()[i] == 0;
                crate::array_subset::lemma_axis_zero_product(chunks.spec_shape(), i);
            }
            return Ok(());
        }
        proof {
            assert(crate::indexing::shape_positive(chunks.spec_shape())) by {
                assert(forall|i: int|
                    0 <= i < chunks.spec_shape().len() ==> (#[trigger] chunks.spec_shape()[i])
                        > 0);
            }
            crate::indexing::lemma_shape_product_positive(chunks.spec_shape());
        }
        let region = match self.chunks_subset(chunks) {
            Ok(s) => s,
            Err(e) => {
                return Err(e);
            },
        };
        let num_elements = match crate::indexing::checked_num_elements(region.shape()) {
            Some(n) => n,
            None => {
                return Err(ArrayError::InvalidArraySubset);
            },
        };
        let esize = self.data_type().size();
        let expected = match num_elements.checked_mul(esize as u64) {
            Some(b) => b,
            None => {
                return Err(ArrayError::InvalidArraySubset);
            },
        };
        if chunks_bytes.len() as u64 != expected {
            return Err(ArrayError::InvalidBytesInputSize(chunks_bytes.len(), expected));
        }
        let chunk_coords = match crate::indexing::checked_num_elements(chunks.shape()) {
            Some(n) => n,
            None => {
                return Err(ArrayError::InvalidArraySubset);
            },
        };
        if chunk_coords > usize::MAX as u64 {
            return Err(ArrayError::InvalidArraySubset);
        }
        let chunks_bytes_len: usize = chunks_bytes.len();
        let coords = chunks.indices();
        let mut ci: usize = 0;
        while ci < coords.len()
            invariant
                self.wf(),
                chunks.wf(),
                region.wf(),
                region.end_fits(),
                esize == self.spec_data_type().spec_size(),
                esize >= 1,
                chunks_bytes@.len() == shape_product(region.spec_shape()) * esize,
                chunks_bytes@.len() == chunks_bytes_len,
                0 <= ci <= coords@.len(),
                chunks.spec_num_elements() > 0,
                coords@.len() == chunks.spec_num_elements(),
                forall|k: int|
                    0 <= k < coords@.len() ==> #[trigger] coords@[k]@ == coords_add(
                        chunks.spec_start(),
                        delinearise(k as nat, chunks.spec_shape()),
                    ),
                chunks.spec_num_elements() > 0 && chunks.spec_start().len()
                    == self.spec_shape().len() ==> region.spec_start()
                    == self.spec_chunks_region_start(*chunks) && region.spec_shape()
                    == self.spec_chunks_region_shape(*chunks),
                storage.store_view() == spec_store_chunks_fold(
                    old(storage).store_view(),
                    *self,
                    *chunks,
                    chunks_bytes@,
                    ci as int,
                ),
                preserves_non_chunk_keys(
                    *self,
                    old(storage).store_view(),
                    storage.store_view(),
                ),
            decreases coords@.len() - ci,
        {
            let chunk_indices = &coords[ci];
            let chunk_ss = match self.chunk_subset(chunk_indices.as_slice()) {
                Ok(s) => s,
                Err(e) => {
                    return Err(e);
                },
            };
            // the chunk must lie within the packed region
            let mut origin_ok = true;
            let cs_start = chunk_ss.start();
            let region_start = region.start();
            if cs_start.len() != region_start.len() {
                return Err(ArrayError::InvalidArraySubset);
            }
            let mut t: usize = 0;
            while t < cs_start.len()
                invariant
                    0 <= t <= cs_start@.len(),
                    cs_start@.len() == region_start@.len(),
                    cs_start@ == chunk_ss.spec_start(),
                    region_start@ == region.spec_start(),
                    origin_ok ==> forall|j: int|
                        0 <= j < t ==> (#[trigger] region_start@[j]) <= cs_start@[j],
                decreases cs_start@.len() - t,
            {
                if region_start[t] > cs_start[t] {
                    origin_ok = false;
                }
                t = t + 1;
            }
            if !origin_ok {
                return Err(ArrayError::InvalidArraySubset);
            }
            let rel = chunk_ss.relative_to(region.start());
            if !rel.contained_in(region.shape()) {
                return Err(ArrayError::InvalidArraySubset);
            }
            proof {
                assert forall|j: int|
                    0 <= j < rel.spec_shape().len() implies (#[trigger] rel.spec_shape()[j])
                    <= region.spec_shape()[j] by {
                    assert(rel.spec_start()[j] + rel.spec_shape()[j]
                        <= region.spec_shape()[j]);
                }
                crate::indexing::lemma_shape_product_monotone(
                    rel.spec_shape(),
                    region.spec_shape(),
                );
                assert(shape_product(rel.spec_shape()) * esize <= shape_product(
                    region.spec_shape(),
                ) * esize) by (nonlinear_arith)
                    requires
                        shape_product(rel.spec_shape()) <= shape_product(region.spec_shape()),
                        esize >= 0,
                ;
            }
            let chunk_bytes = rel.extract_bytes(
                chunks_bytes.as_slice(),
                region.shape(),
                esize,
            );
            let ghost slab = chunk_bytes@;
            let ghost pre = storage.store_view();
            match self.store_chunk_opt(storage, chunk_indices.as_slice(), chunk_bytes, options) {
                Ok(_) => {},
                Err(e) => {
                    return Err(e);
                },
            }
            proof {
                let k = self.spec_chunk_key(chunk_indices@);
                assert forall|kk: Seq<char>|
                    (forall|cc: Seq<u64>| kk != #[trigger] self.spec_chunk_key(cc)) implies ((
                #[trigger] storage.store_view().contains_key(kk)) == old(
                    storage,
                ).store_view().contains_key(kk) && (storage.store_view().contains_key(kk)
                    ==> storage.store_view()[kk] == old(storage).store_view()[kk])) by {
                    assert(kk != k);
                    assert(pre.contains_key(kk) == old(storage).store_view().contains_key(kk));
                }
                // this iteration is exactly one step of the fold
                let c = coords_add(
                    chunks.spec_start(),
                    delinearise(ci as nat, chunks.spec_shape()),
                );
                assert(chunk_indices@ == c);
                assert(c.len() == chunks.spec_start().len());
                assert(chunks.spec_start().len() == self.spec_shape().len());
                assert(region.spec_start() == self.spec_chunks_region_start(*chunks));
                assert(region.spec_shape() == self.spec_chunks_region_shape(*chunks));
                assert(rel.spec_start() =~= coords_sub(
                    self.spec_chunk_origin(chunk_indices@),
                    self.spec_chunks_region_start(*chunks),
                ));
                assert(slab == spec_chunks_slab(*self, *chunks, chunks_bytes@, chunk_indices@));
                assert(storage.store_view() == spec_store_chunks_fold(
                    old(storage).store_view(),
                    *self,
                    *chunks,
                    chunks_bytes@,
                    ci + 1,
                ));
            }
            ci = ci + 1;
        }
        Ok(())
    }

    /// Store a tightly packed buffer covering the `chunks` rectangle of the
    /// chunk grid, with default codec options.
    pub fn store_chunks<TStorage: WritableStorageTraits>(
        &self,
        storage: &mut TStorage,
        chunks: &ArraySubset,
        chunks_bytes: Vec<u8>,
    ) -> (r: Result<(), ArrayError>)
        requires
            self.wf(),
            chunks.wf(),
            chunks.end_fits(),
        ensures
            r is Ok ==> preserves_non_chunk_keys(
                *self,
                old(storage).store_view(),
                final(storage).store_view(),
            ),
            r is Ok ==> final(storage).store_view() == spec_store_chunks_fold(
                old(storage).store_view(),
                *self,
                *chunks,
                chunks_bytes@,
                chunks.spec_num_elements() as int,
            ),
            chunks.spec_num_elements() == 0 ==> r is Ok,
            r matches Err(ArrayError::InvalidBytesInputSize(l, s)) ==> l == chunks_bytes@.len()
                && l as u64 != s && final(storage).store_view() == old(storage).store_view() && (
            chunks.spec_start().len() == self.spec_shape().len() ==> s == shape_product(
                self.spec_chunks_region_shape(*chunks),
            ) * self.spec_data_type().spec_size()),
    {
        let options = CodecOptions::new();
        self.store_chunks_opt(storage, chunks, chunks_bytes, &options)
    }
}

/// Distinct chunks write distinct keys: two chunk coordinate vectors of the
/// array's dimensionality with one store key are equal, so the per-chunk
/// store updates of [`Array::store_chunks_opt`] and
/// [`Array::store_array_subset_opt`] never touch one another's keys.
pub proof fn lemma_chunk_keys_injective(a: Array, c1: Seq<u64>, c2: Seq<u64>)
    requires
        c1.len() == c2.len(),
        a.spec_chunk_key(c1) == a.spec_chunk_key(c2),
    ensures
        c1 =~= c2,
{
    let e = a.spec_chunk_key_encoding();
    let k1 = crate::chunk_key_encoding::chunk_key_text(e, c1);
    let k2 = crate::chunk_key_encoding::chunk_key_text(e, c2);
    let p = a.spec_path();
    assert(k1 =~= k2) by {
        if p.len() == 1 {
        } else {
            let t = crate::storage::data_key_of(p, k1);
            assert(t == p.skip(1) + seq!['/'] + k1);
            assert(t == p.skip(1) + seq!['/'] + k2);
            assert(k1.len() == k2.len());
            assert forall|i: int| 0 <= i < k1.len() implies k1[i] == k2[i] by {
                assert(t[p.skip(1).len() + 1 + i] == k1[i]);
                assert(t[p.skip(1).len() + 1 + i] == k2[i]);
            }
        }
    }
    crate::chunk_key_encoding::lemma_chunk_key_text_injective(e, c1, c2);
}

/// A product of one forces every factor to be one.
proof fn lemma_product_one(shape: Seq<u64>)
    requires
        shape_product(shape) == 1,
    ensures
        forall|i: int| 0 <= i < shape.len() ==> #[trigger] shape[i] == 1,
    decreases shape.len(),
{
    if shape.len() > 0 {
        let l = shape.last() as nat;
        assert(shape_product(shape) == shape_product(shape.drop_last()) * l);
        assert(shape_product(shape.drop_last()) == 1 && l == 1) by (nonlinear_arith)
            requires
                shape_product(shape.drop_last()) * l == 1,
        ;
        lemma_product_one(shape.drop_last());
        assert forall|i: int| 0 <= i < shape.len() implies #[trigger] shape[i] == 1 by {
            if i < shape.len() - 1 {
                assert(shape.drop_last()[i] == shape[i]);
            }
        }
    }
}

/// Delinearising position zero gives the zero coordinates.
proof fn lemma_delinearise_zero(shape: Seq<u64>)
    requires
        crate::indexing::shape_positive(shape),
    ensures
        delinearise(0, shape) =~= Seq::new(shape.len(), |i: int| 0u64),
    decreases shape.len(),
{
    if shape.len() > 0 {
        let l = shape.last() as nat;
        assert(0nat / l == 0 && 0nat % l == 0) by (nonlinear_arith)
            requires
                l >= 1,
        ;
        assert(crate::indexing::shape_positive(shape.drop_last())) by {
            assert(forall|i: int|
                0 <= i < shape.drop_last().len() ==> (#[trigger] shape.drop_last()[i])
                    == shape[i]);
        }
        lemma_delinearise_zero(shape.drop_last());
    }
}

/// Storing a rectangle of exactly one chunk leaves the store as storing
/// that chunk directly with the whole buffer does: the fold over the
/// one-chunk rectangle is one chunk update.
pub proof fn lemma_store_chunks_single(
    view: Map<Seq<char>, Seq<u8>>,
    a: Array,
    chunks: ArraySubset,
    chunks_bytes: Seq<u8>,
)
    requires
        a.wf(),
        chunks.wf(),
        chunks.spec_start().len() == a.spec_shape().len(),
        chunks.spec_num_elements() == 1,
        chunks_bytes.len() == a.spec_chunk_byte_size(chunks.spec_start()),
        forall|i: int|
            0 <= i < a.spec_shape().len() ==> crate::chunk_grid::axis_origin(
                #[trigger] a.spec_chunk_grid().spec_axes()[i],
                chunks.spec_start()[i],
            ) is Some,
        forall|i: int|
            0 <= i < a.spec_shape().len() ==> crate::chunk_grid::axis_origin(
                #[trigger] a.spec_chunk_grid().spec_axes()[i],
                chunks.spec_start()[i],
            )->Some_0 + crate::chunk_grid::axis_chunk_size(
                a.spec_chunk_grid().spec_axes()[i],
                chunks.spec_start()[i],
            )->Some_0 <= u64::MAX,
    ensures
        spec_store_chunks_fold(view, a, chunks, chunks_bytes, 1) == spec_store_chunk_update(
            view,
            a,
            chunks.spec_start(),
            chunks_bytes,
        ),
{
    let shape = chunks.spec_shape();
    lemma_product_one(shape);
    assert(crate::indexing::shape_positive(shape));
    lemma_delinearise_zero(shape);
    let c = coords_add(chunks.spec_start(), delinearise(0, shape));
    assert(c =~= chunks.spec_start());
    let cshape = a.spec_chunk_shape(chunks.spec_start());
    let esize = a.spec_data_type().spec_size() as nat;
    assert(esize >= 1);
    // the region of a one-chunk rectangle is the chunk's own footprint
    assert(a.spec_chunks_region_start(chunks) =~= a.spec_chunk_origin(chunks.spec_start()));
    assert(a.spec_chunks_region_shape(chunks) =~= cshape) by {
        let last = Seq::new(
            chunks.spec_start().len(),
            |t: int| (chunks.spec_start()[t] + chunks.spec_shape()[t] - 1) as u64,
        );
        assert(last =~= chunks.spec_start());
    }
    assert(coords_sub(
        a.spec_chunk_origin(chunks.spec_start()),
        a.spec_chunks_region_start(chunks),
    ) =~= Seq::new(cshape.len(), |i: int| 0u64));
    assert(chunks_bytes.len() == shape_product(cshape) * esize);
    crate::array_subset::lemma_whole_extract(chunks_bytes, cshape, esize);
    assert(spec_chunks_slab(a, chunks, chunks_bytes, c) == chunks_bytes);
    assert(spec_store_chunks_fold(view, a, chunks, chunks_bytes, 0) == view);
    assert(spec_store_chunks_fold(view, a, chunks, chunks_bytes, 1) == spec_store_chunk_update(
        view,
        a,
        coords_add(chunks.spec_start(), delinearise((1 - 1) as nat, chunks.spec_shape())),
        spec_chunks_slab(
            a,
            chunks,
            chunks_bytes,
            coords_add(chunks.spec_start(), delinearise((1 - 1) as nat, chunks.spec_shape())),
        ),
    ));
    assert(coords_add(chunks.spec_start(), delinearise((1 - 1) as nat, chunks.spec_shape()))
        == c);
}

/// Round trip at the chunk level for arrays whose codec chain has no
/// compression stages: after a chunk write, either the chunk's key is
/// erased because the bytes equal the fill value repeated, or the stored
/// bytes decode back to exactly the written bytes.
///
/// For arrays with compression stages the same law holds of every store:
/// the contract of [`crate::codec::codec_chain::CodecChain::encode`] states
/// that its result decodes back to its input.
pub proof fn lemma_store_chunk_round_trip(
    a: Array,
    view: Map<Seq<char>, Seq<u8>>,
    chunk_indices: Seq<u64>,
    chunk_bytes: Seq<u8>,
)
    requires
        a.wf(),
        a.spec_codecs().spec_bytes_to_bytes().len() == 0,
        chunk_bytes.len() == a.spec_chunk_byte_size(chunk_indices),
    ensures
        ({
            let updated = spec_store_chunk_update(view, a, chunk_indices, chunk_bytes);
            let key = a.spec_chunk_key(chunk_indices);
            if all_fill(a.spec_fill_value().spec_bytes(), chunk_bytes) {
                !updated.contains_key(key)
            } else {
                updated.contains_key(key) && crate::codec::codec_chain::chain_decoding(
                    a.spec_codecs().spec_array_to_bytes(),
                    a.spec_codecs().spec_bytes_to_bytes(),
                    updated[key],
                    a.spec_chunk_byte_size(chunk_indices),
                    a.spec_data_type().spec_size() as nat,
                ) == Some(chunk_bytes)
            }
        }),
{
    let key = a.spec_chunk_key(chunk_indices);
    let esize = a.spec_data_type().spec_size() as nat;
    if !all_fill(a.spec_fill_value().spec_bytes(), chunk_bytes) {
        let prod = shape_product(a.spec_chunk_shape(chunk_indices));
        assert(chunk_bytes.len() % esize == 0) by (nonlinear_arith)
            requires
                chunk_bytes.len() == prod * esize,
                esize >= 1,
        ;
        crate::codec::codec_chain::lemma_chain_round_trip(
            a.spec_codecs().spec_array_to_bytes(),
            a.spec_codecs().spec_bytes_to_bytes(),
            chunk_bytes,
            esize,
        );
    }
}

} // verus!
