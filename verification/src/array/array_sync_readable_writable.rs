//! Writing subsets of chunks and of the array: the read-modify-write
//! protocol.
//!
//! Writing a subset of a chunk reads the chunk (or starts from the fill
//! value), splices the caller's bytes in, and writes the chunk back; a
//! subset that covers its whole chunk is written directly, without a read.
//! The protocol is sequential here: callers running writers concurrently
//! against one store must serialise chunk updates themselves, or lost
//! updates of other writers' elements can result.

use vstd::prelude::*;

use crate::array::array_sync_readable::spec_chunk_overlap;
use crate::array::array_sync_writable::{preserves_non_chunk_keys, spec_store_chunk_update};
use crate::array::{Array, ArrayError};
use crate::array_subset::{
    coords_add, coords_sub, extracted_bytes, spliced_bytes, subset_within, ArraySubset,
};
use crate::codec::codec_chain::chain_decoding;
use crate::codec::CodecOptions;
use crate::indexing::{delinearise, shape_product};
use crate::storage::ReadableWritableStorageTraits;

verus! {

/// The fill value repeated over `n` elements.
pub open spec fn fill_chunk_bytes(fill: Seq<u8>, n: nat) -> Seq<u8>
    recommends
        fill.len() >= 1,
{
    Seq::new(n * fill.len(), |p: int| fill[p % fill.len() as int])
}

/// `subset` covers the whole of the chunk with shape `chunk_shape`.
pub open spec fn spec_covers_whole_chunk(subset: ArraySubset, chunk_shape: Seq<u64>) -> bool {
    &&& subset.spec_start() =~= Seq::new(chunk_shape.len(), |i: int| 0u64)
    &&& subset.spec_shape() == chunk_shape
}

/// The view of a store after the chunk at `c` receives its part of a write
/// of `subset_bytes` over `subset`: the overlap slab is written through the
/// read-modify-write protocol, directly where it covers the whole chunk; a
/// chunk whose footprint does not intersect the subset is untouched.
pub open spec fn spec_rmw_chunk_step(
    view: Map<Seq<char>, Seq<u8>>,
    a: Array,
    subset: ArraySubset,
    subset_bytes: Seq<u8>,
    c: Seq<u64>,
) -> Map<Seq<char>, Seq<u8>> {
    let ov = spec_chunk_overlap(a, subset, c);
    let esize = a.spec_data_type().spec_size() as nat;
    let cshape = a.spec_chunk_shape(c);
    if exists|t: int| 0 <= t < ov.1.len() && #[trigger] ov.1[t] == 0 {
        view
    } else {
        let slab = extracted_bytes(
            subset_bytes,
            coords_sub(ov.0, subset.spec_start()),
            ov.1,
            subset.spec_shape(),
            esize,
        );
        let local_start = coords_sub(ov.0, a.spec_chunk_origin(c));
        if local_start =~= Seq::new(cshape.len(), |i: int| 0u64) && ov.1 == cshape {
            spec_store_chunk_update(view, a, c, slab)
        } else {
            let key = a.spec_chunk_key(c);
            let old_chunk = if view.contains_key(key) {
                chain_decoding(
                    a.spec_codecs().spec_array_to_bytes(),
                    a.spec_codecs().spec_bytes_to_bytes(),
                    view[key],
                    a.spec_chunk_byte_size(c),
                    esize,
                )->Some_0
            } else {
                fill_chunk_bytes(a.spec_fill_value().spec_bytes(), shape_product(cshape))
            };
            spec_store_chunk_update(
                view,
                a,
                c,
                spliced_bytes(old_chunk, slab, local_start, ov.1, cshape, esize),
            )
        }
    }
}

/// The view of a store after the first `k` chunks of the rectangle
/// intersecting `subset` have received their part of a write of
/// `subset_bytes`, in row-major order of their coordinates.
pub open spec fn spec_store_subset_fold(
    view: Map<Seq<char>, Seq<u8>>,
    a: Array,
    subset: ArraySubset,
    subset_bytes: Seq<u8>,
    k: int,
) -> Map<Seq<char>, Seq<u8>>
    decreases k,
{
    if k <= 0 {
        view
    } else {
        let rect = a.spec_chunks_rect(subset);
        let c = coords_add(rect.0, delinearise((k - 1) as nat, rect.1));
        spec_rmw_chunk_step(
            spec_store_subset_fold(view, a, subset, subset_bytes, k - 1),
            a,
            subset,
            subset_bytes,
            c,
        )
    }
}

impl Array {
    /// Write `chunk_subset_bytes` into the given subset of the chunk at
    /// `chunk_indices`.
    ///
    /// A subset covering the whole chunk is stored directly; storing it
    /// through this function and through `store_chunk` leave the store in
    /// the same state. Otherwise the chunk is read (the fill value where
    /// absent), the subset is spliced in, and the chunk is stored back.
    pub fn store_chunk_subset_opt<TStorage: ReadableWritableStorageTraits>(
        &self,
        storage: &mut TStorage,
        chunk_indices: &[u64],
        chunk_subset: &ArraySubset,
        chunk_subset_bytes: Vec<u8>,
        options: &CodecOptions,
    ) -> (r: Result<(), ArrayError>)
        requires
            self.wf(),
            chunk_subset.wf(),
        ensures
            r is Ok ==> subset_within(
                chunk_subset.spec_start(),
                chunk_subset.spec_shape(),
                self.spec_chunk_shape(chunk_indices@),
            ) && chunk_subset_bytes@.len() == shape_product(chunk_subset.spec_shape())
                * self.spec_data_type().spec_size(),
            r is Ok && spec_covers_whole_chunk(
                *chunk_subset,
                self.spec_chunk_shape(chunk_indices@),
            ) ==> final(storage).store_view() == spec_store_chunk_update(
                old(storage).store_view(),
                *self,
                chunk_indices@,
                chunk_subset_bytes@,
            ),
            self.spec_chunk_in_grid(chunk_indices@) && self.spec_chunk_byte_size(chunk_indices@)
                <= usize::MAX && !subset_within(
                chunk_subset.spec_start(),
                chunk_subset.spec_shape(),
                self.spec_chunk_shape(chunk_indices@),
            ) ==> r == Err::<(), ArrayError>(ArrayError::InvalidChunkSubset)
                && final(storage).store_view() == old(storage).store_view(),
            r matches Err(ArrayError::InvalidBytesInputSize(l, s)) ==> l
                == chunk_subset_bytes@.len() && l as u64 != s && s == shape_product(
                chunk_subset.spec_shape(),
            ) * self.spec_data_type().spec_size()
                && final(storage).store_view() == old(storage).store_view(),
            r is Ok && !spec_covers_whole_chunk(
                *chunk_subset,
                self.spec_chunk_shape(chunk_indices@),
            ) ==> ({
                let key = self.spec_chunk_key(chunk_indices@);
                let old_chunk = if old(storage).store_view().contains_key(key) {
                    chain_decoding(
                        self.spec_codecs().spec_array_to_bytes(),
                        self.spec_codecs().spec_bytes_to_bytes(),
                        old(storage).store_view()[key],
                        self.spec_chunk_byte_size(chunk_indices@),
                        self.spec_data_type().spec_size() as nat,
                    )->Some_0
                } else {
                    fill_chunk_bytes(
                        self.spec_fill_value().spec_bytes(),
                        shape_product(self.spec_chunk_shape(chunk_indices@)),
                    )
                };
                &&& (old(storage).store_view().contains_key(key) ==> chain_decoding(
                    self.spec_codecs().spec_array_to_bytes(),
                    self.spec_codecs().spec_bytes_to_bytes(),
                    old(storage).store_view()[key],
                    self.spec_chunk_byte_size(chunk_indices@),
                    self.spec_data_type().spec_size() as nat,
                ) is Some)
                &&& final(storage).store_view() == spec_store_chunk_update(
                    old(storage).store_view(),
                    *self,
                    chunk_indices@,
                    spliced_bytes(
                        old_chunk,
                        chunk_subset_bytes@,
                        chunk_subset.spec_start(),
                        chunk_subset.spec_shape(),
                        self.spec_chunk_shape(chunk_indices@),
                        self.spec_data_type().spec_size() as nat,
                    ),
                )
            }),
    {
        let rep = match self.chunk_array_representation(chunk_indices) {
            Ok(rep) => rep,
            Err(e) => {
                return Err(e);
            },
        };
        if !chunk_subset.contained_in(rep.shape()) {
            return Err(ArrayError::InvalidChunkSubset);
        }
        let esize = rep.element_size();
        let n = match crate::indexing::checked_num_elements(chunk_subset.shape()) {
            Some(n) => n,
            None => {
                return Err(ArrayError::InvalidChunkSubset);
            },
        };
        let expected = match n.checked_mul(esize as u64) {
            Some(b) => b,
            None => {
                return Err(ArrayError::InvalidChunkSubset);
            },
        };
        if chunk_subset_bytes.len() as u64 != expected {
            return Err(ArrayError::InvalidBytesInputSize(chunk_subset_bytes.len(), expected));
        }
        // does the subset cover the whole chunk?
        let mut whole = true;
        let start = chunk_subset.start();
        let sshape = chunk_subset.shape();
        let cshape = rep.shape();
        let mut i: usize = 0;
        while i < start.len()
            invariant
                0 <= i <= start@.len(),
                start@.len() == sshape@.len(),
                start@.len() == cshape@.len(),
                whole ==> (forall|j: int|
                    0 <= j < i ==> (#[trigger] start@[j]) == 0 && sshape@[j] == cshape@[j]),
                !whole ==> (exists|j: int|
                    0 <= j < i && !((#[trigger] start@[j]) == 0 && sshape@[j] == cshape@[j])),
            decreases start@.len() - i,
        {
            if start[i] != 0 || sshape[i] != cshape[i] {
                whole = false;
                proof {
                    let gi = i as int;
                    assert(!((start@[gi]) == 0 && sshape@[gi] == cshape@[gi]));
                }
            } else {
                proof {
                    let gi = i as int;
                    assert(start@[gi] == 0);
                    assert(sshape@[gi] == cshape@[gi]);
                }
            }
            i = i + 1;
            proof {
                if whole {
                    assert forall|j: int|
                        0 <= j < i implies (#[trigger] start@[j]) == 0 && sshape@[j]
                        == cshape@[j] by {
                        if j < i - 1 {
                        } else {
                            assert(j == i - 1);
                        }
                    }
                }
            }
        }
        proof {
            if whole {
                assert forall|j: int|
                    0 <= j < sshape@.len() implies chunk_subset.spec_shape()[j]
                    == rep.spec_shape()[j] && chunk_subset.spec_start()[j] == 0 by {
                    assert((#[trigger] start@[j]) == 0 && sshape@[j] == cshape@[j]);
                }
                assert(chunk_subset.spec_start() =~= Seq::new(
                    rep.spec_shape().len(),
                    |j: int| 0u64,
                ));
                assert(chunk_subset.spec_shape() =~= rep.spec_shape());
                assert(spec_covers_whole_chunk(*chunk_subset, rep.spec_shape()));
            } else {
                let j = choose|j: int|
                    0 <= j < start@.len() && !((#[trigger] start@[j]) == 0 && sshape@[j]
                        == cshape@[j]);
                assert(!spec_covers_whole_chunk(*chunk_subset, rep.spec_shape())) by {
                    if spec_covers_whole_chunk(*chunk_subset, rep.spec_shape()) {
                        assert(chunk_subset.spec_start()[j] == 0);
                        assert(chunk_subset.spec_shape()[j] == rep.spec_shape()[j]);
                    }
                }
            }
        }
        if whole {
            proof {
                crate::indexing::lemma_shape_product_positive(rep.spec_shape());
            }
            return self.store_chunk_opt(storage, chunk_indices, chunk_subset_bytes, options);
        }
        let mut chunk = match self.retrieve_chunk_opt(&*storage, chunk_indices, options) {
            Ok(c) => c,
            Err(e) => {
                return Err(e);
            },
        };
        proof {
            // an absent chunk materialises as exactly the fill value repeated
            if !old(storage).store_view().contains_key(self.spec_chunk_key(chunk_indices@)) {
                let fill = self.spec_fill_value().spec_bytes();
                let ne = shape_product(self.spec_chunk_shape(chunk_indices@));
                assert(chunk@ =~= fill_chunk_bytes(fill, ne)) by {
                    assert(chunk@.len() == ne * fill.len()) by (nonlinear_arith)
                        requires
                            chunk@.len() == ne * self.spec_data_type().spec_size(),
                            fill.len() == self.spec_data_type().spec_size(),
                    ;
                }
            }
        }
        chunk_subset.splice_bytes(
            &mut chunk,
            chunk_subset_bytes.as_slice(),
            cshape,
            esize,
        );
        self.store_chunk_opt(storage, chunk_indices, chunk, options)
    }

    /// Write `chunk_subset_bytes` into the given subset of the chunk at
    /// `chunk_indices`, with default codec options.
    pub fn store_chunk_subset<TStorage: ReadableWritableStorageTraits>(
        &self,
        storage: &mut TStorage,
        chunk_indices: &[u64],
        chunk_subset: &ArraySubset,
        chunk_subset_bytes: Vec<u8>,
    ) -> (r: Result<(), ArrayError>)
        requires
            self.wf(),
            chunk_subset.wf(),
        ensures
            r is Ok ==> subset_within(
                chunk_subset.spec_start(),
                chunk_subset.spec_shape(),
                self.spec_chunk_shape(chunk_indices@),
            ),
    {
        let options = CodecOptions::new();
        self.store_chunk_subset_opt(storage, chunk_indices, chunk_subset, chunk_subset_bytes, &options)
    }

    /// Write `subset_bytes` into the given subset of the array: per
    /// intersecting chunk, the chunk's overlap with the subset is written
    /// through the read-modify-write protocol, or stored whole where the
    /// chunk is fully covered.
    ///
    /// Keys that are not chunk keys of this array are untouched.
    pub fn store_array_subset_opt<TStorage: ReadableWritableStorageTraits>(
        &self,
        storage: &mut TStorage,
        array_subset: &ArraySubset,
        subset_bytes: Vec<u8>,
        options: &CodecOptions,
    ) -> (r: Result<(), ArrayError>)
        requires
            self.wf(),
            array_subset.wf(),
        ensures
            r is Ok ==> preserves_non_chunk_keys(
                *self,
                old(storage).store_view(),
                final(storage).store_view(),
            ),
            r is Ok ==> subset_within(
                array_subset.spec_start(),
                array_subset.spec_shape(),
                self.spec_shape(),
            ) && subset_bytes@.len() == shape_product(array_subset.spec_shape())
                * self.spec_data_type().spec_size(),
            r is Ok ==> final(storage).store_view() == spec_store_subset_fold(
                old(storage).store_view(),
                *self,
                *array_subset,
                subset_bytes@,
                shape_product(self.spec_chunks_rect(*array_subset).1) as int,
            ),
            !subset_within(
                array_subset.spec_start(),
                array_subset.spec_shape(),
                self.spec_shape(),
            ) ==> r == Err::<(), ArrayError>(ArrayError::InvalidArraySubset)
                && final(storage).store_view() == old(storage).store_view(),
            r matches Err(ArrayError::InvalidBytesInputSize(l, s)) ==> l == subset_bytes@.len()
                && l as u64 != s && s == shape_product(array_subset.spec_shape())
                * self.spec_data_type().spec_size()
                && final(storage).store_view() == old(storage).store_view(),
    {
        if !array_subset.contained_in(self.shape()) {
            return Err(ArrayError::InvalidArraySubset);
        }
        let num_elements = match crate::indexing::checked_num_elements(array_subset.shape()) {
            Some(n) => n,
            None => {
                return Err(ArrayError::InvalidArraySubset);
            },
        };
        let esize = self.data_type().size();
        let expected = match num_elements.checked_mul(esize as u64) {
            Some(b) => b,
            None => {
                return Err(ArrayError::InvalidArraySubset);
            },
        };
        if subset_bytes.len() as u64 != expected {
            return Err(ArrayError::InvalidBytesInputSize(subset_bytes.len(), expected));
        }
        proof {
            assert(array_subset.end_fits()) by {
                assert(forall|t: int|
                    0 <= t < array_subset.spec_start().len()
                        ==> (#[trigger] array_subset.spec_start()[t])
                        + array_subset.spec_shape()[t] <= self.spec_shape()[t]);
            }
        }
        let chunks = match self.chunks_in_array_subset(array_subset) {
            Ok(Some(c)) => c,
            Ok(None) => {
                return Err(ArrayError::InvalidArraySubset);
            },
            Err(e) => {
                return Err(ArrayError::IncompatibleDimensionalityError(e));
            },
        };
        let chunk_coords = match crate::indexing::checked_num_elements(chunks.shape()) {
            Some(n) => n,
            None => {
                return Err(ArrayError::InvalidArraySubset);
            },
        };
        if chunk_coords > usize::MAX as u64 {
            return Err(ArrayError::InvalidArraySubset);
        }
        let coords = chunks.indices();
        let mut ci: usize = 0;
        while ci < coords.len()
            invariant
                self.wf(),
                array_subset.wf(),
                array_subset.end_fits(),
                chunks.wf(),
                subset_within(
                    array_subset.spec_start(),
                    array_subset.spec_shape(),
                    self.spec_shape(),
                ),
                esize == self.spec_data_type().spec_size(),
                esize >= 1,
                subset_bytes@.len() == shape_product(array_subset.spec_shape()) * esize,
                subset_bytes@.len() <= usize::MAX,
                0 <= ci <= coords@.len(),
                coords@.len() == chunks.spec_num_elements(),
                forall|k: int|
                    0 <= k < coords@.len() ==> #[trigger] coords@[k]@ == coords_add(
                        chunks.spec_start(),
                        delinearise(k as nat, chunks.spec_shape()),
                    ),
                chunks.spec_start() == self.spec_chunks_rect(*array_subset).0,
                chunks.spec_shape() == self.spec_chunks_rect(*array_subset).1,
                storage.store_view() == spec_store_subset_fold(
                    old(storage).store_view(),
                    *self,
                    *array_subset,
                    subset_bytes@,
                    ci as int,
                ),
                preserves_non_chunk_keys(
                    *self,
                    old(storage).store_view(),
                    storage.store_view(),
                ),
            decreases coords@.len() - ci,
        {
            let chunk_indices = &coords[ci];
            let chunk_subset_b = match self.chunk_subset_bounded(chunk_indices.as_slice()) {
                Ok(s) => s,
                Err(e) => {
                    return Err(e);
                },
            };
            let overlap = array_subset.overlap(&chunk_subset_b);
            if !overlap.is_empty() {
                proof {
                    assert forall|t: int| 0 <= t < overlap.spec_start().len() implies {
                        &&& array_subset.spec_start()[t] <= #[trigger] overlap.spec_start()[t]
                        &&& chunk_subset_b.spec_start()[t] <= overlap.spec_start()[t]
                        &&& overlap.spec_start()[t] + overlap.spec_shape()[t]
                            <= array_subset.spec_start()[t] + array_subset.spec_shape()[t]
                    } by {
                        assert(overlap.spec_start()[t] == crate::array_subset::max_u64(
                            array_subset.spec_start()[t],
                            chunk_subset_b.spec_start()[t],
                        ));
                        assert(overlap.spec_shape()[t] == crate::array_subset::overlap_extent(
                            array_subset.spec_start()[t],
                            array_subset.spec_shape()[t],
                            chunk_subset_b.spec_start()[t],
                            chunk_subset_b.spec_shape()[t],
                        ));
                        assert(overlap.spec_shape()[t] != 0);
                    }
                }
                let chunk_local = overlap.relative_to(chunk_subset_b.start());
                let input_local = overlap.relative_to(array_subset.start());
                proof {
                    assert(subset_within(
                        input_local.spec_start(),
                        input_local.spec_shape(),
                        array_subset.spec_shape(),
                    )) by {
                        assert forall|t: int|
                            0 <= t < input_local.spec_start().len() implies (
                        #[trigger] input_local.spec_start()[t]) + input_local.spec_shape()[t]
                            <= array_subset.spec_shape()[t] by {
                            assert(input_local.spec_start()[t] == overlap.spec_start()[t]
                                - array_subset.spec_start()[t]);
                            assert(overlap.spec_start()[t] + overlap.spec_shape()[t]
                                <= array_subset.spec_start()[t]
                                + array_subset.spec_shape()[t]);
                        }
                    }
                }
                proof {
                    assert forall|t: int|
                        0 <= t < input_local.spec_shape().len() implies (
                    #[trigger] input_local.spec_shape()[t]) <= array_subset.spec_shape()[t] by {
                        assert(input_local.spec_start()[t] + input_local.spec_shape()[t]
                            <= array_subset.spec_shape()[t]);
                    }
                    crate::indexing::lemma_shape_product_monotone(
                        input_local.spec_shape(),
                        array_subset.spec_shape(),
                    );
                    assert(shape_product(input_local.spec_shape()) * esize <= shape_product(
                        array_subset.spec_shape(),
                    ) * esize) by (nonlinear_arith)
                        requires
                            shape_product(input_local.spec_shape()) <= shape_product(
                                array_subset.spec_shape(),
                            ),
                            esize >= 0,
                    ;
                }
                let chunk_bytes = input_local.extract_bytes(
                    subset_bytes.as_slice(),
                    array_subset.shape(),
                    esize,
                );
                let ghost slabg = chunk_bytes@;
                let ghost pre = storage.store_view();
                match self.store_chunk_subset_opt(
                    storage,
                    chunk_indices.as_slice(),
                    &chunk_local,
                    chunk_bytes,
                    options,
                ) {
                    Ok(_) => {},
                    Err(e) => {
                        return Err(e);
                    },
                }
                proof {
                    let k = self.spec_chunk_key(chunk_indices@);
                    assert(storage.store_view() == pre.insert(k, storage.store_view()[k])
                        || storage.store_view() == pre.remove(k));
                    lemma_chunk_update_preserves(*self, pre, storage.store_view(), chunk_indices@);
                    // preservation composes across the iteration
                    assert forall|kk: Seq<char>|
                        (forall|cc: Seq<u64>| kk != #[trigger] self.spec_chunk_key(cc)) implies ((
                    #[trigger] storage.store_view().contains_key(kk)) == old(
                        storage,
                    ).store_view().contains_key(kk) && (storage.store_view().contains_key(kk)
                        ==> storage.store_view()[kk] == old(storage).store_view()[kk])) by {
                        assert(kk != self.spec_chunk_key(chunk_indices@));
                        assert(pre.contains_key(kk) == old(storage).store_view().contains_key(
                            kk,
                        ));
                    }
                    // this iteration is exactly one step of the fold
                    let c = chunk_indices@;
                    let ov = spec_chunk_overlap(*self, *array_subset, c);
                    let cshape = self.spec_chunk_shape(c);
                    assert(overlap.spec_start() =~= ov.0);
                    assert(overlap.spec_shape() =~= ov.1);
                    assert(!(exists|t: int| 0 <= t < ov.1.len() && #[trigger] ov.1[t] == 0));
                    assert(chunk_local.spec_start() =~= coords_sub(
                        ov.0,
                        self.spec_chunk_origin(c),
                    ));
                    assert(input_local.spec_start() =~= coords_sub(
                        ov.0,
                        array_subset.spec_start(),
                    ));
                    assert(slabg == extracted_bytes(
                        subset_bytes@,
                        coords_sub(ov.0, array_subset.spec_start()),
                        ov.1,
                        array_subset.spec_shape(),
                        esize as nat,
                    ));
                    if spec_covers_whole_chunk(chunk_local, cshape) {
                        assert(chunk_local.spec_start() =~= Seq::new(
                            cshape.len(),
                            |i: int| 0u64,
                        ));
                        assert(coords_sub(ov.0, self.spec_chunk_origin(c)) =~= Seq::new(
                            cshape.len(),
                            |i: int| 0u64,
                        ));
                    } else {
                        assert(!(coords_sub(ov.0, self.spec_chunk_origin(c)) =~= Seq::new(
                            cshape.len(),
                            |i: int| 0u64,
                        ) && ov.1 == cshape)) by {
                            if coords_sub(ov.0, self.spec_chunk_origin(c)) =~= Seq::new(
                                cshape.len(),
                                |i: int| 0u64,
                            ) && ov.1 == cshape {
                                assert(chunk_local.spec_start() =~= Seq::new(
                                    cshape.len(),
                                    |i: int| 0u64,
                                ));
                                assert(chunk_local.spec_shape() == cshape);
                            }
                        }
                    }
                    assert(storage.store_view() == spec_rmw_chunk_step(
                        pre,
                        *self,
                        *array_subset,
                        subset_bytes@,
                        c,
                    ));
                    assert(storage.store_view() == spec_store_subset_fold(
                        old(storage).store_view(),
                        *self,
                        *array_subset,
                        subset_bytes@,
                        ci + 1,
                    ));
                }
            } else {
                proof {
                    let c = chunk_indices@;
                    let ov = spec_chunk_overlap(*self, *array_subset, c);
                    assert(overlap.spec_shape() =~= ov.1);
                    let t = choose|t: int|
                        0 <= t < overlap.spec_shape().len()
                            && #[trigger] overlap.spec_shape()[t] == 0;
                    assert(ov.1[t] == 0);
                    assert(storage.store_view() == spec_store_subset_fold(
                        old(storage).store_view(),
                        *self,
                        *array_subset,
                        subset_bytes@,
                        ci + 1,
                    ));
                }
            }
            ci = ci + 1;
        }
        Ok(())
    }

    /// Write `subset_bytes` into the given subset of the array with default
    /// codec options.
    pub fn store_array_subset<TStorage: ReadableWritableStorageTraits>(
        &self,
        storage: &mut TStorage,
        array_subset: &ArraySubset,
        subset_bytes: Vec<u8>,
    ) -> (r: Result<(), ArrayError>)
        requires
            self.wf(),
            array_subset.wf(),
        ensures
            r is Ok ==> preserves_non_chunk_keys(
                *self,
                old(storage).store_view(),
                final(storage).store_view(),
            ),
            r is Ok ==> subset_within(
                array_subset.spec_start(),
                array_subset.spec_shape(),
                self.spec_shape(),
            ) && subset_bytes@.len() == shape_product(array_subset.spec_shape())
                * self.spec_data_type().spec_size(),
            r is Ok ==> final(storage).store_view() == spec_store_subset_fold(
                old(storage).store_view(),
                *self,
                *array_subset,
                subset_bytes@,
                shape_product(self.spec_chunks_rect(*array_subset).1) as int,
            ),
            !subset_within(
                array_subset.spec_start(),
                array_subset.spec_shape(),
                self.spec_shape(),
            ) ==> r == Err::<(), ArrayError>(ArrayError::InvalidArraySubset)
                && final(storage).store_view() == old(storage).store_view(),
            r matches Err(ArrayError::InvalidBytesInputSize(l, s)) ==> l == subset_bytes@.len()
                && l as u64 != s && s == shape_product(array_subset.spec_shape())
                * self.spec_data_type().spec_size()
                && final(storage).store_view() == old(storage).store_view(),
    {
        let options = CodecOptions::new();
        self.store_array_subset_opt(storage, array_subset, subset_bytes, &options)
    }
}

/// A store update of one chunk key preserves every key that is not a chunk
/// key of the array.
proof fn lemma_chunk_update_preserves(
    a: Array,
    pre: Map<Seq<char>, Seq<u8>>,
    post: Map<Seq<char>, Seq<u8>>,
    c: Seq<u64>,
)
    requires
        post == pre.insert(a.spec_chunk_key(c), post[a.spec_chunk_key(c)]) || post == pre.remove(
            a.spec_chunk_key(c),
        ),
    ensures
        preserves_non_chunk_keys(a, pre, post),
{
    assert forall|k: Seq<char>|
        (forall|cc: Seq<u64>| k != #[trigger] a.spec_chunk_key(cc)) implies ((
    #[trigger] post.contains_key(k)) == pre.contains_key(k) && (post.contains_key(k)
        ==> post[k] == pre[k])) by {
        assert(k != a.spec_chunk_key(c));
    }
}

} // verus!
