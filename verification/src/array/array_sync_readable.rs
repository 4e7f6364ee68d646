//! Reading chunks and array subsets.

use vstd::prelude::*;

use crate::array::array_sync_readable_writable::fill_chunk_bytes;
use crate::array::{Array, ArrayError};
use crate::array_subset::{
    coords_add, coords_sub, extracted_bytes, max_u64, overlap_extent, spliced_bytes,
    subset_within, ArraySubset,
};
use crate::codec::codec_chain::chain_decoding;
use crate::codec::{
    ArrayPartialDecoder, BytesPartialDecoder, CodecOptions, StoragePartialDecoder,
};
use crate::fill_value::all_fill;
use crate::indexing::{delinearise, shape_product};
use crate::storage::ReadableStorageTraits;

verus! {

/// The overlap of `subset` with the bounded footprint of the chunk at `c`
/// in the array `a`: its start and its shape, in array coordinates.
pub open spec fn spec_chunk_overlap(a: Array, subset: ArraySubset, c: Seq<u64>) -> (
    Seq<u64>,
    Seq<u64>,
) {
    let cb_start = a.spec_chunk_origin(c);
    let cb_shape = a.spec_chunk_shape_bounded(c);
    let n = subset.spec_start().len();
    (
        Seq::new(n, |t: int| max_u64(subset.spec_start()[t], cb_start[t])),
        Seq::new(
            n,
            |t: int|
                overlap_extent(
                    subset.spec_start()[t],
                    subset.spec_shape()[t],
                    cb_start[t],
                    cb_shape[t],
                ),
        ),
    )
}

/// What the chunk at `c` contributes to a read of `subset`: the decoded
/// chunk's slab at the overlap is spliced into the accumulator, the fill
/// value repeated where no chunk is stored; a chunk whose footprint does
/// not intersect the subset contributes nothing.
pub open spec fn spec_read_chunk_step(
    a: Array,
    view: Map<Seq<char>, Seq<u8>>,
    subset: ArraySubset,
    acc: Seq<u8>,
    c: Seq<u64>,
) -> Seq<u8> {
    let ov = spec_chunk_overlap(a, subset, c);
    let esize = a.spec_data_type().spec_size() as nat;
    if exists|t: int| 0 <= t < ov.1.len() && #[trigger] ov.1[t] == 0 {
        acc
    } else {
        let key = a.spec_chunk_key(c);
        let slab = if view.contains_key(key) {
            extracted_bytes(
                chain_decoding(
                    a.spec_codecs().spec_array_to_bytes(),
                    a.spec_codecs().spec_bytes_to_bytes(),
                    view[key],
                    a.spec_chunk_byte_size(c),
                    esize,
                )->Some_0,
                coords_sub(ov.0, a.spec_chunk_origin(c)),
                ov.1,
                a.spec_chunk_shape(c),
                esize,
            )
        } else {
            fill_chunk_bytes(a.spec_fill_value().spec_bytes(), shape_product(ov.1))
        };
        spliced_bytes(acc, slab, coords_sub(ov.0, subset.spec_start()), ov.1, subset.spec_shape(), esize)
    }
}

/// The bytes of a read of `subset` from the store view `view`, after the
/// first `k` chunks of the intersecting rectangle have contributed in
/// row-major order, starting from the fill value repeated.
pub open spec fn spec_retrieve_subset_fold(
    a: Array,
    view: Map<Seq<char>, Seq<u8>>,
    subset: ArraySubset,
    k: int,
) -> Seq<u8>
    decreases k,
{
    if k <= 0 {
        fill_chunk_bytes(a.spec_fill_value().spec_bytes(), shape_product(subset.spec_shape()))
    } else {
        let rect = a.spec_chunks_rect(subset);
        let c = coords_add(rect.0, delinearise((k - 1) as nat, rect.1));
        spec_read_chunk_step(a, view, subset, spec_retrieve_subset_fold(a, view, subset, k - 1), c)
    }
}

impl Array {
    /// Retrieve and decode the chunk at `chunk_indices`, or `None` if no
    /// chunk is stored there.
    pub fn retrieve_chunk_if_exists_opt<TStorage: ReadableStorageTraits>(
        &self,
        storage: &TStorage,
        chunk_indices: &[u64],
        options: &CodecOptions,
    ) -> (r: Result<Option<Vec<u8>>, ArrayError>)
        requires
            self.wf(),
        ensures
            r matches Ok(o) ==> match o {
                Some(out) => storage.store_view().contains_key(
                    self.spec_chunk_key(chunk_indices@),
                ) && chain_decoding(
                    self.spec_codecs().spec_array_to_bytes(),
                    self.spec_codecs().spec_bytes_to_bytes(),
                    storage.store_view()[self.spec_chunk_key(chunk_indices@)],
                    self.spec_chunk_byte_size(chunk_indices@),
                    self.spec_data_type().spec_size() as nat,
                ) == Some(out@),
                None => !storage.store_view().contains_key(
                    self.spec_chunk_key(chunk_indices@),
                ),
            },
            r matches Err(e) ==> e is InvalidChunkGridIndicesError || e is UnrepresentableChunk
                || e is StorageError || e is CodecError,
            r matches Err(e) ==> (self.spec_chunk_in_grid(chunk_indices@)
                && self.spec_chunk_byte_size(chunk_indices@) <= usize::MAX ==> e
                is StorageError || e is CodecError),
    {
        let rep = match self.chunk_array_representation(chunk_indices) {
            Ok(rep) => rep,
            Err(e) => {
                return Err(e);
            },
        };
        let key = self.chunk_key(chunk_indices);
        let encoded = match storage.get(&key) {
            Ok(o) => o,
            Err(e) => {
                return Err(ArrayError::StorageError(e));
            },
        };
        match encoded {
            Some(enc) => {
                match self.codecs().decode(enc, &rep, options) {
                    Ok(out) => Ok(Some(out)),
                    Err(e) => Err(ArrayError::CodecError(e)),
                }
            },
            None => Ok(None),
        }
    }

    /// Retrieve and decode the chunk at `chunk_indices`; an absent chunk
    /// yields the fill value repeated.
    pub fn retrieve_chunk_opt<TStorage: ReadableStorageTraits>(
        &self,
        storage: &TStorage,
        chunk_indices: &[u64],
        options: &CodecOptions,
    ) -> (r: Result<Vec<u8>, ArrayError>)
        requires
            self.wf(),
        ensures
            r matches Ok(out) ==> {
                &&& out@.len() == self.spec_chunk_byte_size(chunk_indices@)
                &&& if storage.store_view().contains_key(self.spec_chunk_key(chunk_indices@)) {
                    chain_decoding(
                        self.spec_codecs().spec_array_to_bytes(),
                        self.spec_codecs().spec_bytes_to_bytes(),
                        storage.store_view()[self.spec_chunk_key(chunk_indices@)],
                        self.spec_chunk_byte_size(chunk_indices@),
                        self.spec_data_type().spec_size() as nat,
                    ) == Some(out@)
                } else {
                    all_fill(self.spec_fill_value().spec_bytes(), out@)
                }
            },
            r matches Err(e) ==> e is InvalidChunkGridIndicesError || e is UnrepresentableChunk
                || e is StorageError || e is CodecError,
    {
        let rep = match self.chunk_array_representation(chunk_indices) {
            Ok(rep) => rep,
            Err(e) => {
                return Err(e);
            },
        };
        match self.retrieve_chunk_if_exists_opt(storage, chunk_indices, options) {
            Ok(Some(out)) => {
                proof {
                    assert(out@.len() == rep.spec_size());
                }
                Ok(out)
            },
            Ok(None) => {
                let n = rep.num_elements();
                proof {
                    let esz = rep.spec_data_type().spec_size() as int;
                    assert((n as int) * esz <= usize::MAX);
                    assert(rep.spec_fill_value().spec_bytes().len() >= 1);
                    assert(rep.spec_fill_value().spec_bytes().len() as int * (n as int) == (
                    n as int) * esz) by (nonlinear_arith)
                        requires
                            rep.spec_fill_value().spec_bytes().len() as int == esz,
                    ;
                }
                Ok(rep.fill_value().repeated(n as usize))
            },
            Err(e) => Err(e),
        }
    }

    /// Retrieve and decode the chunk at `chunk_indices` with default codec
    /// options.
    pub fn retrieve_chunk<TStorage: ReadableStorageTraits>(
        &self,
        storage: &TStorage,
        chunk_indices: &[u64],
    ) -> (r: Result<Vec<u8>, ArrayError>)
        requires
            self.wf(),
        ensures
            r matches Ok(out) ==> {
                &&& out@.len() == self.spec_chunk_byte_size(chunk_indices@)
                &&& if storage.store_view().contains_key(self.spec_chunk_key(chunk_indices@)) {
                    chain_decoding(
                        self.spec_codecs().spec_array_to_bytes(),
                        self.spec_codecs().spec_bytes_to_bytes(),
                        storage.store_view()[self.spec_chunk_key(chunk_indices@)],
                        self.spec_chunk_byte_size(chunk_indices@),
                        self.spec_data_type().spec_size() as nat,
                    ) == Some(out@)
                } else {
                    all_fill(self.spec_fill_value().spec_bytes(), out@)
                }
            },
    {
        let options = CodecOptions::new();
        self.retrieve_chunk_opt(storage, chunk_indices, &options)
    }

    /// Retrieve and decode the chunk at `chunk_indices` with default codec
    /// options, or `None` if no chunk is stored there.
    pub fn retrieve_chunk_if_exists<TStorage: ReadableStorageTraits>(
        &self,
        storage: &TStorage,
        chunk_indices: &[u64],
    ) -> (r: Result<Option<Vec<u8>>, ArrayError>)
        requires
            self.wf(),
        ensures
            r matches Ok(o) ==> (o is Some <==> storage.store_view().contains_key(
                self.spec_chunk_key(chunk_indices@),
            )),
    {
        let options = CodecOptions::new();
        self.retrieve_chunk_if_exists_opt(storage, chunk_indices, &options)
    }

    /// Build a partial decoder for the chunk at `chunk_indices`, rooted at
    /// a store-backed byte reader.
    pub fn partial_decoder_opt<'a, TStorage: ReadableStorageTraits>(
        &self,
        storage: &'a TStorage,
        chunk_indices: &[u64],
        options: &CodecOptions,
    ) -> (r: Result<ArrayPartialDecoder<'a, TStorage>, ArrayError>)
        requires
            self.wf(),
        ensures
            r matches Ok(d) ==> crate::codec::array_decoder_wf(d)
                && crate::codec::array_decoder_representation(d).spec_shape()
                == self.spec_chunk_shape(chunk_indices@),
    {
        let rep = match self.chunk_array_representation(chunk_indices) {
            Ok(rep) => rep,
            Err(e) => {
                return Err(e);
            },
        };
        let key = self.chunk_key(chunk_indices);
        let input = BytesPartialDecoder::Storage(StoragePartialDecoder::new(storage, key));
        match self.codecs().partial_decoder(input, &rep, options) {
            Ok(d) => Ok(d),
            Err(e) => Err(ArrayError::CodecError(e)),
        }
    }

    /// Build a partial decoder for the chunk at `chunk_indices` with
    /// default codec options.
    pub fn partial_decoder<'a, TStorage: ReadableStorageTraits>(
        &self,
        storage: &'a TStorage,
        chunk_indices: &[u64],
    ) -> (r: Result<ArrayPartialDecoder<'a, TStorage>, ArrayError>)
        requires
            self.wf(),
        ensures
            r matches Ok(d) ==> crate::codec::array_decoder_wf(d)
                && crate::codec::array_decoder_representation(d).spec_shape()
                == self.spec_chunk_shape(chunk_indices@),
    {
        let options = CodecOptions::new();
        self.partial_decoder_opt(storage, chunk_indices, &options)
    }

    /// Retrieve the given subset of the chunk at `chunk_indices`: the
    /// subset's slab of the decoded chunk, or the fill value repeated where
    /// no chunk is stored.
    pub fn retrieve_chunk_subset_opt<TStorage: ReadableStorageTraits>(
        &self,
        storage: &TStorage,
        chunk_indices: &[u64],
        chunk_subset: &ArraySubset,
        options: &CodecOptions,
    ) -> (r: Result<Vec<u8>, ArrayError>)
        requires
            self.wf(),
            chunk_subset.wf(),
        ensures
            r matches Ok(out) ==> {
                &&& subset_within(
                    chunk_subset.spec_start(),
                    chunk_subset.spec_shape(),
                    self.spec_chunk_shape(chunk_indices@),
                )
                &&& out@.len() == shape_product(chunk_subset.spec_shape())
                    * self.spec_data_type().spec_size()
                &&& if storage.store_view().contains_key(self.spec_chunk_key(chunk_indices@)) {
                    match chain_decoding(
                        self.spec_codecs().spec_array_to_bytes(),
                        self.spec_codecs().spec_bytes_to_bytes(),
                        storage.store_view()[self.spec_chunk_key(chunk_indices@)],
                        self.spec_chunk_byte_size(chunk_indices@),
                        self.spec_data_type().spec_size() as nat,
                    ) {
                        Some(v) => out@ == extracted_bytes(
                            v,
                            chunk_subset.spec_start(),
                            chunk_subset.spec_shape(),
                            self.spec_chunk_shape(chunk_indices@),
                            self.spec_data_type().spec_size() as nat,
                        ),
                        None => false,
                    }
                } else {
                    all_fill(self.spec_fill_value().spec_bytes(), out@)
                }
            },
            self.spec_chunk_in_grid(chunk_indices@) && self.spec_chunk_byte_size(chunk_indices@)
                <= usize::MAX && !subset_within(
                chunk_subset.spec_start(),
                chunk_subset.spec_shape(),
                self.spec_chunk_shape(chunk_indices@),
            ) ==> r is Err,
            r matches Err(e) ==> (!(e is StorageError) && !(e is CodecError)
                && self.spec_chunk_in_grid(chunk_indices@) && self.spec_chunk_byte_size(
                chunk_indices@,
            ) <= usize::MAX ==> e is InvalidChunkSubset && !subset_within(
                chunk_subset.spec_start(),
                chunk_subset.spec_shape(),
                self.spec_chunk_shape(chunk_indices@),
            )),
    {
        let rep = match self.chunk_array_representation(chunk_indices) {
            Ok(rep) => rep,
            Err(e) => {
                return Err(e);
            },
        };
        let chunk = match self.retrieve_chunk_if_exists_opt(storage, chunk_indices, options) {
            Ok(o) => o,
            Err(e) => {
                return Err(e);
            },
        };
        if !chunk_subset.contained_in(rep.shape()) {
            return Err(ArrayError::InvalidChunkSubset);
        }
        proof {
            assert forall|t: int|
                0 <= t < chunk_subset.spec_shape().len() implies (
            #[trigger] chunk_subset.spec_shape()[t]) <= rep.spec_shape()[t] by {
                assert(chunk_subset.spec_start()[t] + chunk_subset.spec_shape()[t]
                    <= rep.spec_shape()[t]);
            }
            crate::indexing::lemma_shape_product_monotone(
                chunk_subset.spec_shape(),
                rep.spec_shape(),
            );
            let esz = rep.spec_data_type().spec_size() as int;
            assert(esz >= 1);
            assert(shape_product(chunk_subset.spec_shape()) * esz <= shape_product(
                rep.spec_shape(),
            ) * esz) by (nonlinear_arith)
                requires
                    shape_product(chunk_subset.spec_shape()) <= shape_product(rep.spec_shape()),
                    esz >= 0,
            ;
        }
        match chunk {
            Some(decoded) => {
                let esize = rep.element_size();
                Ok(chunk_subset.extract_bytes(decoded.as_slice(), rep.shape(), esize))
            },
            None => {
                let n = match crate::indexing::checked_num_elements(chunk_subset.shape()) {
                    Some(n) => n,
                    None => {
                        proof {
                            let j = choose|j: int|
                                0 <= j < chunk_subset.spec_shape().len() && shape_product(
                                    #[trigger] chunk_subset.spec_shape().take(j),
                                ) * (chunk_subset.spec_shape()[j] as nat) > u64::MAX;
                            lemma_subset_prefix_product_fits(
                                chunk_subset.spec_shape(),
                                rep.spec_shape(),
                                rep.spec_data_type().spec_size() as nat,
                                j,
                            );
                            assert(false);
                        }
                        0
                    },
                };
                proof {
                    let esz = rep.spec_data_type().spec_size() as int;
                    assert((n as int) * esz <= shape_product(rep.spec_shape()) * esz)
                        by (nonlinear_arith)
                        requires
                            n as int <= shape_product(rep.spec_shape()),
                            esz >= 0,
                    ;
                    assert(rep.spec_fill_value().spec_bytes().len() as int * (n as int) == (
                    n as int) * esz) by (nonlinear_arith)
                        requires
                            rep.spec_fill_value().spec_bytes().len() as int == esz,
                    ;
                }
                Ok(rep.fill_value().repeated(n as usize))
            },
        }
    }

    /// Retrieve the given subset of the chunk at `chunk_indices` with
    /// default codec options.
    pub fn retrieve_chunk_subset<TStorage: ReadableStorageTraits>(
        &self,
        storage: &TStorage,
        chunk_indices: &[u64],
        chunk_subset: &ArraySubset,
    ) -> (r: Result<Vec<u8>, ArrayError>)
        requires
            self.wf(),
            chunk_subset.wf(),
        ensures
            r matches Ok(out) ==> out@.len() == shape_product(chunk_subset.spec_shape())
                * self.spec_data_type().spec_size(),
    {
        let options = CodecOptions::new();
        self.retrieve_chunk_subset_opt(storage, chunk_indices, chunk_subset, &options)
    }

    /// Retrieve the given subset of the array: per intersecting chunk, the
    /// chunk's overlap with the subset is decoded and copied into place;
    /// regions over no stored chunk read as the fill value.
    pub fn retrieve_array_subset_opt<TStorage: ReadableStorageTraits>(
        &self,
        storage: &TStorage,
        array_subset: &ArraySubset,
        options: &CodecOptions,
    ) -> (r: Result<Vec<u8>, ArrayError>)
        requires
            self.wf(),
            array_subset.wf(),
        ensures
            r matches Ok(out) ==> subset_within(
                array_subset.spec_start(),
                array_subset.spec_shape(),
                self.spec_shape(),
            ) && out@.len() == shape_product(array_subset.spec_shape())
                * self.spec_data_type().spec_size(),
            r matches Ok(out) ==> out@ == spec_retrieve_subset_fold(
                *self,
                storage.store_view(),
                *array_subset,
                shape_product(self.spec_chunks_rect(*array_subset).1) as int,
            ),
            !subset_within(
                array_subset.spec_start(),
                array_subset.spec_shape(),
                self.spec_shape(),
            ) ==> r == Err::<Vec<u8>, ArrayError>(ArrayError::InvalidArraySubset),
    {
        if !array_subset.contained_in(self.shape()) {
            return Err(ArrayError::InvalidArraySubset);
        }
        let num_elements = match crate::indexing::checked_num_elements(array_subset.shape()) {
            Some(n) => n,
            None => {
                return Err(ArrayError::UnrepresentableChunk);
            },
        };
        let esize = self.data_type().size();
        let out_bytes = match num_elements.checked_mul(esize as u64) {
            Some(b) => b,
            None => {
                return Err(ArrayError::UnrepresentableChunk);
            },
        };
        if out_bytes > usize::MAX as u64 {
            return Err(ArrayError::UnrepresentableChunk);
        }
        let fill = self.fill_value();
        proof {
            let esz = self.spec_data_type().spec_size() as int;
            assert(self.spec_fill_value().spec_bytes().len() as int * (num_elements as int) == (
            num_elements as int) * esz) by (nonlinear_arith)
                requires
                    self.spec_fill_value().spec_bytes().len() as int == esz,
            ;
        }
        let mut out: Vec<u8> = fill.repeated(num_elements as usize);
        proof {
            assert(out@ =~= fill_chunk_bytes(
                self.spec_fill_value().spec_bytes(),
                shape_product(array_subset.spec_shape()),
            ));
        }
        let chunks = match self.chunks_in_array_subset(array_subset) {
            Ok(Some(c)) => c,
            Ok(None) => {
                return Err(ArrayError::InvalidArraySubset);
            },
            Err(e) => {
                return Err(ArrayError::IncompatibleDimensionalityError(e));
            },
        };
        let chunk_coords = match crate::indexing::checked_num_elements(chunks.shape()) {
            Some(n) => n,
            None => {
                return Err(ArrayError::UnrepresentableChunk);
            },
        };
        if chunk_coords > usize::MAX as u64 {
            return Err(ArrayError::UnrepresentableChunk);
        }
        let coords = chunks.indices();
        let mut ci: usize = 0;
        while ci < coords.len()
            invariant
                self.wf(),
                array_subset.wf(),
                chunks.wf(),
                subset_within(
                    array_subset.spec_start(),
                    array_subset.spec_shape(),
                    self.spec_shape(),
                ),
                esize == self.spec_data_type().spec_size(),
                out@.len() == shape_product(array_subset.spec_shape()) * esize,
                0 <= ci <= coords@.len(),
                coords@.len() == chunks.spec_num_elements(),
                forall|k: int|
                    0 <= k < coords@.len() ==> #[trigger] coords@[k]@ == coords_add(
                        chunks.spec_start(),
                        delinearise(k as nat, chunks.spec_shape()),
                    ),
                chunks.spec_start() == self.spec_chunks_rect(*array_subset).0,
                chunks.spec_shape() == self.spec_chunks_rect(*array_subset).1,
                out@ == spec_retrieve_subset_fold(
                    *self,
                    storage.store_view(),
                    *array_subset,
                    ci as int,
                ),
            decreases coords@.len() - ci,
        {
            let chunk_indices = &coords[ci];
            let chunk_subset_b = match self.chunk_subset_bounded(chunk_indices.as_slice()) {
                Ok(s) => s,
                Err(e) => {
                    return Err(e);
                },
            };
            proof {
                assert(array_subset.end_fits()) by {
                    assert(forall|t: int|
                        0 <= t < array_subset.spec_start().len()
                            ==> (#[trigger] array_subset.spec_start()[t])
                            + array_subset.spec_shape()[t] <= self.spec_shape()[t]);
                }
            }
            let overlap = array_subset.overlap(&chunk_subset_b);
            if !overlap.is_empty() {
                proof {
                    // the non-empty overlap lies within both subsets on every axis
                    assert forall|t: int| 0 <= t < overlap.spec_start().len() implies {
                        &&& array_subset.spec_start()[t] <= #[trigger] overlap.spec_start()[t]
                        &&& chunk_subset_b.spec_start()[t] <= overlap.spec_start()[t]
                        &&& overlap.spec_start()[t] + overlap.spec_shape()[t]
                            <= array_subset.spec_start()[t] + array_subset.spec_shape()[t]
                    } by {
                        assert(overlap.spec_start()[t] == crate::array_subset::max_u64(
                            array_subset.spec_start()[t],
                            chunk_subset_b.spec_start()[t],
                        ));
                        assert(overlap.spec_shape()[t] == crate::array_subset::overlap_extent(
                            array_subset.spec_start()[t],
                            array_subset.spec_shape()[t],
                            chunk_subset_b.spec_start()[t],
                            chunk_subset_b.spec_shape()[t],
                        ));
                        assert(overlap.spec_shape()[t] != 0);
                    }
                }
                let chunk_local = overlap.relative_to(chunk_subset_b.start());
                let output_local = overlap.relative_to(array_subset.start());
                let bytes = match self.retrieve_chunk_subset_opt(
                    storage,
                    chunk_indices.as_slice(),
                    &chunk_local,
                    options,
                ) {
                    Ok(b) => b,
                    Err(e) => {
                        return Err(e);
                    },
                };
                proof {
                    // the output-relative region lies within the requested subset
                    assert(subset_within(
                        output_local.spec_start(),
                        output_local.spec_shape(),
                        array_subset.spec_shape(),
                    )) by {
                        assert forall|t: int|
                            0 <= t < output_local.spec_start().len() implies (
                        #[trigger] output_local.spec_start()[t]) + output_local.spec_shape()[t]
                            <= array_subset.spec_shape()[t] by {
                            assert(output_local.spec_start()[t] == overlap.spec_start()[t]
                                - array_subset.spec_start()[t]);
                            assert(overlap.spec_start()[t] + overlap.spec_shape()[t]
                                <= array_subset.spec_start()[t]
                                + array_subset.spec_shape()[t]);
                        }
                    }
                    assert(output_local.spec_shape() == chunk_local.spec_shape());
                    assert(bytes@.len() == shape_product(output_local.spec_shape()) * esize);
                }
                let ghost pre_out = out@;
                output_local.splice_bytes(
                    &mut out,
                    bytes.as_slice(),
                    array_subset.shape(),
                    esize,
                );
                proof {
                    // this iteration is exactly one step of the fold
                    let c = chunk_indices@;
                    let ov = spec_chunk_overlap(*self, *array_subset, c);
                    assert(overlap.spec_start() =~= ov.0);
                    assert(overlap.spec_shape() =~= ov.1);
                    assert(!(exists|t: int| 0 <= t < ov.1.len() && #[trigger] ov.1[t] == 0));
                    assert(chunk_local.spec_start() =~= coords_sub(
                        ov.0,
                        self.spec_chunk_origin(c),
                    ));
                    assert(output_local.spec_start() =~= coords_sub(
                        ov.0,
                        array_subset.spec_start(),
                    ));
                    let key = self.spec_chunk_key(c);
                    if !storage.store_view().contains_key(key) {
                        assert(bytes@ =~= fill_chunk_bytes(
                            self.spec_fill_value().spec_bytes(),
                            shape_product(ov.1),
                        )) by {
                            assert(chunk_local.spec_shape() == ov.1);
                            assert(bytes@.len() == shape_product(ov.1)
                                * self.spec_fill_value().spec_bytes().len());
                        }
                    }
                    assert(out@ == spec_read_chunk_step(
                        *self,
                        storage.store_view(),
                        *array_subset,
                        pre_out,
                        c,
                    ));
                    assert(out@ == spec_retrieve_subset_fold(
                        *self,
                        storage.store_view(),
                        *array_subset,
                        ci + 1,
                    ));
                }
            } else {
                proof {
                    let c = chunk_indices@;
                    let ov = spec_chunk_overlap(*self, *array_subset, c);
                    assert(overlap.spec_shape() =~= ov.1);
                    let t = choose|t: int|
                        0 <= t < overlap.spec_shape().len()
                            && #[trigger] overlap.spec_shape()[t] == 0;
                    assert(ov.1[t] == 0);
                    assert(out@ == spec_retrieve_subset_fold(
                        *self,
                        storage.store_view(),
                        *array_subset,
                        ci + 1,
                    ));
                }
            }
            ci = ci + 1;
        }
        Ok(out)
    }

    /// Retrieve the given subset of the array with default codec options.
    pub fn retrieve_array_subset<TStorage: ReadableStorageTraits>(
        &self,
        storage: &TStorage,
        array_subset: &ArraySubset,
    ) -> (r: Result<Vec<u8>, ArrayError>)
        requires
            self.wf(),
            array_subset.wf(),
        ensures
            r matches Ok(out) ==> subset_within(
                array_subset.spec_start(),
                array_subset.spec_shape(),
                self.spec_shape(),
            ) && out@.len() == shape_product(array_subset.spec_shape())
                * self.spec_data_type().spec_size(),
            r matches Ok(out) ==> out@ == spec_retrieve_subset_fold(
                *self,
                storage.store_view(),
                *array_subset,
                shape_product(self.spec_chunks_rect(*array_subset).1) as int,
            ),
            !subset_within(
                array_subset.spec_start(),
                array_subset.spec_shape(),
                self.spec_shape(),
            ) ==> r == Err::<Vec<u8>, ArrayError>(ArrayError::InvalidArraySubset),
    {
        let options = CodecOptions::new();
        self.retrieve_array_subset_opt(storage, array_subset, &options)
    }
}

/// A prefix product of a subset of a chunk fits in `u64`.
pub proof fn lemma_subset_prefix_product_fits(sub: Seq<u64>, chunk: Seq<u64>, esize: nat, j: int)
    requires
        sub.len() == chunk.len(),
        forall|i: int| 0 <= i < sub.len() ==> #[trigger] sub[i] <= chunk[i],
        crate::indexing::shape_positive(chunk),
        esize >= 1,
        shape_product(chunk) * esize <= usize::MAX,
        0 <= j < sub.len(),
    ensures
        shape_product(sub.take(j)) * (sub[j] as nat) <= u64::MAX,
{
    assert(sub.take(j + 1).drop_last() =~= sub.take(j));
    assert(sub.take(j + 1).last() == sub[j]);
    assert(forall|k: int|
        0 <= k < j + 1 ==> (#[trigger] sub.take(j + 1)[k]) <= chunk.take(j + 1)[k]);
    crate::indexing::lemma_shape_product_monotone(sub.take(j + 1), chunk.take(j + 1));
    crate::indexing::lemma_shape_product_split(chunk, j + 1);
    assert(crate::indexing::shape_positive(chunk.skip(j + 1))) by {
        assert(forall|k: int|
            0 <= k < chunk.skip(j + 1).len() ==> (#[trigger] chunk.skip(j + 1)[k]) == chunk[j + 1
                + k]);
    }
    crate::indexing::lemma_shape_product_positive(chunk.skip(j + 1));
    assert(shape_product(chunk.take(j + 1)) <= shape_product(chunk)) by (nonlinear_arith)
        requires
            shape_product(chunk) == shape_product(chunk.take(j + 1)) * shape_product(
                chunk.skip(j + 1),
            ),
            shape_product(chunk.skip(j + 1)) >= 1,
            shape_product(chunk.take(j + 1)) >= 0,
    ;
    assert(shape_product(chunk) <= shape_product(chunk) * esize) by (nonlinear_arith)
        requires
            esize >= 1,
            shape_product(chunk) >= 0,
    ;
}

} // verus!
