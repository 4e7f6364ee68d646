//! A cache for array partial decoders.

use vstd::prelude::*;

use crate::array_representation::ChunkRepresentation;
use crate::array_subset::{extracted_bytes, ArraySubset};
use crate::codec::{
    array_decoder_representation, array_decoder_wf, array_source, partial_decode_expected,
    ArrayPartialDecoder, CodecError, CodecOptions,
};
use crate::fill_value::all_fill;
use crate::indexing::shape_product;
use crate::storage::ReadableStorageTraits;

verus! {

/// An array partial decoder cache: the whole decoded chunk, materialised
/// once. An absent chunk is materialised as the fill value repeated.
pub struct ArrayPartialDecoderCache {
    decoded_representation: ChunkRepresentation,
    cache: Vec<u8>,
}

impl ArrayPartialDecoderCache {
    /// The cached decoded chunk.
    pub closed spec fn spec_cache(&self) -> Seq<u8> {
        self.cache@
    }

    /// The representation of the cached chunk.
    pub closed spec fn spec_representation(&self) -> ChunkRepresentation {
        self.decoded_representation
    }

    /// Create a new partial decoder cache, materialising the whole chunk.
    ///
    /// The cache holds what the upstream decoder decodes the whole chunk
    /// to: its decoded bytes, or the fill value repeated where no chunk is
    /// stored, so later partial decodes serve the same bytes the upstream
    /// decoder would.
    pub fn new<'a, TStorage: ReadableStorageTraits>(
        input_handle: &ArrayPartialDecoder<'a, TStorage>,
        decoded_representation: ChunkRepresentation,
        options: &CodecOptions,
    ) -> (r: Result<Self, CodecError>)
        requires
            array_decoder_wf(*input_handle),
            decoded_representation.spec_shape() == array_decoder_representation(
                *input_handle,
            ).spec_shape(),
            decoded_representation.spec_data_type() == array_decoder_representation(
                *input_handle,
            ).spec_data_type(),
            decoded_representation.spec_fill_value().spec_bytes()
                == array_decoder_representation(*input_handle).spec_fill_value().spec_bytes(),
        ensures
            r matches Ok(c) ==> {
                &&& c.spec_representation() == decoded_representation
                &&& c.spec_cache().len() == c.spec_representation().spec_size()
                &&& match array_source(*input_handle) {
                    Some(Some(v)) => c.spec_cache() == v,
                    Some(None) => all_fill(
                        c.spec_representation().spec_fill_value().spec_bytes(),
                        c.spec_cache(),
                    ),
                    None => true,
                }
            },
    {
        let shape = vstd::slice::slice_to_vec(decoded_representation.shape());
        let whole = ArraySubset::new_with_shape(shape);
        let mut subsets: Vec<ArraySubset> = Vec::new();
        subsets.push(whole);
        let mut bufs = match input_handle.partial_decode_opt(subsets.as_slice(), options) {
            Ok(b) => b,
            Err(e) => {
                return Err(e);
            },
        };
        let cache = match bufs.pop() {
            Some(c) => c,
            None => {
                proof {
                    assert(false);
                }
                Vec::new()
            },
        };
        proof {
            let rep = array_decoder_representation(*input_handle);
            let sub = subsets@[0];
            assert(partial_decode_expected(*input_handle, sub, cache@));
            assert(sub.spec_shape() == rep.spec_shape());
            match array_source(*input_handle) {
                Some(Some(v)) => {
                    // the whole-chunk slab of the chunk is the chunk itself
                    assert(cache@ =~= v) by {
                        lemma_whole_extract(v, rep);
                        assert(cache@ == extracted_bytes(
                            v,
                            sub.spec_start(),
                            sub.spec_shape(),
                            rep.spec_shape(),
                            rep.spec_data_type().spec_size() as nat,
                        ));
                        assert(sub.spec_start() =~= Seq::new(
                            rep.spec_shape().len(),
                            |i: int| 0u64,
                        ));
                        assert(extracted_bytes(
                            v,
                            Seq::new(rep.spec_shape().len(), |i: int| 0u64),
                            rep.spec_shape(),
                            rep.spec_shape(),
                            rep.spec_data_type().spec_size() as nat,
                        ) =~= v);
                    }
                },
                Some(None) => {},
                None => {},
            }
        }
        Ok(ArrayPartialDecoderCache { decoded_representation, cache })
    }

    /// The element size of the cached chunk.
    pub fn element_size(&self) -> (r: usize)
        ensures
            r == self.spec_representation().spec_data_type().spec_size(),
    {
        self.decoded_representation.element_size()
    }

    /// The representation of the cached chunk.
    pub fn representation(&self) -> (r: &ChunkRepresentation)
        ensures
            *r == self.spec_representation(),
    {
        &self.decoded_representation
    }

    /// The cached decoded chunk.
    pub fn cached_chunk(&self) -> (r: Vec<u8>)
        ensures
            r@ == self.spec_cache(),
    {
        self.cache.clone()
    }
}

/// Extracting the whole of a chunk gives the chunk back.
proof fn lemma_whole_extract(v: Seq<u8>, rep: ChunkRepresentation)
    requires
        rep.wf(),
        v.len() == rep.spec_size(),
    ensures
        extracted_bytes(
            v,
            Seq::new(rep.spec_shape().len(), |i: int| 0u64),
            rep.spec_shape(),
            rep.spec_shape(),
            rep.spec_data_type().spec_size() as nat,
        ) =~= v,
{
    let zeros = Seq::new(rep.spec_shape().len(), |i: int| 0u64);
    let shape = rep.spec_shape();
    let esize = rep.spec_data_type().spec_size() as nat;
    let ext = extracted_bytes(v, zeros, shape, shape, esize);
    assert(ext.len() == v.len());
    assert forall|p: int| 0 <= p < ext.len() implies ext[p] == v[p] by {
        let e = esize as int;
        assert(e >= 1);
        let k = (p / e) as nat;
        vstd::arithmetic::div_mod::lemma_fundamental_div_mod(p, e);
        vstd::arithmetic::div_mod::lemma_mod_bound(p, e);
        assert(0 <= p / e) by (nonlinear_arith)
            requires
                p >= 0,
                e >= 1,
        ;
        assert(k < shape_product(shape)) by (nonlinear_arith)
            requires
                k == p / e,
                p < shape_product(shape) * e,
                p == e * (p / e) + p % e,
                0 <= p % e < e,
                e >= 1,
        ;
        crate::indexing::lemma_delinearise_in_bounds(k, shape);
        crate::indexing::lemma_linearise_delinearise(k, shape);
        assert(crate::array_subset::coords_add(zeros, crate::indexing::delinearise(k, shape))
            =~= crate::indexing::delinearise(k, shape));
        assert(crate::array_subset::source_index(zeros, shape, shape, k) == k);
        assert(ext[p] == v[k * e + (p % e)]);
        assert(k * e + p % e == p) by (nonlinear_arith)
            requires
                p == e * (p / e) + p % e,
                k == p / e,
        ;
    }
}

} // verus!
