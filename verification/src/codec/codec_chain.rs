//! The codec chain: one array-to-bytes codec followed by bytes-to-bytes
//! codecs.
//!
//! Encoding streams forward through the stages; decoding streams backward
//! and inverts encoding. A partial decoder walks the stages in reverse and
//! inserts a cache so that any stage that must drain its whole input is
//! drained only once per request.

use vstd::prelude::*;
use vstd::string::StringExecFns;

use crate::array_representation::{BytesRepresentation, ChunkRepresentation};
use crate::array_subset::{spliced_bytes, subset_within, ArraySubset};
use crate::codec::array_partial_decoder_cache::ArrayPartialDecoderCache;
use crate::codec::bytes_partial_decoder_cache::BytesPartialDecoderCache;
use crate::codec::{
    array_decoder_representation, array_decoder_wf, array_source, bytes_codec_encoding,
    bytes_source, codec_matches_metadata, len_matches_rep, lemma_b2b_encoded_size_step,
    spec_b2b_encode_ok, spec_b2b_encoded_size, zstd_bound_len, ArrayPartialDecoder,
    ArrayToBytesCodec, BytesCodec, BytesPartialDecoder, BytesToBytesCodec, Codec, CodecError,
    CodecOptions, ZstdCodec,
};
use crate::concurrency::RecommendedConcurrency;
use crate::fill_value::all_fill;
use crate::json::JsonValue;
use crate::metadata::{Metadata, PluginCreateError};
use crate::storage::ReadableStorageTraits;

verus! {

/// The bytes-to-bytes stages of a chain applied in order to `data`,
/// stage `i` first, starting from stage index `i == 0`.
pub open spec fn chain_b2b_encoding(cs: Seq<BytesToBytesCodec>, i: int, data: Seq<u8>) -> Seq<u8>
    decreases cs.len() - i,
{
    if i < 0 || i >= cs.len() {
        data
    } else {
        chain_b2b_encoding(cs, i + 1, cs[i].spec_encoding(data))
    }
}

/// The bytes-to-bytes stages of a prefix of the chain, decoded in reverse
/// order: what decoding `data` through stages `0 .. n` returns.
pub open spec fn chain_b2b_decoding(cs: Seq<BytesToBytesCodec>, n: int, data: Seq<u8>) -> Option<
    Seq<u8>,
>
    decreases n,
{
    if n <= 0 {
        Some(data)
    } else {
        match cs[n - 1].spec_decoding(data) {
            None => None,
            Some(d) => chain_b2b_decoding(cs, n - 1, d),
        }
    }
}

/// What the whole chain decodes `data` to: the bytes-to-bytes stages in
/// reverse, then the array-to-bytes stage, `None` where a stage fails or a
/// length disagrees with the representation.
pub open spec fn chain_decoding(
    a2b: ArrayToBytesCodec,
    cs: Seq<BytesToBytesCodec>,
    data: Seq<u8>,
    size: nat,
    esize: nat,
) -> Option<Seq<u8>> {
    match chain_b2b_decoding(cs, cs.len() as int, data) {
        None => None,
        Some(mid) => {
            if mid.len() == size {
                Some(a2b.spec_encoding(mid, esize))
            } else {
                None
            }
        },
    }
}

/// Whether every bytes-to-bytes stage from `i` on encodes `data` without
/// failing.
pub open spec fn chain_b2b_encode_ok(cs: Seq<BytesToBytesCodec>, i: int, data: Seq<u8>) -> bool
    decreases cs.len() - i,
{
    if i < 0 || i >= cs.len() {
        true
    } else {
        spec_b2b_encode_ok(cs[i], data) && chain_b2b_encode_ok(cs, i + 1, cs[i].spec_encoding(data))
    }
}

/// Whether the whole chain encodes decoded chunk bytes of the right length
/// without failing.
pub open spec fn chain_encode_ok(
    a2b: ArrayToBytesCodec,
    cs: Seq<BytesToBytesCodec>,
    data: Seq<u8>,
    size: nat,
    esize: nat,
) -> bool {
    data.len() == size && chain_b2b_encode_ok(cs, 0, a2b.spec_encoding(data, esize))
}

/// The representation of the chain's output: the bytes-to-bytes stages from
/// `i` on, folded over `rep`.
pub open spec fn chain_encoded_size(
    cs: Seq<BytesToBytesCodec>,
    i: int,
    rep: BytesRepresentation,
) -> BytesRepresentation
    decreases cs.len() - i,
{
    if i < 0 || i >= cs.len() {
        rep
    } else {
        chain_encoded_size(cs, i + 1, spec_b2b_encoded_size(cs[i], rep))
    }
}

/// What the whole chain encodes `data` to.
pub open spec fn chain_encoding(
    a2b: ArrayToBytesCodec,
    cs: Seq<BytesToBytesCodec>,
    data: Seq<u8>,
    esize: nat,
) -> Seq<u8> {
    chain_b2b_encoding(cs, 0, a2b.spec_encoding(data, esize))
}

/// How many of the first `j` metadata entries name the array-to-bytes
/// codec.
pub open spec fn a2b_count(ms: Seq<Metadata>, j: int) -> int
    decreases j,
{
    if j <= 0 {
        0
    } else {
        a2b_count(ms, j - 1) + (if ms[j - 1].name@ == "bytes"@ {
            1int
        } else {
            0int
        })
    }
}

/// How many of the first `j` metadata entries name a bytes-to-bytes codec.
pub open spec fn b2b_count(ms: Seq<Metadata>, j: int) -> int
    decreases j,
{
    if j <= 0 {
        0
    } else {
        b2b_count(ms, j - 1) + (if ms[j - 1].name@ == "bytes"@ {
            0int
        } else {
            1int
        })
    }
}

/// Counting over a longer prefix never counts less.
proof fn lemma_a2b_count_monotone(ms: Seq<Metadata>, j: int, k: int)
    requires
        0 <= j <= k,
    ensures
        a2b_count(ms, j) <= a2b_count(ms, k),
    decreases k - j,
{
    if j < k {
        lemma_a2b_count_monotone(ms, j, k - 1);
    }
}

/// Counting over a longer prefix never counts less.
proof fn lemma_b2b_count_monotone(ms: Seq<Metadata>, j: int, k: int)
    requires
        0 <= j <= k,
    ensures
        b2b_count(ms, j) <= b2b_count(ms, k),
    decreases k - j,
{
    if j < k {
        lemma_b2b_count_monotone(ms, j, k - 1);
    }
}

/// A codec chain: one array-to-bytes codec and an ordered list of
/// bytes-to-bytes codecs.
#[derive(Debug)]
pub struct CodecChain {
    array_to_bytes: ArrayToBytesCodec,
    bytes_to_bytes: Vec<BytesToBytesCodec>,
    cache_index: Option<usize>,
}

impl CodecChain {
    /// The array-to-bytes stage.
    pub closed spec fn spec_array_to_bytes(&self) -> ArrayToBytesCodec {
        self.array_to_bytes
    }

    /// The bytes-to-bytes stages, in encode order.
    pub closed spec fn spec_bytes_to_bytes(&self) -> Seq<BytesToBytesCodec> {
        self.bytes_to_bytes@
    }

    /// Where a cache is inserted when building a partial decoder, counting
    /// stages from the output backwards.
    pub closed spec fn spec_cache_index(&self) -> Option<usize> {
        self.cache_index
    }

    /// The chain is well formed: the cache sits on the input side of the
    /// array-to-bytes stage, whose partial decoder drains its input.
    pub open spec fn wf(&self) -> bool {
        self.spec_cache_index() == Some((self.spec_bytes_to_bytes().len() + 1) as usize)
    }

    /// Create a new codec chain.
    ///
    /// The cache position for partial decoding is the input side of the
    /// stage closest to the output whose partial decoder drains its whole
    /// input; every codec of this library drains its input, so the cache
    /// sits just above the array-to-bytes stage.
    pub fn new(
        array_to_bytes: ArrayToBytesCodec,
        bytes_to_bytes: Vec<BytesToBytesCodec>,
    ) -> (r: Self)
        requires
            bytes_to_bytes@.len() < usize::MAX - 1,
        ensures
            r.spec_array_to_bytes() == array_to_bytes,
            r.spec_bytes_to_bytes() == bytes_to_bytes@,
            r.wf(),
    {
        let mut cache_index_must: Option<usize> = None;
        let mut cache_index_should: Option<usize> = None;
        let mut codec_index: usize = 0;
        let n = bytes_to_bytes.len();
        let mut k: usize = 0;
        while k < n
            invariant
                0 <= k <= n,
                n == bytes_to_bytes@.len(),
                n < usize::MAX - 1,
                codec_index == k,
                cache_index_should is None,
                cache_index_must == (if k > 0 {
                    Some(k)
                } else {
                    None::<usize>
                }),
            decreases n - k,
        {
            let codec = &bytes_to_bytes[n - 1 - k];
            if cache_index_should.is_none() && codec.partial_decoder_should_cache_input() {
                cache_index_should = Some(codec_index);
            }
            if codec.partial_decoder_decodes_all() {
                cache_index_must = Some(codec_index + 1);
            }
            codec_index = codec_index + 1;
            k = k + 1;
        }
        if cache_index_should.is_none() && array_to_bytes.partial_decoder_should_cache_input() {
            cache_index_should = Some(codec_index);
        }
        if array_to_bytes.partial_decoder_decodes_all() {
            cache_index_must = Some(codec_index + 1);
        }
        let cache_index = match (cache_index_must, cache_index_should) {
            (Some(m), Some(s)) => Some(
                if m > s {
                    m
                } else {
                    s
                },
            ),
            (Some(m), None) => Some(m),
            (None, Some(s)) => Some(s),
            (None, None) => None,
        };
        CodecChain { array_to_bytes, bytes_to_bytes, cache_index }
    }

    /// The array-to-bytes codec of the chain.
    pub fn array_to_bytes_codec(&self) -> (r: &ArrayToBytesCodec)
        ensures
            *r == self.spec_array_to_bytes(),
    {
        &self.array_to_bytes
    }

    /// The bytes-to-bytes codecs of the chain.
    pub fn bytes_to_bytes_codecs(&self) -> (r: &Vec<BytesToBytesCodec>)
        ensures
            r@ == self.spec_bytes_to_bytes(),
    {
        &self.bytes_to_bytes
    }

    /// Encode the decoded bytes of a chunk through every stage.
    ///
    /// Fails when the input length disagrees with the representation, or
    /// when a stage fails. On success the result is the chain's encoding of
    /// the input, and decoding it through the chain yields the input back.
    pub fn encode(
        &self,
        decoded_value: Vec<u8>,
        decoded_representation: &ChunkRepresentation,
        options: &CodecOptions,
    ) -> (r: Result<Vec<u8>, CodecError>)
        requires
            decoded_representation.wf(),
        ensures
            r is Ok <==> chain_encode_ok(
                self.spec_array_to_bytes(),
                self.spec_bytes_to_bytes(),
                decoded_value@,
                decoded_representation.spec_size(),
                decoded_representation.spec_data_type().spec_size() as nat,
            ),
            decoded_value@.len() != decoded_representation.spec_size() ==> r == Err::<
                Vec<u8>,
                CodecError,
            >(
                CodecError::UnexpectedChunkDecodedSize(
                    decoded_value@.len() as usize,
                    decoded_representation.spec_size() as u64,
                ),
            ),
            r matches Ok(out) ==> {
                &&& decoded_value@.len() == decoded_representation.spec_size()
                &&& out@ == chain_encoding(
                    self.spec_array_to_bytes(),
                    self.spec_bytes_to_bytes(),
                    decoded_value@,
                    decoded_representation.spec_data_type().spec_size() as nat,
                )
                &&& chain_decoding(
                    self.spec_array_to_bytes(),
                    self.spec_bytes_to_bytes(),
                    out@,
                    decoded_representation.spec_size(),
                    decoded_representation.spec_data_type().spec_size() as nat,
                ) == Some(decoded_value@)
                &&& len_matches_rep(
                    out@.len() as int,
                    chain_encoded_size(
                        self.spec_bytes_to_bytes(),
                        0,
                        BytesRepresentation::FixedSize(
                            decoded_representation.spec_size() as u64,
                        ),
                    ),
                )
            },
    {
        let ghost original = decoded_value@;
        let ghost cs = self.spec_bytes_to_bytes();
        let ghost init_rep = BytesRepresentation::FixedSize(
            decoded_representation.spec_size() as u64,
        );
        let mut value = match self.array_to_bytes.encode(
            decoded_value,
            decoded_representation,
            options,
        ) {
            Ok(v) => v,
            Err(e) => {
                return Err(e);
            },
        };
        let ghost mid = value@;
        let ghost mut grep = init_rep;
        proof {
            assert(mid.len() == decoded_representation.spec_size()) by {
                match self.spec_array_to_bytes() {
                    ArrayToBytesCodec::Bytes(_) => {},
                }
            }
        }
        let mut i: usize = 0;
        let n = self.bytes_to_bytes.len();
        while i < n
            invariant
                0 <= i <= n,
                n == cs.len(),
                cs == self.spec_bytes_to_bytes(),
                value@ == chain_b2b_encoding(cs.take(i as int), 0, mid),
                chain_b2b_decoding(cs, i as int, value@) == Some(mid),
                chain_b2b_encode_ok(cs, 0, mid) == chain_b2b_encode_ok(cs, i as int, value@),
                len_matches_rep(value@.len() as int, grep),
                chain_encoded_size(cs, 0, init_rep) == chain_encoded_size(cs, i as int, grep),
                original == decoded_value@,
                original.len() == decoded_representation.spec_size(),
                mid == self.spec_array_to_bytes().spec_encoding(
                    original,
                    decoded_representation.spec_data_type().spec_size() as nat,
                ),
            decreases n - i,
        {
            let ghost prev = value@;
            value = match self.bytes_to_bytes[i].encode(value, options) {
                Ok(v) => v,
                Err(e) => {
                    proof {
                        assert(!chain_b2b_encode_ok(cs, i as int, prev));
                    }
                    return Err(e);
                },
            };
            proof {
                lemma_b2b_encoded_size_step(
                    cs[i as int],
                    grep,
                    prev.len() as int,
                    value@.len() as int,
                );
                grep = spec_b2b_encoded_size(cs[i as int], grep);
            }
            i = i + 1;
            proof {
                lemma_chain_b2b_encoding_snoc(cs, i as int, mid);
                assert(cs[i - 1].spec_decoding(value@) == Some(prev));
            }
        }
        proof {
            assert(cs.take(n as int) =~= cs);
            lemma_chain_decoding_of_encoding(
                self.spec_array_to_bytes(),
                cs,
                original,
                value@,
                mid,
                *decoded_representation,
            );
        }
        Ok(value)
    }

    /// Decode the stored bytes of a chunk through every stage in reverse.
    ///
    /// Succeeds exactly when every stage decodes and the lengths agree with
    /// the representation; the result is what the chain decodes the input
    /// to.
    pub fn decode(
        &self,
        encoded_value: Vec<u8>,
        decoded_representation: &ChunkRepresentation,
        options: &CodecOptions,
    ) -> (r: Result<Vec<u8>, CodecError>)
        requires
            decoded_representation.wf(),
        ensures
            r matches Ok(out) ==> chain_decoding(
                self.spec_array_to_bytes(),
                self.spec_bytes_to_bytes(),
                encoded_value@,
                decoded_representation.spec_size(),
                decoded_representation.spec_data_type().spec_size() as nat,
            ) == Some(out@) && out@.len() == decoded_representation.spec_size(),
            r is Err ==> chain_decoding(
                self.spec_array_to_bytes(),
                self.spec_bytes_to_bytes(),
                encoded_value@,
                decoded_representation.spec_size(),
                decoded_representation.spec_data_type().spec_size() as nat,
            ) is None,
            r matches Err(e) ==> match chain_b2b_decoding(
                self.spec_bytes_to_bytes(),
                self.spec_bytes_to_bytes().len() as int,
                encoded_value@,
            ) {
                Some(mid) => e == CodecError::UnexpectedChunkDecodedSize(
                    mid.len() as usize,
                    decoded_representation.spec_size() as u64,
                ),
                None => true,
            },
    {
        let ghost cs = self.spec_bytes_to_bytes();
        let ghost original = encoded_value@;
        let mut value = encoded_value;
        let mut i: usize = self.bytes_to_bytes.len();
        while i > 0
            invariant
                0 <= i <= cs.len(),
                cs == self.spec_bytes_to_bytes(),
                original == encoded_value@,
                chain_b2b_decoding(cs, cs.len() as int, original) == chain_b2b_decoding(
                    cs,
                    i as int,
                    value@,
                ),
            decreases i,
        {
            let ghost prev = value@;
            value = match self.bytes_to_bytes[i - 1].decode(value, options) {
                Ok(v) => v,
                Err(e) => {
                    proof {
                        assert(chain_b2b_decoding(cs, i as int, prev) is None);
                    }
                    return Err(e);
                },
            };
            i = i - 1;
            proof {
                assert(cs[i as int].spec_decoding(prev) == Some(value@));
            }
        }
        proof {
            assert(chain_b2b_decoding(cs, 0, value@) == Some(value@));
        }
        match self.array_to_bytes.decode(value, decoded_representation, options) {
            Ok(out) => Ok(out),
            Err(e) => Err(e),
        }
    }

    /// The decoded chunk representations entering each array stage: with no
    /// array-to-array stages, the chunk's own representation alone.
    pub fn get_array_representations(&self, decoded_representation: &ChunkRepresentation) -> (r:
        Vec<ChunkRepresentation>)
        requires
            decoded_representation.wf(),
        ensures
            r@.len() == 1,
            r@[0].spec_shape() == decoded_representation.spec_shape(),
            r@[0].spec_data_type() == decoded_representation.spec_data_type(),
    {
        let mut out: Vec<ChunkRepresentation> = Vec::new();
        out.push(decoded_representation.duplicate());
        out
    }

    /// The byte representations entering each bytes stage: after the
    /// array-to-bytes stage and after every bytes-to-bytes stage in turn.
    pub fn get_bytes_representations(&self, decoded_representation: &ChunkRepresentation) -> (r:
        Vec<BytesRepresentation>)
        requires
            decoded_representation.wf(),
        ensures
            r@.len() == 1 + self.spec_bytes_to_bytes().len(),
    {
        let mut out: Vec<BytesRepresentation> = Vec::new();
        out.push(self.array_to_bytes.compute_encoded_size(decoded_representation));
        let mut i: usize = 0;
        let n = self.bytes_to_bytes.len();
        while i < n
            invariant
                0 <= i <= n,
                n == self.spec_bytes_to_bytes().len(),
                out@.len() == 1 + i,
            decreases n - i,
        {
            let last = out[out.len() - 1];
            out.push(self.bytes_to_bytes[i].compute_encoded_size(&last));
            i = i + 1;
        }
        out
    }

    /// The representation of the bytes the chain produces: the exact size
    /// after the array-to-bytes stage, folded through every bytes-to-bytes
    /// stage in order; bounded or unbounded after compression. The length
    /// of what [`CodecChain::encode`] returns agrees with it.
    pub fn compute_encoded_size(&self, decoded_representation: &ChunkRepresentation) -> (r:
        BytesRepresentation)
        requires
            decoded_representation.wf(),
        ensures
            r == chain_encoded_size(
                self.spec_bytes_to_bytes(),
                0,
                BytesRepresentation::FixedSize(decoded_representation.spec_size() as u64),
            ),
    {
        let ghost cs = self.spec_bytes_to_bytes();
        let ghost init_rep = BytesRepresentation::FixedSize(
            decoded_representation.spec_size() as u64,
        );
        let mut rep = self.array_to_bytes.compute_encoded_size(decoded_representation);
        let mut i: usize = 0;
        let n = self.bytes_to_bytes.len();
        while i < n
            invariant
                0 <= i <= n,
                n == cs.len(),
                cs == self.spec_bytes_to_bytes(),
                chain_encoded_size(cs, 0, init_rep) == chain_encoded_size(cs, i as int, rep),
            decreases n - i,
        {
            rep = self.bytes_to_bytes[i].compute_encoded_size(&rep);
            i = i + 1;
        }
        rep
    }

    /// The recommended concurrency of the chain: every codec of this
    /// library works one unit at a time.
    pub fn recommended_concurrency(&self, decoded_representation: &ChunkRepresentation) -> (r:
        RecommendedConcurrency)
        requires
            decoded_representation.wf(),
        ensures
            r.spec_min() == 1,
            r.spec_max() == 1,
    {
        RecommendedConcurrency::new_maximum(1)
    }

    /// Build a partial decoder for one chunk over `input`, walking the
    /// stages in reverse and materialising a cache where the chain demands
    /// one.
    ///
    /// The decoder decodes to what the chain decodes the input's value to;
    /// an absent input is materialised as the fill value.
    pub fn partial_decoder<'a, TStorage: ReadableStorageTraits>(
        &self,
        input: BytesPartialDecoder<'a, TStorage>,
        decoded_representation: &ChunkRepresentation,
        options: &CodecOptions,
    ) -> (r: Result<ArrayPartialDecoder<'a, TStorage>, CodecError>)
        requires
            self.wf(),
            decoded_representation.wf(),
        ensures
            r matches Ok(d) ==> {
                &&& d is Cache
                &&& array_decoder_wf(d)
                &&& array_decoder_representation(d).spec_shape()
                    == decoded_representation.spec_shape()
                &&& array_decoder_representation(d).spec_data_type()
                    == decoded_representation.spec_data_type()
                &&& array_decoder_representation(d).spec_fill_value().spec_bytes()
                    == decoded_representation.spec_fill_value().spec_bytes()
                &&& match bytes_source(input) {
                    Some(Some(enc)) => match chain_decoding(
                        self.spec_array_to_bytes(),
                        self.spec_bytes_to_bytes(),
                        enc,
                        decoded_representation.spec_size(),
                        decoded_representation.spec_data_type().spec_size() as nat,
                    ) {
                        Some(v) => array_source(d) == Some(Some(v)),
                        None => true,
                    },
                    Some(None) => array_source(d) matches Some(Some(f)) && all_fill(
                        decoded_representation.spec_fill_value().spec_bytes(),
                        f,
                    ),
                    None => true,
                }
            },
    {
        let ghost cs = self.spec_bytes_to_bytes();
        let ghost full = cs.len() as int;
        let mut handle = input;
        let mut i: usize = self.bytes_to_bytes.len();
        while i > 0
            invariant
                0 <= i <= cs.len(),
                cs == self.spec_bytes_to_bytes(),
                full == cs.len() as int,
                match bytes_source(input) {
                    None => bytes_source(handle) is None,
                    Some(None) => bytes_source(handle) == Some(None::<Seq<u8>>),
                    Some(Some(enc)) => match bytes_source(handle) {
                        Some(Some(v)) => chain_b2b_decoding(cs, i as int, v)
                            == chain_b2b_decoding(cs, full, enc),
                        Some(None) => false,
                        None => chain_b2b_decoding(cs, full, enc) is None,
                    },
                },
            decreases i,
        {
            let codec = self.bytes_to_bytes[i - 1];
            match codec {
                BytesToBytesCodec::Zstd(z) => {
                    handle = BytesPartialDecoder::Zstd(z, Box::new(handle));
                },
            }
            i = i - 1;
        }
        let rep = decoded_representation.duplicate();
        let codec = match &self.array_to_bytes {
            ArrayToBytesCodec::Bytes(b) => *b,
        };
        let decoder = ArrayPartialDecoder::Bytes {
            input: Box::new(handle),
            decoded_representation: rep,
            codec,
        };
        // the computed cache position: on the input side of the
        // array-to-bytes stage, whose partial decoder drains its input
        match self.cache_index {
            Some(_) => {
                let rep2 = decoded_representation.duplicate();
                match ArrayPartialDecoderCache::new(&decoder, rep2, options) {
                    Ok(c) => Ok(ArrayPartialDecoder::Cache(c)),
                    Err(e) => Err(e),
                }
            },
            None => {
                proof {
                    assert(false);
                }
                Err(CodecError::Other(String::from_str("missing cache position")))
            },
        }
    }

    /// Decode stored chunk bytes and splice the decoded chunk into an
    /// output buffer at `subset`.
    ///
    /// The subset must have the chunk's shape; on success the output holds
    /// the decoded chunk at the subset and is untouched elsewhere.
    pub fn decode_into_array_view(
        &self,
        encoded_value: &[u8],
        decoded_representation: &ChunkRepresentation,
        output: &mut Vec<u8>,
        output_shape: &[u64],
        subset: &ArraySubset,
        options: &CodecOptions,
    ) -> (r: Result<(), CodecError>)
        requires
            decoded_representation.wf(),
            subset.wf(),
            subset.spec_shape() == decoded_representation.spec_shape(),
            subset_within(subset.spec_start(), subset.spec_shape(), output_shape@),
            old(output)@.len() == crate::indexing::shape_product(output_shape@)
                * decoded_representation.spec_data_type().spec_size(),
        ensures
            r is Ok <==> chain_decoding(
                self.spec_array_to_bytes(),
                self.spec_bytes_to_bytes(),
                encoded_value@,
                decoded_representation.spec_size(),
                decoded_representation.spec_data_type().spec_size() as nat,
            ) is Some,
            r is Ok ==> match chain_decoding(
                self.spec_array_to_bytes(),
                self.spec_bytes_to_bytes(),
                encoded_value@,
                decoded_representation.spec_size(),
                decoded_representation.spec_data_type().spec_size() as nat,
            ) {
                Some(v) => final(output)@ == spliced_bytes(
                    old(output)@,
                    v,
                    subset.spec_start(),
                    subset.spec_shape(),
                    output_shape@,
                    decoded_representation.spec_data_type().spec_size() as nat,
                ),
                None => false,
            },
            r is Err ==> final(output)@ == old(output)@,
    {
        let encoded = vstd::slice::slice_to_vec(encoded_value);
        let decoded = match self.decode(encoded, decoded_representation, options) {
            Ok(v) => v,
            Err(e) => {
                return Err(e);
            },
        };
        let esize = decoded_representation.element_size();
        subset.splice_bytes(output, decoded.as_slice(), output_shape, esize);
        Ok(())
    }

    /// Create a codec chain from a list of plugin metadata.
    ///
    /// Succeeds exactly when every entry is a valid codec configuration and
    /// exactly one names the array-to-bytes codec; on success every entry
    /// yields its stage, the bytes-to-bytes stages in the entries' order.
    pub fn from_metadata(metadatas: &Vec<Metadata>) -> (r: Result<Self, PluginCreateError>)
        requires
            metadatas@.len() < usize::MAX - 1,
        ensures
            r is Ok <==> (forall|j: int|
                0 <= j < metadatas@.len() ==> crate::codec::codec_metadata_valid(
                    #[trigger] metadatas@[j],
                )) && a2b_count(metadatas@, metadatas@.len() as int) == 1,
            r matches Ok(c) ==> {
                &&& c.wf()
                &&& c.spec_bytes_to_bytes().len() == b2b_count(
                    metadatas@,
                    metadatas@.len() as int,
                )
                &&& forall|j: int|
                    0 <= j < metadatas@.len() ==> ((#[trigger] metadatas@[j]).name@ == "bytes"@
                        ==> codec_matches_metadata(
                        Codec::ArrayToBytes(c.spec_array_to_bytes()),
                        metadatas@[j],
                    ))
                &&& forall|j: int|
                    0 <= j < metadatas@.len() ==> ((#[trigger] metadatas@[j]).name@ != "bytes"@
                        ==> codec_matches_metadata(
                        Codec::BytesToBytes(c.spec_bytes_to_bytes()[b2b_count(metadatas@, j)]),
                        metadatas@[j],
                    ))
            },
            metadatas@.len() == 0 ==> r is Err,
    {
        let ghost ms = metadatas@;
        let mut array_to_bytes: Option<ArrayToBytesCodec> = None;
        let mut bytes_to_bytes: Vec<BytesToBytesCodec> = Vec::new();
        let mut i: usize = 0;
        while i < metadatas.len()
            invariant
                0 <= i <= ms.len(),
                ms == metadatas@,
                ms.len() < usize::MAX - 1,
                bytes_to_bytes@.len() == b2b_count(ms, i as int),
                bytes_to_bytes@.len() <= i,
                array_to_bytes is Some <==> a2b_count(ms, i as int) == 1,
                0 <= a2b_count(ms, i as int) <= 1,
                forall|j: int|
                    0 <= j < i ==> crate::codec::codec_metadata_valid(#[trigger] ms[j]),
                forall|j: int|
                    0 <= j < i ==> ((#[trigger] ms[j]).name@ == "bytes"@
                        ==> (array_to_bytes matches Some(a) && codec_matches_metadata(
                        Codec::ArrayToBytes(a),
                        ms[j],
                    ))),
                forall|j: int|
                    0 <= j < i ==> ((#[trigger] ms[j]).name@ != "bytes"@
                        ==> codec_matches_metadata(
                        Codec::BytesToBytes(bytes_to_bytes@[b2b_count(ms, j)]),
                        ms[j],
                    )),
            decreases ms.len() - i,
        {
            match Codec::from_metadata(&metadatas[i]) {
                Ok(Codec::ArrayToBytes(c)) => {
                    if array_to_bytes.is_none() {
                        array_to_bytes = Some(c);
                        proof {
                            assert(ms[i as int].name@ == "bytes"@);
                            assert(a2b_count(ms, i + 1) == 1);
                            assert(b2b_count(ms, i + 1) == b2b_count(ms, i as int));
                        }
                    } else {
                        proof {
                            assert(ms[i as int].name@ == "bytes"@);
                            assert(a2b_count(ms, i + 1) == 2);
                            lemma_a2b_count_monotone(ms, i + 1, ms.len() as int);
                        }
                        return Err(
                            PluginCreateError::Other(
                                String::from_str("multiple array to bytes codecs"),
                            ),
                        );
                    }
                },
                Ok(Codec::BytesToBytes(c)) => {
                    bytes_to_bytes.push(c);
                    proof {
                        assert(ms[i as int].name@ != "bytes"@);
                        assert(b2b_count(ms, i + 1) == b2b_count(ms, i as int) + 1);
                        assert forall|j: int|
                            0 <= j < i && (#[trigger] ms[j]).name@ != "bytes"@ implies 0
                            <= b2b_count(ms, j) < b2b_count(ms, i as int) by {
                            lemma_b2b_count_monotone(ms, 0, j);
                            assert(b2b_count(ms, j + 1) == b2b_count(ms, j) + 1);
                            lemma_b2b_count_monotone(ms, j + 1, i as int);
                        }
                    }
                },
                Err(e) => {
                    return Err(e);
                },
            }
            i = i + 1;
        }
        match array_to_bytes {
            Some(a2b) => Ok(CodecChain::new(a2b, bytes_to_bytes)),
            None => Err(
                PluginCreateError::Other(String::from_str("missing array to bytes codec")),
            ),
        }
    }

    /// The plugin metadata of every stage, in encode order: the metadata at
    /// position `0` corresponds to the array-to-bytes stage, and each later
    /// one to the bytes-to-bytes stage before it, so that
    /// [`CodecChain::from_metadata`] recreates an equivalent chain.
    pub fn create_metadatas(&self) -> (r: Vec<Metadata>)
        ensures
            r@.len() == 1 + self.spec_bytes_to_bytes().len(),
            forall|j: int, t: int|
                0 <= j < r@.len() && 0 <= t < (#[trigger] r@[j]).configuration@.len()
                    ==> crate::json::value_wf((#[trigger] r@[j].configuration@[t]).1),
            codec_matches_metadata(Codec::ArrayToBytes(self.spec_array_to_bytes()), r@[0]),
            forall|j: int|
                1 <= j < r@.len() ==> codec_matches_metadata(
                    Codec::BytesToBytes(self.spec_bytes_to_bytes()[j - 1]),
                    #[trigger] r@[j],
                ),
    {
        let mut out: Vec<Metadata> = Vec::new();
        out.push(self.array_to_bytes.create_metadata());
        proof {
            reveal_strlit("big");
            reveal_strlit("little");
            let m = out@[0];
            match self.spec_array_to_bytes() {
                ArrayToBytesCodec::Bytes(b) => {
                    assert(crate::json::object_get(m.configuration@, "endian"@) == Some(
                        m.configuration@[0].1,
                    ));
                    if !b.big_endian {
                        assert(("little"@).len() == 6);
                        assert(("big"@).len() == 3);
                    }
                    assert(codec_matches_metadata(
                        Codec::ArrayToBytes(self.spec_array_to_bytes()),
                        m,
                    ));
                },
            }
        }
        let mut i: usize = 0;
        while i < self.bytes_to_bytes.len()
            invariant
                0 <= i <= self.spec_bytes_to_bytes().len(),
                out@.len() == 1 + i,
                forall|j: int, t: int|
                    0 <= j < out@.len() && 0 <= t < (#[trigger] out@[j]).configuration@.len()
                        ==> crate::json::value_wf((#[trigger] out@[j].configuration@[t]).1),
                codec_matches_metadata(Codec::ArrayToBytes(self.spec_array_to_bytes()), out@[0]),
                forall|j: int|
                    1 <= j < out@.len() ==> codec_matches_metadata(
                        Codec::BytesToBytes(self.spec_bytes_to_bytes()[j - 1]),
                        #[trigger] out@[j],
                    ),
            decreases self.spec_bytes_to_bytes().len() - i,
        {
            out.push(self.bytes_to_bytes[i].create_metadata());
            proof {
                reveal_strlit("level");
                reveal_strlit("checksum");
                let m = out@[out@.len() - 1];
                match self.spec_bytes_to_bytes()[i as int] {
                    BytesToBytesCodec::Zstd(z) => {
                        assert(("level"@).len() == 5);
                        assert(("checksum"@).len() == 8);
                        assert(m.configuration@[0].0@ != "checksum"@);
                        assert(m.configuration@.skip(1)[0] == m.configuration@[1]);
                        assert(m.configuration@.skip(1).len() == 1);
                        assert(crate::json::object_get(m.configuration@.skip(1), "checksum"@)
                            == Some(m.configuration@.skip(1)[0].1));
                        assert(crate::json::object_get(m.configuration@, "checksum"@) == Some(
                            m.configuration@[1].1,
                        ));
                        assert(crate::json::object_get(m.configuration@, "level"@) == Some(
                            m.configuration@[0].1,
                        ));
                        assert(codec_matches_metadata(
                            Codec::BytesToBytes(self.spec_bytes_to_bytes()[i as int]),
                            m,
                        ));
                    },
                }
            }
            i = i + 1;
        }
        out
    }
}

/// Encoding one more stage extends the prefix encoding.
proof fn lemma_chain_b2b_encoding_snoc(cs: Seq<BytesToBytesCodec>, i: int, data: Seq<u8>)
    requires
        0 < i <= cs.len(),
    ensures
        chain_b2b_encoding(cs.take(i), 0, data) == cs[i - 1].spec_encoding(
            chain_b2b_encoding(cs.take(i - 1), 0, data),
        ),
    decreases i,
{
    lemma_chain_b2b_encoding_snoc_general(cs, 0, i, data);
}

/// Encoding stages `j .. i` splits at the last stage.
proof fn lemma_chain_b2b_encoding_snoc_general(
    cs: Seq<BytesToBytesCodec>,
    j: int,
    i: int,
    data: Seq<u8>,
)
    requires
        0 <= j <= i <= cs.len(),
        j < i,
    ensures
        chain_b2b_encoding(cs.take(i), j, data) == cs[i - 1].spec_encoding(
            chain_b2b_encoding(cs.take(i - 1), j, data),
        ),
    decreases i - j,
{
    if j + 1 == i {
        assert(cs.take(i)[j] == cs[j]);
        assert(chain_b2b_encoding(cs.take(i), j + 1, cs[j].spec_encoding(data))
            == cs[j].spec_encoding(data));
        assert(chain_b2b_encoding(cs.take(i - 1), j, data) == data);
    } else {
        assert(cs.take(i)[j] == cs[j]);
        assert(cs.take(i - 1)[j] == cs[j]);
        lemma_chain_b2b_encoding_snoc_general(cs, j + 1, i, cs[j].spec_encoding(data));
    }
}

/// Decoding the chain's encoding yields the input back, stage by stage.
proof fn lemma_chain_decoding_of_encoding(
    a2b: ArrayToBytesCodec,
    cs: Seq<BytesToBytesCodec>,
    original: Seq<u8>,
    encoded: Seq<u8>,
    mid: Seq<u8>,
    rep: ChunkRepresentation,
)
    requires
        rep.wf(),
        original.len() == rep.spec_size(),
        mid == a2b.spec_encoding(original, rep.spec_data_type().spec_size() as nat),
        chain_b2b_decoding(cs, cs.len() as int, encoded) == Some(mid),
    ensures
        chain_decoding(
            a2b,
            cs,
            encoded,
            rep.spec_size(),
            rep.spec_data_type().spec_size() as nat,
        ) == Some(original),
{
    assert(mid.len() == rep.spec_size()) by {
        match a2b {
            ArrayToBytesCodec::Bytes(_) => {},
        }
    }
    match a2b {
        ArrayToBytesCodec::Bytes(b) => {
            let es = rep.spec_data_type().spec_size() as int;
            assert(original.len() as int % es == 0) by (nonlinear_arith)
                requires
                    original.len() == rep.spec_num_elements() * rep.spec_data_type().spec_size(),
                    es == rep.spec_data_type().spec_size(),
                    es >= 1,
            ;
            crate::codec::lemma_element_reversed_involution(
                original,
                rep.spec_data_type().spec_size() as nat,
            );
            assert(a2b.spec_encoding(mid, rep.spec_data_type().spec_size() as nat) == original);
        },
    }
}

/// Round trip of a chain without compression stages: decoding the chain's
/// encoding of a chunk yields the chunk.
///
/// For a chain with compression stages the same law holds of every call of
/// [`CodecChain::encode`]: its result decodes back to its input, as its
/// contract states.
pub proof fn lemma_chain_round_trip(
    a2b: ArrayToBytesCodec,
    cs: Seq<BytesToBytesCodec>,
    data: Seq<u8>,
    esize: nat,
)
    requires
        cs.len() == 0,
        esize >= 1,
        data.len() % esize == 0,
    ensures
        chain_decoding(a2b, cs, chain_encoding(a2b, cs, data, esize), data.len(), esize) == Some(
            data,
        ),
{
    let enc = chain_encoding(a2b, cs, data, esize);
    assert(chain_b2b_encoding(cs, 0, a2b.spec_encoding(data, esize)) == a2b.spec_encoding(
        data,
        esize,
    ));
    assert(chain_b2b_decoding(cs, 0, enc) == Some(enc));
    match a2b {
        ArrayToBytesCodec::Bytes(b) => {
            crate::codec::lemma_element_reversed_involution(data, esize);
            assert(enc.len() == data.len());
            assert(a2b.spec_encoding(enc, esize) == data);
        },
    }
}

} // verus!
