//! Codecs: the transforms between decoded chunks and stored bytes.
//!
//! An array-to-bytes codec turns the decoded bytes of a chunk into its
//! serialised form; bytes-to-bytes codecs transform byte streams. A codec
//! chain composes them. Partial decoders serve subsets of a chunk without
//! the caller re-decoding it for every request.

pub mod array_partial_decoder_cache;
pub mod bytes_partial_decoder_cache;
pub mod codec_chain;

use vstd::prelude::*;

use crate::array_representation::{BytesRepresentation, ChunkRepresentation};
use crate::array_subset::{
    extracted_bytes, ArraySubset, IncompatibleArraySubsetAndShapeError, subset_within,
};
use crate::byte_range::{all_ranges_fit, range_of, ByteRange, InvalidByteRangeError};
use crate::data_type::DataType;
use crate::fill_value::all_fill;
use crate::indexing::shape_product;
use crate::storage::{ReadableStorageTraits, StorageError, StoreKey};

verus! {

/// A codec error.
#[derive(Debug)]
pub enum CodecError {
    /// An input or output error of a codec.
    IOError(String),
    /// An invalid byte range was requested.
    InvalidByteRangeError(InvalidByteRangeError),
    /// An invalid array subset was requested.
    InvalidArraySubsetError(IncompatibleArraySubsetAndShapeError),
    /// The decoded size of a chunk differs from what its representation
    /// demands: the size found, and the size expected.
    UnexpectedChunkDecodedSize(usize, u64),
    /// A store error.
    StorageError(StorageError),
    /// An unsupported data type for a codec.
    UnsupportedDataType(DataType, String),
    /// Any other codec failure.
    Other(String),
}

/// Options of one codec invocation.
#[derive(Clone, Copy, Debug)]
pub struct CodecOptions {
    /// The number of concurrent units of work the caller would like used.
    pub concurrent_target: usize,
    /// Whether checksums are validated on decode.
    pub validate_checksums: bool,
}

impl CodecOptions {
    /// Options maximising throughput.
    pub fn new() -> (r: Self)
        ensures
            r.validate_checksums == true,
    {
        CodecOptions { concurrent_target: 1, validate_checksums: true }
    }
}

impl Default for CodecOptions {
    /// Options maximising throughput.
    fn default() -> (r: Self)
        ensures
            r.validate_checksums == true,
    {
        CodecOptions::new()
    }
}

/// The bytes of `data`, with the bytes of every `esize`-wide element
/// reversed.
pub open spec fn element_reversed(data: Seq<u8>, esize: nat) -> Seq<u8>
    recommends
        esize >= 1,
        data.len() % esize == 0,
{
    Seq::new(
        data.len(),
        |p: int| data[(p / esize as int) * esize + (esize - 1 - (p % esize as int))],
    )
}

/// Reversing twice gives the data back.
pub proof fn lemma_element_reversed_involution(data: Seq<u8>, esize: nat)
    requires
        esize >= 1,
        data.len() % esize == 0,
    ensures
        element_reversed(element_reversed(data, esize), esize) == data,
{
    let r1 = element_reversed(data, esize);
    let r2 = element_reversed(r1, esize);
    assert forall|p: int| 0 <= p < data.len() implies r2[p] == data[p] by {
        let e = esize as int;
        let q = p / e;
        let b = p % e;
        vstd::arithmetic::div_mod::lemma_fundamental_div_mod(p, e);
        vstd::arithmetic::div_mod::lemma_mod_bound(p, e);
        let p1 = q * e + (e - 1 - b);
        vstd::arithmetic::div_mod::lemma_fundamental_div_mod_converse(p1, e, q, e - 1 - b);
        assert(r2[p] == r1[p1]);
        assert(0 <= p1 < data.len()) by (nonlinear_arith)
            requires
                p1 == q * e + (e - 1 - b),
                p == q * e + b,
                0 <= p < data.len(),
                0 <= b < e,
                q == p / e,
                e >= 1,
                data.len() as int % e == 0,
        ;
        assert(r1[p1] == data[q * e + (e - 1 - (e - 1 - b))]);
        assert(e - 1 - (e - 1 - b) == b);
    }
    assert(r2 =~= data);
}

/// The serialised form of the `bytes` array-to-bytes codec: the decoded
/// bytes, with every element's bytes reversed when big-endian order is
/// requested and elements are wider than one byte. Decoded chunk bytes are
/// taken to be in little-endian element order.
pub open spec fn bytes_codec_encoding(data: Seq<u8>, big_endian: bool, esize: nat) -> Seq<u8> {
    if big_endian && esize > 1 {
        element_reversed(data, esize)
    } else {
        data
    }
}

/// The `bytes` array-to-bytes codec: fixes the element byte order of the
/// serialised chunk.
#[derive(Clone, Copy, Debug)]
pub struct BytesCodec {
    /// Whether the serialised bytes are big-endian.
    pub big_endian: bool,
}

impl BytesCodec {
    /// A `bytes` codec with the given byte order.
    pub fn new(big_endian: bool) -> (r: Self)
        ensures
            r.big_endian == big_endian,
    {
        BytesCodec { big_endian }
    }

    /// Reverse the bytes of every element if the byte order asks for it.
    fn apply(&self, data: Vec<u8>, element_size: usize) -> (r: Vec<u8>)
        requires
            element_size >= 1,
            data@.len() as int % (element_size as int) == 0,
        ensures
            r@ == bytes_codec_encoding(data@, self.big_endian, element_size as nat),
    {
        if !self.big_endian || element_size == 1 {
            proof {
                if self.big_endian && element_size == 1 {
                    assert(element_reversed(data@, 1) =~= data@) by {
                        assert forall|p: int| 0 <= p < data@.len() implies element_reversed(
                            data@,
                            1,
                        )[p] == data@[p] by {
                            assert(p / 1int == p && p % 1int == 0) by (nonlinear_arith);
                        }
                    }
                }
            }
            return data;
        }
        let n = data.len();
        let mut out: Vec<u8> = Vec::new();
        let mut p: usize = 0;
        while p < n
            invariant
                0 <= p <= n,
                n == data@.len(),
                element_size >= 2,
                data@.len() as int % (element_size as int) == 0,
                out@.len() == p,
                forall|j: int|
                    0 <= j < p ==> #[trigger] out@[j] == element_reversed(
                        data@,
                        element_size as nat,
                    )[j],
            decreases n - p,
        {
            let e = element_size;
            let q = p / e;
            let b = p % e;
            proof {
                vstd::arithmetic::div_mod::lemma_fundamental_div_mod(p as int, e as int);
                vstd::arithmetic::div_mod::lemma_mod_bound(p as int, e as int);
                assert(((p as int) / (e as int)) * (e as int) + ((e as int) - 1 - ((p as int) % (e as int))) < n)
                    by (nonlinear_arith)
                    requires
                        p as int == ((p as int) / (e as int)) * (e as int) + ((p as int) % (e as int)),
                        0 <= (p as int) % (e as int),
                        (p as int) % (e as int) < e as int,
                        0 <= p < n,
                        e >= 1,
                        n as int % (e as int) == 0,
                        n == data@.len(),
                        ((p as int) / (e as int)) >= 0,
                    ;
            }
            out.push(data[q * e + (e - 1 - b)]);
            p = p + 1;
        }
        proof {
            assert(out@ =~= element_reversed(data@, element_size as nat));
        }
        out
    }

    /// Encode decoded chunk bytes.
    ///
    /// Fails if and only if the input length disagrees with the chunk
    /// representation.
    pub fn encode(
        &self,
        decoded_value: Vec<u8>,
        decoded_representation: &ChunkRepresentation,
        _options: &CodecOptions,
    ) -> (r: Result<Vec<u8>, CodecError>)
        requires
            decoded_representation.wf(),
        ensures
            r is Ok <==> decoded_value@.len() == decoded_representation.spec_size(),
            r matches Ok(out) ==> out@ == bytes_codec_encoding(
                decoded_value@,
                self.big_endian,
                decoded_representation.spec_data_type().spec_size() as nat,
            ),
            r is Err ==> r == Err::<Vec<u8>, CodecError>(
                CodecError::UnexpectedChunkDecodedSize(
                    decoded_value@.len() as usize,
                    decoded_representation.spec_size() as u64,
                ),
            ),
    {
        let size = decoded_representation.size();
        if decoded_value.len() != size {
            return Err(
                CodecError::UnexpectedChunkDecodedSize(decoded_value.len(), size as u64),
            );
        }
        let esize = decoded_representation.element_size();
        proof {
            let ne = decoded_representation.spec_num_elements() as int;
            let es = decoded_representation.spec_data_type().spec_size() as int;
            assert((ne * es) % es == 0) by (nonlinear_arith)
                requires
                    es >= 1,
                    ne >= 0,
            ;
        }
        Ok(self.apply(decoded_value, esize))
    }

    /// Decode serialised chunk bytes.
    ///
    /// Fails if and only if the input length disagrees with the chunk
    /// representation. Decoding inverts encoding.
    pub fn decode(
        &self,
        encoded_value: Vec<u8>,
        decoded_representation: &ChunkRepresentation,
        _options: &CodecOptions,
    ) -> (r: Result<Vec<u8>, CodecError>)
        requires
            decoded_representation.wf(),
        ensures
            r is Ok <==> encoded_value@.len() == decoded_representation.spec_size(),
            r matches Ok(out) ==> {
                &&& out@ == bytes_codec_encoding(
                    encoded_value@,
                    self.big_endian,
                    decoded_representation.spec_data_type().spec_size() as nat,
                )
                &&& bytes_codec_encoding(
                    out@,
                    self.big_endian,
                    decoded_representation.spec_data_type().spec_size() as nat,
                ) == encoded_value@
                &&& out@.len() == decoded_representation.spec_size()
            },
            r is Err ==> r == Err::<Vec<u8>, CodecError>(
                CodecError::UnexpectedChunkDecodedSize(
                    encoded_value@.len() as usize,
                    decoded_representation.spec_size() as u64,
                ),
            ),
    {
        let size = decoded_representation.size();
        if encoded_value.len() != size {
            return Err(
                CodecError::UnexpectedChunkDecodedSize(encoded_value.len(), size as u64),
            );
        }
        let esize = decoded_representation.element_size();
        proof {
            let ne = decoded_representation.spec_num_elements() as int;
            let es = decoded_representation.spec_data_type().spec_size() as int;
            assert((ne * es) % es == 0) by (nonlinear_arith)
                requires
                    es >= 1,
                    ne >= 0,
            ;
            assert(encoded_value@.len() as int % es == 0);
            lemma_element_reversed_involution(encoded_value@, es as nat);
        }
        Ok(self.apply(encoded_value, esize))
    }

    /// The size of the serialised chunk: its decoded size exactly.
    pub fn compute_encoded_size(&self, decoded_representation: &ChunkRepresentation) -> (r:
        BytesRepresentation)
        requires
            decoded_representation.wf(),
        ensures
            r == BytesRepresentation::FixedSize(decoded_representation.spec_size() as u64),
    {
        let size = decoded_representation.size();
        BytesRepresentation::FixedSize(size as u64)
    }
}

/// What the result of `zstd` compression holds: a function of the input,
/// the level, and the checksum flag alone.
pub uninterp spec fn zstd_encoding(data: Seq<u8>, level: i32, checksum: bool) -> Seq<u8>;

/// Whether `zstd` compression succeeds: a function of the input, the level,
/// and the checksum flag alone.
pub uninterp spec fn zstd_encode_ok(data: Seq<u8>, level: i32, checksum: bool) -> bool;

/// What `zstd` decompression returns: a function of the input alone, `None`
/// where decompression fails.
pub uninterp spec fn zstd_decoding(data: Seq<u8>) -> Option<Seq<u8>>;

/// The documented worst case of a zstd frame over `n` content bytes: the
/// frame header and trailer are at most 22 bytes, and each block carries at
/// most 3 bytes of overhead.
pub open spec fn zstd_bound_len(n: int) -> int {
    n + 22 + 3 * ((n + 999) / 1000)
}

/// Compress bytes as one zstd frame.
///
/// Relies on `zstd::stream::Encoder` (with its checksum flag): whether
/// compression succeeds and what frame it produces depend only on the
/// input, the level, and the checksum flag; the frame format bounds the
/// frame size by the header, trailer and per-block overhead over the
/// content; and zstd is lossless, so decompressing the frame yields the
/// input back.
#[verifier::external_body]
fn zstd_compress(data: &[u8], level: i32, checksum: bool) -> (r: Result<Vec<u8>, CodecError>)
    ensures
        r is Ok <==> zstd_encode_ok(data@, level, checksum),
        r matches Ok(out) ==> out@ == zstd_encoding(data@, level, checksum) && zstd_decoding(
            out@,
        ) == Some(data@) && out@.len() <= zstd_bound_len(data@.len() as int),
{
    let mut result = Vec::<u8>::new();
    let mut encoder = zstd::Encoder::new(&mut result, level).map_err(
        |e| CodecError::IOError(e.to_string()),
    )?;
    encoder.include_checksum(checksum).map_err(|e| CodecError::IOError(e.to_string()))?;
    std::io::copy(&mut &data[..], &mut encoder).map_err(|e| CodecError::IOError(e.to_string()))?;
    encoder.finish().map_err(|e| CodecError::IOError(e.to_string()))?;
    Ok(result)
}

/// Decompress one zstd frame.
///
/// Relies on `zstd::stream::decode_all`: the decompressed bytes depend only
/// on the input; invalid input fails.
#[verifier::external_body]
fn zstd_decompress(data: &[u8]) -> (r: Result<Vec<u8>, CodecError>)
    ensures
        r matches Ok(out) ==> zstd_decoding(data@) == Some(out@),
        r is Err ==> zstd_decoding(data@) is None,
{
    zstd::decode_all(data).map_err(|e| CodecError::IOError(e.to_string()))
}

/// The `zstd` bytes-to-bytes codec.
#[derive(Clone, Copy, Debug)]
pub struct ZstdCodec {
    /// The compression level.
    pub compression: i32,
    /// Whether frames carry a content checksum.
    pub checksum: bool,
}

impl ZstdCodec {
    /// A `zstd` codec with the given level and checksum flag.
    pub fn new(compression: i32, checksum: bool) -> (r: Self)
        ensures
            r.compression == compression,
            r.checksum == checksum,
    {
        ZstdCodec { compression, checksum }
    }

    /// Compress chunk bytes. Succeeds exactly when zstd compression of these
    /// bytes at this level succeeds.
    pub fn encode(&self, decoded_value: Vec<u8>, _options: &CodecOptions) -> (r: Result<
        Vec<u8>,
        CodecError,
    >)
        ensures
            r is Ok <==> zstd_encode_ok(decoded_value@, self.compression, self.checksum),
            r matches Ok(out) ==> out@ == zstd_encoding(
                decoded_value@,
                self.compression,
                self.checksum,
            ) && zstd_decoding(out@) == Some(decoded_value@) && out@.len() <= zstd_bound_len(
                decoded_value@.len() as int,
            ),
    {
        zstd_compress(decoded_value.as_slice(), self.compression, self.checksum)
    }

    /// Decompress chunk bytes.
    pub fn decode(&self, encoded_value: Vec<u8>, _options: &CodecOptions) -> (r: Result<
        Vec<u8>,
        CodecError,
    >)
        ensures
            r matches Ok(out) ==> zstd_decoding(encoded_value@) == Some(out@),
            r is Err ==> zstd_decoding(encoded_value@) is None,
    {
        zstd_decompress(encoded_value.as_slice())
    }

    /// A bound on the size of the compressed frame, from the zstd frame
    /// format: header, trailer and per-block overhead.
    pub fn compute_encoded_size(&self, decoded_representation: &BytesRepresentation) -> (r:
        BytesRepresentation)
        ensures
            r == zstd_size_bound(*decoded_representation),
    {
        match decoded_representation {
            BytesRepresentation::FixedSize(size) | BytesRepresentation::BoundedSize(size) => {
                if *size <= 0x3FFF_FFFF_FFFF_FFFFu64 {
                    let blocks_overhead = 3 * ((*size + 999) / 1000);
                    BytesRepresentation::BoundedSize(*size + 22 + blocks_overhead)
                } else {
                    BytesRepresentation::UnboundedSize
                }
            },
            BytesRepresentation::UnboundedSize => BytesRepresentation::UnboundedSize,
        }
    }
}

/// The zstd bound on an encoded size.
pub open spec fn zstd_size_bound(r: BytesRepresentation) -> BytesRepresentation {
    match r {
        BytesRepresentation::FixedSize(size) | BytesRepresentation::BoundedSize(size) => {
            if size <= 0x3FFF_FFFF_FFFF_FFFFu64 {
                BytesRepresentation::BoundedSize(
                    (size + 22 + 3 * ((size + 999) / 1000)) as u64,
                )
            } else {
                BytesRepresentation::UnboundedSize
            }
        },
        BytesRepresentation::UnboundedSize => BytesRepresentation::UnboundedSize,
    }
}

/// The predicted encoded size grows with the decoded size: for a larger
/// input size the zstd bound is unbounded, or bounded by no less.
pub proof fn lemma_zstd_size_bound_monotone(m: u64, n: u64)
    requires
        m <= n,
    ensures
        zstd_size_bound(BytesRepresentation::FixedSize(n)) is UnboundedSize || (zstd_size_bound(
            BytesRepresentation::FixedSize(m),
        ) matches BytesRepresentation::BoundedSize(bm) && zstd_size_bound(
            BytesRepresentation::FixedSize(n),
        ) matches BytesRepresentation::BoundedSize(bn) && bm <= bn),
{
    if n <= 0x3FFF_FFFF_FFFF_FFFFu64 {
        let mi = m as int;
        let ni = n as int;
        vstd::arithmetic::div_mod::lemma_div_is_ordered(mi + 999, ni + 999, 1000);
        assert(ni + 22 + 3 * ((ni + 999) / 1000) <= 2 * ni + 25) by {
            assert((ni + 999) / 1000 <= ni / 1000 + 1) by {
                vstd::arithmetic::div_mod::lemma_div_is_ordered(ni + 999, ni + 1000, 1000);
                vstd::arithmetic::div_mod::lemma_div_plus_one(ni, 1000);
            }
            assert(3 * (ni / 1000) <= ni) by (nonlinear_arith)
                requires
                    ni >= 0,
            ;
        }
        assert(mi + 22 + 3 * ((mi + 999) / 1000) <= 2 * mi + 25) by {
            assert((mi + 999) / 1000 <= mi / 1000 + 1) by {
                vstd::arithmetic::div_mod::lemma_div_is_ordered(mi + 999, mi + 1000, 1000);
                vstd::arithmetic::div_mod::lemma_div_plus_one(mi, 1000);
            }
            assert(3 * (mi / 1000) <= mi) by (nonlinear_arith)
                requires
                    mi >= 0,
            ;
        }
    }
}

/// A bytes-to-bytes codec.
#[derive(Clone, Copy, Debug)]
pub enum BytesToBytesCodec {
    /// The `zstd` codec.
    Zstd(ZstdCodec),
}

impl BytesToBytesCodec {
    /// The serialised form this codec produces for `data`.
    pub open spec fn spec_encoding(&self, data: Seq<u8>) -> Seq<u8> {
        match self {
            BytesToBytesCodec::Zstd(z) => zstd_encoding(data, z.compression, z.checksum),
        }
    }

    /// What this codec's decode returns for `data`.
    pub open spec fn spec_decoding(&self, data: Seq<u8>) -> Option<Seq<u8>> {
        match self {
            BytesToBytesCodec::Zstd(_) => zstd_decoding(data),
        }
    }

    /// Whether this codec's partial decoder wants its input cached.
    pub fn partial_decoder_should_cache_input(&self) -> (r: bool)
        ensures
            r == spec_should_cache_input(*self),
    {
        match self {
            BytesToBytesCodec::Zstd(_) => false,
        }
    }

    /// Whether this codec's partial decoder decodes its whole input.
    pub fn partial_decoder_decodes_all(&self) -> (r: bool)
        ensures
            r == spec_decodes_all(*self),
    {
        match self {
            BytesToBytesCodec::Zstd(_) => true,
        }
    }

    /// Encode chunk bytes. Succeeds exactly when this codec's compression
    /// of these bytes succeeds.
    pub fn encode(&self, decoded_value: Vec<u8>, options: &CodecOptions) -> (r: Result<
        Vec<u8>,
        CodecError,
    >)
        ensures
            r is Ok <==> spec_b2b_encode_ok(*self, decoded_value@),
            r matches Ok(out) ==> out@ == self.spec_encoding(decoded_value@)
                && self.spec_decoding(out@) == Some(decoded_value@) && out@.len()
                <= zstd_bound_len(decoded_value@.len() as int),
    {
        match self {
            BytesToBytesCodec::Zstd(z) => z.encode(decoded_value, options),
        }
    }

    /// Decode chunk bytes.
    pub fn decode(&self, encoded_value: Vec<u8>, options: &CodecOptions) -> (r: Result<
        Vec<u8>,
        CodecError,
    >)
        ensures
            r matches Ok(out) ==> self.spec_decoding(encoded_value@) == Some(out@),
            r is Err ==> self.spec_decoding(encoded_value@) is None,
    {
        match self {
            BytesToBytesCodec::Zstd(z) => z.decode(encoded_value, options),
        }
    }

    /// A bound on the encoded size.
    pub fn compute_encoded_size(&self, decoded_representation: &BytesRepresentation) -> (r:
        BytesRepresentation)
        ensures
            r == spec_b2b_encoded_size(*self, *decoded_representation),
    {
        match self {
            BytesToBytesCodec::Zstd(z) => z.compute_encoded_size(decoded_representation),
        }
    }
}

/// Whether a bytes-to-bytes codec's encode succeeds on `data`.
pub open spec fn spec_b2b_encode_ok(c: BytesToBytesCodec, data: Seq<u8>) -> bool {
    match c {
        BytesToBytesCodec::Zstd(z) => zstd_encode_ok(data, z.compression, z.checksum),
    }
}

/// Whether a byte count agrees with a bytes representation: equal to a
/// fixed size, at most a bounded size, anything otherwise.
pub open spec fn len_matches_rep(len: int, rep: BytesRepresentation) -> bool {
    match rep {
        BytesRepresentation::FixedSize(n) => len == n,
        BytesRepresentation::BoundedSize(n) => len <= n,
        BytesRepresentation::UnboundedSize => true,
    }
}

/// One bytes-to-bytes stage keeps the encoded length within the stage's
/// computed size bound.
pub proof fn lemma_b2b_encoded_size_step(
    c: BytesToBytesCodec,
    rep: BytesRepresentation,
    len_in: int,
    len_out: int,
)
    requires
        len_matches_rep(len_in, rep),
        len_in >= 0,
        len_out <= zstd_bound_len(len_in),
    ensures
        len_matches_rep(len_out, spec_b2b_encoded_size(c, rep)),
{
    match rep {
        BytesRepresentation::FixedSize(size) | BytesRepresentation::BoundedSize(size) => {
            if size <= 0x3FFF_FFFF_FFFF_FFFFu64 {
                let s = size as int;
                assert((len_in + 999) / 1000 <= (s + 999) / 1000) by {
                    vstd::arithmetic::div_mod::lemma_div_is_ordered(
                        len_in + 999,
                        s + 999,
                        1000,
                    );
                }
                assert(3 * ((s + 999) / 1000) <= s + 3) by {
                    assert((s + 999) / 1000 <= s / 1000 + 1) by {
                        vstd::arithmetic::div_mod::lemma_div_is_ordered(s + 999, s + 1000, 1000);
                        assert((s + 1000) / 1000 == s / 1000 + 1) by {
                            vstd::arithmetic::div_mod::lemma_div_plus_one(s, 1000);
                        }
                    }
                    assert(3 * (s / 1000) <= s) by (nonlinear_arith)
                        requires
                            s >= 0,
                    ;
                }
                assert(s + 22 + 3 * ((s + 999) / 1000) <= 2 * s + 25);
            }
        },
        BytesRepresentation::UnboundedSize => {},
    }
}

/// Whether a bytes-to-bytes codec's partial decoder wants its input cached.
pub open spec fn spec_should_cache_input(c: BytesToBytesCodec) -> bool {
    match c {
        BytesToBytesCodec::Zstd(_) => false,
    }
}

/// Whether a bytes-to-bytes codec's partial decoder decodes its whole input.
pub open spec fn spec_decodes_all(c: BytesToBytesCodec) -> bool {
    match c {
        BytesToBytesCodec::Zstd(_) => true,
    }
}

/// The encoded-size bound of a bytes-to-bytes codec.
pub open spec fn spec_b2b_encoded_size(
    c: BytesToBytesCodec,
    r: BytesRepresentation,
) -> BytesRepresentation {
    match c {
        BytesToBytesCodec::Zstd(_) => zstd_size_bound(r),
    }
}

/// An array-to-bytes codec.
#[derive(Clone, Copy, Debug)]
pub enum ArrayToBytesCodec {
    /// The `bytes` codec.
    Bytes(BytesCodec),
}

impl ArrayToBytesCodec {
    /// The serialised form this codec produces for decoded chunk bytes.
    pub open spec fn spec_encoding(&self, data: Seq<u8>, esize: nat) -> Seq<u8> {
        match self {
            ArrayToBytesCodec::Bytes(b) => bytes_codec_encoding(data, b.big_endian, esize),
        }
    }

    /// Whether this codec's partial decoder wants its input cached.
    pub fn partial_decoder_should_cache_input(&self) -> (r: bool)
        ensures
            r == false,
    {
        match self {
            ArrayToBytesCodec::Bytes(_) => false,
        }
    }

    /// Whether this codec's partial decoder decodes its whole input.
    ///
    /// The partial decoder of the `bytes` codec here materialises its input
    /// once and serves subsets from it.
    pub fn partial_decoder_decodes_all(&self) -> (r: bool)
        ensures
            r == true,
    {
        match self {
            ArrayToBytesCodec::Bytes(_) => true,
        }
    }

    /// Encode decoded chunk bytes.
    pub fn encode(
        &self,
        decoded_value: Vec<u8>,
        decoded_representation: &ChunkRepresentation,
        options: &CodecOptions,
    ) -> (r: Result<Vec<u8>, CodecError>)
        requires
            decoded_representation.wf(),
        ensures
            r is Ok <==> decoded_value@.len() == decoded_representation.spec_size(),
            r matches Ok(out) ==> out@ == self.spec_encoding(
                decoded_value@,
                decoded_representation.spec_data_type().spec_size() as nat,
            ) && out@.len() == decoded_value@.len(),
            r is Err ==> r == Err::<Vec<u8>, CodecError>(
                CodecError::UnexpectedChunkDecodedSize(
                    decoded_value@.len() as usize,
                    decoded_representation.spec_size() as u64,
                ),
            ),
    {
        match self {
            ArrayToBytesCodec::Bytes(b) => b.encode(decoded_value, decoded_representation, options),
        }
    }

    /// Decode serialised chunk bytes; decoding inverts encoding.
    pub fn decode(
        &self,
        encoded_value: Vec<u8>,
        decoded_representation: &ChunkRepresentation,
        options: &CodecOptions,
    ) -> (r: Result<Vec<u8>, CodecError>)
        requires
            decoded_representation.wf(),
        ensures
            r is Ok <==> encoded_value@.len() == decoded_representation.spec_size(),
            r matches Ok(out) ==> {
                &&& out@.len() == decoded_representation.spec_size()
                &&& self.spec_encoding(
                    out@,
                    decoded_representation.spec_data_type().spec_size() as nat,
                ) == encoded_value@
            },
            r is Err ==> r == Err::<Vec<u8>, CodecError>(
                CodecError::UnexpectedChunkDecodedSize(
                    encoded_value@.len() as usize,
                    decoded_representation.spec_size() as u64,
                ),
            ),
    {
        match self {
            ArrayToBytesCodec::Bytes(b) => {
                match b.decode(encoded_value, decoded_representation, options) {
                    Ok(out) => Ok(out),
                    Err(e) => Err(e),
                }
            },
        }
    }

    /// The size of the serialised chunk.
    pub fn compute_encoded_size(&self, decoded_representation: &ChunkRepresentation) -> (r:
        BytesRepresentation)
        requires
            decoded_representation.wf(),
        ensures
            r == BytesRepresentation::FixedSize(decoded_representation.spec_size() as u64),
    {
        match self {
            ArrayToBytesCodec::Bytes(b) => b.compute_encoded_size(decoded_representation),
        }
    }
}

/// A codec of any of the three kinds.
#[derive(Debug)]
pub enum Codec {
    /// An array-to-bytes codec.
    ArrayToBytes(ArrayToBytesCodec),
    /// A bytes-to-bytes codec.
    BytesToBytes(BytesToBytesCodec),
}

/// Whether a codec corresponds to a plugin metadata entry: the entry names
/// the codec, and carries the configuration the codec was created with.
pub open spec fn codec_matches_metadata(c: Codec, m: crate::metadata::Metadata) -> bool {
    match c {
        Codec::ArrayToBytes(ArrayToBytesCodec::Bytes(b)) => {
            &&& m.name@ == "bytes"@
            &&& match crate::json::object_get(m.configuration@, "endian"@) {
                Some(v) => v matches crate::json::JsonValue::Str(s) && b.big_endian == (s@
                    == "big"@),
                None => b.big_endian == false,
            }
        },
        Codec::BytesToBytes(BytesToBytesCodec::Zstd(z)) => {
            &&& m.name@ == "zstd"@
            &&& match crate::json::object_get(m.configuration@, "checksum"@) {
                Some(v) => v == crate::json::JsonValue::Bool(z.checksum),
                None => z.checksum == false,
            }
            &&& match crate::json::object_get(m.configuration@, "level"@) {
                Some(v) => match v {
                    crate::json::JsonValue::UInt(n) => n <= i32::MAX && z.compression == n as i32,
                    crate::json::JsonValue::Int(i) => i >= i32::MIN && z.compression == i as i32,
                    _ => false,
                },
                None => z.compression == 0,
            }
        },
    }
}

/// Whether a metadata entry is a valid `bytes` codec configuration.
pub open spec fn bytes_codec_metadata_valid(m: crate::metadata::Metadata) -> bool {
    &&& m.name@ == "bytes"@
    &&& match crate::json::object_get(m.configuration@, "endian"@) {
        Some(v) => v matches crate::json::JsonValue::Str(s) && (s@ == "big"@ || s@
            == "little"@),
        None => true,
    }
}

/// Whether a metadata entry is a valid `zstd` codec configuration.
pub open spec fn zstd_codec_metadata_valid(m: crate::metadata::Metadata) -> bool {
    &&& m.name@ == "zstd"@
    &&& match crate::json::object_get(m.configuration@, "level"@) {
        Some(v) => match v {
            crate::json::JsonValue::UInt(n) => n <= i32::MAX,
            crate::json::JsonValue::Int(i) => i >= i32::MIN,
            _ => false,
        },
        None => true,
    }
    &&& match crate::json::object_get(m.configuration@, "checksum"@) {
        Some(v) => v is Bool,
        None => true,
    }
}

/// Whether a metadata entry names a codec of this library with a valid
/// configuration.
pub open spec fn codec_metadata_valid(m: crate::metadata::Metadata) -> bool {
    bytes_codec_metadata_valid(m) || zstd_codec_metadata_valid(m)
}

/// A metadata entry determines the codec: two codecs matching it are equal.
pub proof fn lemma_codec_matches_deterministic(
    c1: Codec,
    c2: Codec,
    m: crate::metadata::Metadata,
)
    requires
        codec_matches_metadata(c1, m),
        codec_matches_metadata(c2, m),
    ensures
        c1 == c2,
{
    reveal_strlit("bytes");
    reveal_strlit("zstd");
    assert(("bytes"@).len() == 5);
    assert(("zstd"@).len() == 4);
}

/// A partial decoder reading byte ranges straight from a store value.
pub struct StoragePartialDecoder<'a, TStorage> {
    storage: &'a TStorage,
    key: StoreKey,
}

impl<'a, TStorage: ReadableStorageTraits> StoragePartialDecoder<'a, TStorage> {
    /// The store the decoder reads from.
    pub closed spec fn spec_storage(&self) -> &'a TStorage {
        self.storage
    }

    /// The key the decoder reads.
    pub closed spec fn spec_key(&self) -> Seq<char> {
        self.key.spec_key()
    }

    /// Create a new storage partial decoder.
    pub fn new(storage: &'a TStorage, key: StoreKey) -> (r: Self)
        ensures
            r.spec_storage() == storage,
            r.spec_key() == key.spec_key(),
    {
        Self { storage, key }
    }
}

/// A partial decoder over the bytes of one stored chunk.
pub enum BytesPartialDecoder<'a, TStorage> {
    /// Range reads from a store value.
    Storage(StoragePartialDecoder<'a, TStorage>),
    /// Range reads from an in-memory encoded value.
    Cursor(Vec<u8>),
    /// Range reads from a cached value.
    Cache(crate::codec::bytes_partial_decoder_cache::BytesPartialDecoderCache),
    /// The `zstd` codec layered over an upstream decoder.
    Zstd(ZstdCodec, Box<BytesPartialDecoder<'a, TStorage>>),
}

/// What a bytes partial decoder decodes to: `None` when a decode stage
/// fails, `Some(None)` when the underlying key is absent, and the whole
/// decoded value otherwise.
pub open spec fn bytes_source<'a, TStorage: ReadableStorageTraits>(
    d: BytesPartialDecoder<'a, TStorage>,
) -> Option<Option<Seq<u8>>>
    decreases d,
{
    match d {
        BytesPartialDecoder::Storage(s) => Some(
            if s.spec_storage().store_view().contains_key(s.spec_key()) {
                Some(s.spec_storage().store_view()[s.spec_key()])
            } else {
                None
            },
        ),
        BytesPartialDecoder::Cursor(v) => Some(Some(v@)),
        BytesPartialDecoder::Cache(c) => Some(c.spec_cache()),
        BytesPartialDecoder::Zstd(_, inner) => match bytes_source(*inner) {
            None => None,
            Some(None) => Some(None),
            Some(Some(enc)) => match zstd_decoding(enc) {
                None => None,
                Some(v) => Some(Some(v)),
            },
        },
    }
}

impl<'a, TStorage: ReadableStorageTraits> BytesPartialDecoder<'a, TStorage> {
    /// Decode the whole value, or `None` if the underlying key is absent.
    pub fn decode(&self, options: &CodecOptions) -> (r: Result<Option<Vec<u8>>, CodecError>)
        ensures
            r matches Ok(o) ==> match o {
                Some(v) => bytes_source(*self) == Some(Some(v@)),
                None => bytes_source(*self) == Some(None::<Seq<u8>>),
            },
        decreases *self,
    {
        match self {
            BytesPartialDecoder::Storage(s) => {
                match s.storage.get(&s.key) {
                    Ok(o) => Ok(o),
                    Err(e) => Err(CodecError::StorageError(e)),
                }
            },
            BytesPartialDecoder::Cursor(v) => Ok(Some(v.clone())),
            BytesPartialDecoder::Cache(c) => Ok(c.cached_value()),
            BytesPartialDecoder::Zstd(z, inner) => {
                proof {
                    assert(decreases_to!(*self => self->Zstd_1));
                }
                match inner.decode(options) {
                    Ok(Some(enc)) => {
                        match z.decode(enc, options) {
                            Ok(v) => Ok(Some(v)),
                            Err(e) => Err(e),
                        }
                    },
                    Ok(None) => Ok(None),
                    Err(e) => Err(e),
                }
            },
        }
    }

    /// Decode the given byte ranges of the value, one buffer per range, or
    /// `None` if the underlying key is absent.
    pub fn partial_decode(&self, decoded_regions: &[ByteRange], options: &CodecOptions) -> (r:
        Result<Option<Vec<Vec<u8>>>, CodecError>)
        ensures
            r matches Ok(o) ==> match o {
                Some(bufs) => bytes_source(*self) matches Some(Some(v)) && v.len() <= u64::MAX
                    && all_ranges_fit(decoded_regions@, v.len() as u64) && bufs@.len()
                    == decoded_regions@.len() && (forall|i: int|
                    0 <= i < bufs@.len() ==> #[trigger] bufs@[i]@ == range_of(
                        v,
                        decoded_regions@[i],
                    )),
                None => bytes_source(*self) == Some(None::<Seq<u8>>),
            },
    {
        match self {
            BytesPartialDecoder::Storage(s) => {
                match s.storage.get_partial_values_key(&s.key, decoded_regions) {
                    Ok(o) => Ok(o),
                    Err(e) => Err(CodecError::StorageError(e)),
                }
            },
            _ => {
                let whole = match self.decode(options) {
                    Ok(o) => o,
                    Err(e) => {
                        return Err(e);
                    },
                };
                match whole {
                    Some(v) => {
                        match crate::byte_range::extract_byte_ranges(
                            v.as_slice(),
                            decoded_regions,
                        ) {
                            Ok(bufs) => {
                                proof {
                                    let vl: usize = v.len();
                                    assert(v@.len() == vl);
                                }
                                Ok(Some(bufs))
                            },
                            Err(e) => Err(CodecError::InvalidByteRangeError(e)),
                        }
                    },
                    None => Ok(None),
                }
            },
        }
    }
}

/// A partial decoder over the elements of one chunk.
pub enum ArrayPartialDecoder<'a, TStorage> {
    /// The `bytes` codec over an upstream bytes decoder.
    Bytes {
        /// The upstream decoder of the serialised chunk.
        input: Box<BytesPartialDecoder<'a, TStorage>>,
        /// The decoded representation of the chunk.
        decoded_representation: ChunkRepresentation,
        /// The codec.
        codec: BytesCodec,
    },
    /// A cached decoded chunk.
    Cache(crate::codec::array_partial_decoder_cache::ArrayPartialDecoderCache),
}

/// What an array partial decoder decodes to: `None` when a stage fails,
/// `Some(None)` when the underlying key is absent, and the decoded chunk
/// bytes otherwise.
pub open spec fn array_source<'a, TStorage: ReadableStorageTraits>(
    d: ArrayPartialDecoder<'a, TStorage>,
) -> Option<Option<Seq<u8>>> {
    match d {
        ArrayPartialDecoder::Bytes { input, decoded_representation, codec } => {
            match bytes_source(*input) {
                None => None,
                Some(None) => Some(None),
                Some(Some(enc)) => {
                    if enc.len() == decoded_representation.spec_size() {
                        Some(
                            Some(
                                bytes_codec_encoding(
                                    enc,
                                    codec.big_endian,
                                    decoded_representation.spec_data_type().spec_size() as nat,
                                ),
                            ),
                        )
                    } else {
                        None
                    }
                },
            }
        },
        ArrayPartialDecoder::Cache(c) => Some(Some(c.spec_cache())),
    }
}

/// The chunk representation an array partial decoder decodes to.
pub open spec fn array_decoder_representation<'a, TStorage: ReadableStorageTraits>(
    d: ArrayPartialDecoder<'a, TStorage>,
) -> ChunkRepresentation {
    match d {
        ArrayPartialDecoder::Bytes { input, decoded_representation, codec } =>
            decoded_representation,
        ArrayPartialDecoder::Cache(c) => c.spec_representation(),
    }
}

/// An array partial decoder is well formed: its representation is, and a
/// cached chunk has the size the representation demands.
pub open spec fn array_decoder_wf<'a, TStorage: ReadableStorageTraits>(
    d: ArrayPartialDecoder<'a, TStorage>,
) -> bool {
    &&& array_decoder_representation(d).wf()
    &&& match d {
        ArrayPartialDecoder::Cache(c) => c.spec_cache().len() == c.spec_representation().spec_size(),
        _ => true,
    }
    &&& array_source(d) matches Some(Some(v)) ==> v.len() == array_decoder_representation(
        d,
    ).spec_size()
}

/// The buffers a partial decode of `subsets` must produce, given what the
/// decoder decodes to: slabs of the decoded chunk, or the fill value
/// repeated where no chunk is stored.
pub open spec fn partial_decode_expected<'a, TStorage: ReadableStorageTraits>(
    d: ArrayPartialDecoder<'a, TStorage>,
    subset: ArraySubset,
    out: Seq<u8>,
) -> bool {
    let rep = array_decoder_representation(d);
    let esize = rep.spec_data_type().spec_size() as nat;
    match array_source(d) {
        Some(Some(v)) => out == extracted_bytes(
            v,
            subset.spec_start(),
            subset.spec_shape(),
            rep.spec_shape(),
            esize,
        ),
        Some(None) => out.len() == shape_product(subset.spec_shape()) * esize && all_fill(
            rep.spec_fill_value().spec_bytes(),
            out,
        ),
        None => true,
    }
}

impl<'a, TStorage: ReadableStorageTraits> ArrayPartialDecoder<'a, TStorage> {
    /// The element size of the chunk this decoder serves.
    pub fn element_size(&self) -> (r: usize)
        ensures
            r == array_decoder_representation(*self).spec_data_type().spec_size(),
    {
        match self {
            ArrayPartialDecoder::Bytes { decoded_representation, .. } =>
                decoded_representation.element_size(),
            ArrayPartialDecoder::Cache(c) => c.element_size(),
        }
    }

    /// Decode the given subsets of the chunk, one buffer per subset.
    ///
    /// Each buffer holds the subset's slab of the decoded chunk, or the
    /// fill value repeated if no chunk is stored. Fails on a subset that
    /// does not lie within the chunk, or when a decode stage fails.
    pub fn partial_decode_opt(&self, array_subsets: &[ArraySubset], options: &CodecOptions) -> (r:
        Result<Vec<Vec<u8>>, CodecError>)
        requires
            array_decoder_wf(*self),
            forall|i: int| 0 <= i < array_subsets@.len() ==> (#[trigger] array_subsets@[i]).wf(),
        ensures
            r is Ok ==> array_source(*self) is Some,
            r matches Ok(bufs) ==> {
                &&& bufs@.len() == array_subsets@.len()
                &&& forall|i: int|
                    0 <= i < bufs@.len() ==> subset_within(
                        (#[trigger] array_subsets@[i]).spec_start(),
                        array_subsets@[i].spec_shape(),
                        array_decoder_representation(*self).spec_shape(),
                    ) && partial_decode_expected(*self, array_subsets@[i], bufs@[i]@)
            },
            *self is Cache && (forall|i: int|
                0 <= i < array_subsets@.len() ==> subset_within(
                    (#[trigger] array_subsets@[i]).spec_start(),
                    array_subsets@[i].spec_shape(),
                    array_decoder_representation(*self).spec_shape(),
                )) ==> r is Ok,
            r matches Err(e) ==> (*self is Cache ==> e is InvalidArraySubsetError && !(forall|
                i: int,
            |
                0 <= i < array_subsets@.len() ==> subset_within(
                    (#[trigger] array_subsets@[i]).spec_start(),
                    array_subsets@[i].spec_shape(),
                    array_decoder_representation(*self).spec_shape(),
                ))),
    {
        let whole: Option<Vec<u8>> = match self {
            ArrayPartialDecoder::Bytes { input, decoded_representation, codec } => {
                match input.decode(options) {
                    Ok(Some(enc)) => {
                        let size = decoded_representation.size();
                        if enc.len() != size {
                            return Err(
                                CodecError::UnexpectedChunkDecodedSize(enc.len(), size as u64),
                            );
                        }
                        match codec.decode(enc, decoded_representation, options) {
                            Ok(v) => Some(v),
                            Err(e) => {
                                return Err(e);
                            },
                        }
                    },
                    Ok(None) => None,
                    Err(e) => {
                        return Err(e);
                    },
                }
            },
            ArrayPartialDecoder::Cache(c) => Some(c.cached_chunk()),
        };
        let rep = match self {
            ArrayPartialDecoder::Bytes { decoded_representation, .. } => decoded_representation,
            ArrayPartialDecoder::Cache(c) => c.representation(),
        };
        let esize = rep.element_size();
        proof {
            assert(esize >= 1);
        }
        let rep_shape = rep.shape();
        let mut out: Vec<Vec<u8>> = Vec::new();
        let mut i: usize = 0;
        while i < array_subsets.len()
            invariant
                0 <= i <= array_subsets@.len(),
                array_decoder_wf(*self),
                forall|k: int|
                    0 <= k < array_subsets@.len() ==> (#[trigger] array_subsets@[k]).wf(),
                rep == array_decoder_representation(*self),
                rep.wf(),
                esize == rep.spec_data_type().spec_size(),
                esize >= 1,
                rep_shape@ == rep.spec_shape(),
                match whole {
                    Some(v) => array_source(*self) == Some(Some(v@)) && v@.len()
                        == rep.spec_size(),
                    None => array_source(*self) == Some(None::<Seq<u8>>),
                },
                out@.len() == i,
                forall|k: int|
                    0 <= k < i ==> subset_within(
                        (#[trigger] array_subsets@[k]).spec_start(),
                        array_subsets@[k].spec_shape(),
                        rep.spec_shape(),
                    ) && partial_decode_expected(*self, array_subsets@[k], out@[k]@),
            decreases array_subsets@.len() - i,
        {
            let subset = &array_subsets[i];
            if !subset.contained_in(rep_shape) {
                return Err(
                    CodecError::InvalidArraySubsetError(
                        IncompatibleArraySubsetAndShapeError {
                            subset_start: vstd::slice::slice_to_vec(subset.start()),
                            subset_shape: vstd::slice::slice_to_vec(subset.shape()),
                            array_shape: vstd::slice::slice_to_vec(rep_shape),
                        },
                    ),
                );
            }
            proof {
                assert forall|t: int| 0 <= t < subset.spec_shape().len() implies (
                #[trigger] subset.spec_shape()[t]) <= rep.spec_shape()[t] by {
                    assert(subset.spec_start()[t] + subset.spec_shape()[t]
                        <= rep.spec_shape()[t]);
                }
                crate::indexing::lemma_shape_product_monotone(
                    subset.spec_shape(),
                    rep.spec_shape(),
                );
                assert(shape_product(subset.spec_shape()) * (esize as nat) <= shape_product(
                    rep.spec_shape(),
                ) * (esize as nat)) by (nonlinear_arith)
                    requires
                        shape_product(subset.spec_shape()) <= shape_product(rep.spec_shape()),
                        esize >= 0,
                ;
            }
            match &whole {
                Some(v) => {
                    out.push(subset.extract_bytes(v.as_slice(), rep_shape, esize));
                },
                None => {
                    let n = match crate::indexing::checked_num_elements(subset.shape()) {
                        Some(n) => n,
                        None => {
                            proof {
                                let ss = subset.spec_shape();
                                let cs = rep.spec_shape();
                                let j = choose|j: int|
                                    0 <= j < ss.len() && shape_product(#[trigger] ss.take(j)) * (
                                    ss[j] as nat) > u64::MAX;
                                assert(ss.take(j + 1).drop_last() =~= ss.take(j));
                                assert(ss.take(j + 1).last() == ss[j]);
                                assert forall|k: int|
                                    0 <= k < j + 1 implies (#[trigger] ss.take(j + 1)[k])
                                    <= cs.take(j + 1)[k] by {
                                    assert(ss.take(j + 1)[k] == ss[k]);
                                    assert(cs.take(j + 1)[k] == cs[k]);
                                    assert(subset.spec_start()[k] + ss[k] <= cs[k]);
                                }
                                crate::indexing::lemma_shape_product_monotone(
                                    ss.take(j + 1),
                                    cs.take(j + 1),
                                );
                                crate::indexing::lemma_shape_product_split(cs, j + 1);
                                assert(crate::indexing::shape_positive(cs.skip(j + 1))) by {
                                    assert(forall|k: int|
                                        0 <= k < cs.skip(j + 1).len() ==> (#[trigger] cs.skip(
                                            j + 1,
                                        )[k]) == cs[j + 1 + k]);
                                }
                                crate::indexing::lemma_shape_product_positive(cs.skip(j + 1));
                                assert(shape_product(cs.take(j + 1)) <= shape_product(cs))
                                    by (nonlinear_arith)
                                    requires
                                        shape_product(cs) == shape_product(cs.take(j + 1))
                                            * shape_product(cs.skip(j + 1)),
                                        shape_product(cs.skip(j + 1)) >= 1,
                                        shape_product(cs.take(j + 1)) >= 0,
                                ;
                                assert(shape_product(cs) <= shape_product(cs) * (esize as nat))
                                    by (nonlinear_arith)
                                    requires
                                        esize >= 1,
                                        shape_product(cs) >= 0,
                                ;
                                assert(false);
                            }
                            0
                        },
                    };
                    proof {
                        assert(shape_product(rep.spec_shape()) <= shape_product(rep.spec_shape())
                            * (esize as nat)) by (nonlinear_arith)
                            requires
                                esize >= 1,
                                shape_product(rep.spec_shape()) >= 0,
                        ;
                        assert((n as nat) * (esize as nat) <= shape_product(rep.spec_shape()) * (
                        esize as nat)) by (nonlinear_arith)
                            requires
                                (n as nat) <= shape_product(rep.spec_shape()),
                                esize >= 0,
                        ;
                        assert(rep.spec_fill_value().spec_bytes().len() >= 1);
                        assert((esize as nat) * (n as nat) == (n as nat) * (esize as nat))
                            by (nonlinear_arith);
                    }
                    out.push(rep.fill_value().repeated(n as usize));
                },
            }
            i = i + 1;
        }
        Ok(out)
    }

    /// Decode the given subsets of the chunk with default codec options.
    pub fn partial_decode(&self, array_subsets: &[ArraySubset]) -> (r: Result<
        Vec<Vec<u8>>,
        CodecError,
    >)
        requires
            array_decoder_wf(*self),
            forall|i: int| 0 <= i < array_subsets@.len() ==> (#[trigger] array_subsets@[i]).wf(),
        ensures
            r is Ok ==> array_source(*self) is Some,
            r matches Ok(bufs) ==> {
                &&& bufs@.len() == array_subsets@.len()
                &&& forall|i: int|
                    0 <= i < bufs@.len() ==> subset_within(
                        (#[trigger] array_subsets@[i]).spec_start(),
                        array_subsets@[i].spec_shape(),
                        array_decoder_representation(*self).spec_shape(),
                    ) && partial_decode_expected(*self, array_subsets@[i], bufs@[i]@)
            },
            *self is Cache && (forall|i: int|
                0 <= i < array_subsets@.len() ==> subset_within(
                    (#[trigger] array_subsets@[i]).spec_start(),
                    array_subsets@[i].spec_shape(),
                    array_decoder_representation(*self).spec_shape(),
                )) ==> r is Ok,
    {
        let options = CodecOptions::new();
        self.partial_decode_opt(array_subsets, &options)
    }
}

impl ArrayToBytesCodec {
    /// The plugin metadata of this codec: its name, and the byte order it
    /// was configured with.
    pub fn create_metadata(&self) -> (r: crate::metadata::Metadata)
        ensures
            r.name@ == "bytes"@,
            forall|t: int|
                0 <= t < r.configuration@.len() ==> crate::json::value_wf(
                    (#[trigger] r.configuration@[t]).1,
                ),
            *self matches ArrayToBytesCodec::Bytes(b) ==> {
                &&& r.configuration@.len() == 1
                &&& r.configuration@[0].0@ == "endian"@
                &&& r.configuration@[0].1 matches crate::json::JsonValue::Str(s) && s@ == (
                if b.big_endian {
                    "big"@
                } else {
                    "little"@
                })
            },
    {
        match self {
            ArrayToBytesCodec::Bytes(b) => {
                let mut configuration: Vec<(String, crate::json::JsonValue)> = Vec::new();
                let endian = if b.big_endian {
                    <String as vstd::string::StringExecFns>::from_str("big")
                } else {
                    <String as vstd::string::StringExecFns>::from_str("little")
                };
                configuration.push(
                    (
                        <String as vstd::string::StringExecFns>::from_str("endian"),
                        crate::json::JsonValue::Str(endian),
                    ),
                );
                crate::metadata::Metadata {
                    name: <String as vstd::string::StringExecFns>::from_str("bytes"),
                    configuration,
                }
            },
        }
    }
}

impl BytesToBytesCodec {
    /// The plugin metadata of this codec: its name, and the level and
    /// checksum flag it was configured with.
    pub fn create_metadata(&self) -> (r: crate::metadata::Metadata)
        ensures
            r.name@ == "zstd"@,
            forall|t: int|
                0 <= t < r.configuration@.len() ==> crate::json::value_wf(
                    (#[trigger] r.configuration@[t]).1,
                ),
            *self matches BytesToBytesCodec::Zstd(z) ==> {
                &&& r.configuration@.len() == 2
                &&& r.configuration@[0].0@ == "level"@
                &&& r.configuration@[0].1 == (if z.compression >= 0 {
                    crate::json::JsonValue::UInt(z.compression as u64)
                } else {
                    crate::json::JsonValue::Int(z.compression as i64)
                })
                &&& r.configuration@[1].0@ == "checksum"@
                &&& r.configuration@[1].1 == crate::json::JsonValue::Bool(z.checksum)
            },
    {
        match self {
            BytesToBytesCodec::Zstd(z) => {
                let mut configuration: Vec<(String, crate::json::JsonValue)> = Vec::new();
                let level = if z.compression >= 0 {
                    crate::json::JsonValue::UInt(z.compression as u64)
                } else {
                    crate::json::JsonValue::Int(z.compression as i64)
                };
                configuration.push((<String as vstd::string::StringExecFns>::from_str("level"), level));
                configuration.push(
                    (
                        <String as vstd::string::StringExecFns>::from_str("checksum"),
                        crate::json::JsonValue::Bool(z.checksum),
                    ),
                );
                crate::metadata::Metadata {
                    name: <String as vstd::string::StringExecFns>::from_str("zstd"),
                    configuration,
                }
            },
        }
    }
}

impl Codec {
    /// Create a codec from plugin metadata.
    ///
    /// Recognises the `bytes` and `zstd` codecs; any other name is
    /// unsupported.
    pub fn from_metadata(metadata: &crate::metadata::Metadata) -> (r: Result<
        Codec,
        crate::metadata::PluginCreateError,
    >)
        ensures
            r matches Ok(c) ==> codec_matches_metadata(c, *metadata),
            r matches Ok(c) ==> (c is ArrayToBytes <==> metadata.name@ == "bytes"@),
            r is Ok <==> codec_metadata_valid(*metadata),
            r matches Err(e) ==> (e matches crate::metadata::PluginCreateError::Unsupported {
                name,
                ..
            } ==> metadata.name@ != "bytes"@ && metadata.name@ != "zstd"@ && name@
                == metadata.name@),
    {
        proof {
            reveal_strlit("bytes");
            reveal_strlit("zstd");
            assert(("bytes"@).len() == 5);
            assert(("zstd"@).len() == 4);
        }
        if crate::str_equal(metadata.name.as_str(), "bytes") {
            let big_endian = match crate::metadata::config_get(&metadata.configuration, "endian") {
                Some(v) => {
                    match v.as_str() {
                        Some(s) => {
                            if crate::str_equal(s.as_str(), "big") {
                                true
                            } else if crate::str_equal(s.as_str(), "little") {
                                false
                            } else {
                                return Err(
                                    crate::metadata::PluginCreateError::MetadataInvalid {
                                        name: metadata.name.clone(),
                                    },
                                );
                            }
                        },
                        None => {
                            return Err(
                                crate::metadata::PluginCreateError::MetadataInvalid {
                                    name: metadata.name.clone(),
                                },
                            );
                        },
                    }
                },
                None => false,
            };
            Ok(Codec::ArrayToBytes(ArrayToBytesCodec::Bytes(BytesCodec { big_endian })))
        } else if crate::str_equal(metadata.name.as_str(), "zstd") {
            let level: i32 = match crate::metadata::config_get(&metadata.configuration, "level") {
                Some(v) => {
                    match v {
                        crate::json::JsonValue::UInt(n) => {
                            if *n <= i32::MAX as u64 {
                                *n as i32
                            } else {
                                return Err(
                                    crate::metadata::PluginCreateError::MetadataInvalid {
                                        name: metadata.name.clone(),
                                    },
                                );
                            }
                        },
                        crate::json::JsonValue::Int(i) => {
                            if *i >= i32::MIN as i64 {
                                *i as i32
                            } else {
                                return Err(
                                    crate::metadata::PluginCreateError::MetadataInvalid {
                                        name: metadata.name.clone(),
                                    },
                                );
                            }
                        },
                        _ => {
                            return Err(
                                crate::metadata::PluginCreateError::MetadataInvalid {
                                    name: metadata.name.clone(),
                                },
                            );
                        },
                    }
                },
                None => 0,
            };
            let checksum: bool = match crate::metadata::config_get(
                &metadata.configuration,
                "checksum",
            ) {
                Some(v) => {
                    match v.as_bool() {
                        Some(b) => b,
                        None => {
                            return Err(
                                crate::metadata::PluginCreateError::MetadataInvalid {
                                    name: metadata.name.clone(),
                                },
                            );
                        },
                    }
                },
                None => false,
            };
            Ok(Codec::BytesToBytes(BytesToBytesCodec::Zstd(ZstdCodec { compression: level, checksum })))
        } else {
            Err(
                crate::metadata::PluginCreateError::Unsupported {
                    name: metadata.name.clone(),
                    plugin_type: <String as vstd::string::StringExecFns>::from_str("codec"),
                },
            )
        }
    }
}

} // verus!
