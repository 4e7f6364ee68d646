//! Zarr arrays: N-dimensional chunked arrays over a key/value store.
//!
//! An array is defined by its shape, data type, chunk grid, chunk key
//! encoding, fill value and codec chain. Chunks are read and written under
//! deterministic store keys; a chunk that equals the fill value end to end
//! is never stored.

pub mod array_builder;
pub mod array_sync_readable;
pub mod array_sync_readable_writable;
pub mod array_sync_writable;

use vstd::prelude::*;
use vstd::string::StringExecFns;

use crate::array_representation::ChunkRepresentation;
use crate::array_subset::{ArraySubset, IncompatibleDimensionalityError};
use crate::chunk_grid::{
    axis_chunk_size, axis_index_of, axis_origin, spec_chunk_indices_inbounds, ChunkGrid,
};
use crate::chunk_key_encoding::{chunk_key_text, ChunkKeyEncoding};
use crate::codec::codec_chain::CodecChain;
use crate::codec::CodecError;
use crate::data_type::DataType;
use crate::fill_value::FillValue;
use crate::indexing::{shape_product, shape_positive};
use crate::json::JsonValue;
use crate::metadata::{AdditionalFields, PluginCreateError, UnsupportedAdditionalFieldError};
use crate::node::{node_path_valid, NodePath, NodePathError};
use crate::storage::{data_key, data_key_of, StorageError, StoreKey};

verus! {

/// An array error.
#[derive(Debug)]
pub enum ArrayError {
    /// Chunk indices that do not lie in the chunk grid.
    InvalidChunkGridIndicesError(Vec<u64>),
    /// An array subset that does not lie within the array.
    InvalidArraySubset,
    /// A chunk subset that does not lie within its chunk.
    InvalidChunkSubset,
    /// An input byte length that disagrees with the expected length: the
    /// length found, and the length expected.
    InvalidBytesInputSize(usize, u64),
    /// An element size that disagrees with the data type's: the data type's
    /// size, and the element type's size.
    IncompatibleElementSize(usize, usize),
    /// A chunk too large to decode in memory.
    UnrepresentableChunk,
    /// A codec error.
    CodecError(CodecError),
    /// A store error.
    StorageError(StorageError),
    /// An object of the wrong dimensionality.
    IncompatibleDimensionalityError(IncompatibleDimensionalityError),
}

/// An array creation error.
#[derive(Debug)]
pub enum ArrayCreateError {
    /// An invalid Zarr format version.
    InvalidZarrFormat(u64),
    /// An invalid node type.
    InvalidNodeType(String),
    /// An invalid node path.
    NodePathError(NodePathError),
    /// An unknown data type.
    DataTypeCreateError(String),
    /// A chunk grid that could not be created.
    ChunkGridCreateError(PluginCreateError),
    /// A chunk key encoding that could not be created.
    ChunkKeyEncodingCreateError(PluginCreateError),
    /// A codec chain that could not be created.
    CodecsCreateError(PluginCreateError),
    /// An invalid fill value for the data type.
    InvalidFillValueMetadata,
    /// The chunk grid's dimensionality disagrees with the shape's.
    InvalidChunkGridDimensionality(usize, usize),
    /// The number of dimension names disagrees with the dimensionality.
    InvalidDimensionNames(usize, usize),
    /// An unsupported additional field.
    UnsupportedAdditionalFieldError(UnsupportedAdditionalFieldError),
    /// A storage error.
    StorageError(StorageError),
    /// Missing array metadata in the store.
    MissingMetadata,
    /// Any other creation failure.
    Other(String),
}

/// A Zarr array.
pub struct Array {
    path: NodePath,
    shape: Vec<u64>,
    data_type: DataType,
    chunk_grid: ChunkGrid,
    chunk_key_encoding: ChunkKeyEncoding,
    fill_value: FillValue,
    codecs: CodecChain,
    attributes: Vec<(String, JsonValue)>,
    dimension_names: Option<Vec<String>>,
    additional_fields: AdditionalFields,
    include_zarrs_metadata: bool,
}

impl Array {
    /// The node path of the array.
    pub closed spec fn spec_path(&self) -> Seq<char> {
        self.path.spec_path()
    }

    /// The shape of the array.
    pub closed spec fn spec_shape(&self) -> Seq<u64> {
        self.shape@
    }

    /// The data type of the array.
    pub closed spec fn spec_data_type(&self) -> DataType {
        self.data_type
    }

    /// The chunk grid of the array.
    pub closed spec fn spec_chunk_grid(&self) -> ChunkGrid {
        self.chunk_grid
    }

    /// The chunk key encoding of the array.
    pub closed spec fn spec_chunk_key_encoding(&self) -> ChunkKeyEncoding {
        self.chunk_key_encoding
    }

    /// The fill value of the array.
    pub closed spec fn spec_fill_value(&self) -> FillValue {
        self.fill_value
    }

    /// The codec chain of the array.
    pub closed spec fn spec_codecs(&self) -> CodecChain {
        self.codecs
    }

    /// The attributes of the array.
    pub closed spec fn spec_attributes(&self) -> Seq<(String, JsonValue)> {
        self.attributes@
    }

    /// The additional fields of the array.
    pub closed spec fn spec_additional_fields(&self) -> AdditionalFields {
        self.additional_fields
    }

    /// The dimension names of the array.
    pub closed spec fn spec_dimension_names(&self) -> Option<Vec<String>> {
        self.dimension_names
    }

    /// Whether serialised metadata carries the provenance attribute.
    pub closed spec fn spec_include_zarrs_metadata(&self) -> bool {
        self.include_zarrs_metadata
    }

    /// The array is well formed: a valid path, a well-formed grid of the
    /// array's dimensionality, a fill value of one element, and a
    /// well-formed codec chain.
    pub open spec fn wf(&self) -> bool {
        &&& node_path_valid(self.spec_path())
        &&& self.spec_chunk_grid().wf()
        &&& self.spec_chunk_grid().spec_axes().len() == self.spec_shape().len()
        &&& self.spec_fill_value().spec_bytes().len() == self.spec_data_type().spec_size()
        &&& self.spec_codecs().wf()
        &&& forall|i: int|
            0 <= i < self.spec_attributes().len() ==> crate::json::value_wf(
                (#[trigger] self.spec_attributes()[i]).1,
            )
        &&& crate::metadata::additional_fields_wf(self.spec_additional_fields())
    }

    /// The store key of the chunk at `chunk_indices`.
    pub open spec fn spec_chunk_key(&self, chunk_indices: Seq<u64>) -> Seq<char> {
        data_key_of(
            self.spec_path(),
            chunk_key_text(self.spec_chunk_key_encoding(), chunk_indices),
        )
    }

    /// The declared shape of the chunk at `chunk_indices`.
    pub open spec fn spec_chunk_shape(&self, chunk_indices: Seq<u64>) -> Seq<u64> {
        Seq::new(
            self.spec_chunk_grid().spec_axes().len(),
            |i: int|
                axis_chunk_size(
                    self.spec_chunk_grid().spec_axes()[i],
                    chunk_indices[i],
                )->Some_0,
        )
    }

    /// The byte size of the decoded chunk at `chunk_indices`.
    pub open spec fn spec_chunk_byte_size(&self, chunk_indices: Seq<u64>) -> nat {
        (shape_product(self.spec_chunk_shape(chunk_indices))
            * self.spec_data_type().spec_size()) as nat
    }

    /// Whether `chunk_indices` name a chunk of the grid: in bounds on every
    /// axis, with a declared extent.
    pub open spec fn spec_chunk_in_grid(&self, chunk_indices: Seq<u64>) -> bool {
        &&& spec_chunk_indices_inbounds(
            self.spec_chunk_grid().spec_axes(),
            chunk_indices,
            self.spec_shape(),
        )
        &&& forall|i: int|
            0 <= i < self.spec_chunk_grid().spec_axes().len() ==> axis_chunk_size(
                #[trigger] self.spec_chunk_grid().spec_axes()[i],
                chunk_indices[i],
            ) is Some
    }

    /// The origin of the chunk at `chunk_indices`: the first array index it
    /// covers along each axis.
    pub open spec fn spec_chunk_origin(&self, chunk_indices: Seq<u64>) -> Seq<u64> {
        Seq::new(
            self.spec_chunk_grid().spec_axes().len(),
            |i: int|
                axis_origin(
                    self.spec_chunk_grid().spec_axes()[i],
                    chunk_indices[i],
                )->Some_0,
        )
    }

    /// The shape of the chunk at `chunk_indices`, clipped to the array
    /// shape.
    pub open spec fn spec_chunk_shape_bounded(&self, chunk_indices: Seq<u64>) -> Seq<u64> {
        Seq::new(
            self.spec_chunk_grid().spec_axes().len(),
            |i: int|
                crate::array_subset::overlap_extent(
                    self.spec_chunk_origin(chunk_indices)[i],
                    self.spec_chunk_shape(chunk_indices)[i],
                    0,
                    self.spec_shape()[i],
                ),
        )
    }

    /// The rectangle of chunk coordinates intersecting `array_subset`: its
    /// start and its shape in the chunk grid.
    pub open spec fn spec_chunks_rect(&self, array_subset: ArraySubset) -> (Seq<u64>, Seq<u64>) {
        let dim = array_subset.spec_start().len();
        if array_subset.spec_is_empty() || array_subset.spec_shape().len() == 0 {
            (Seq::new(dim, |i: int| 0u64), Seq::new(dim, |i: int| 0u64))
        } else {
            let axes = self.spec_chunk_grid().spec_axes();
            let s = Seq::new(
                axes.len(),
                |i: int| axis_index_of(axes[i], array_subset.spec_start()[i])->Some_0,
            );
            let e = Seq::new(
                axes.len(),
                |i: int|
                    axis_index_of(
                        axes[i],
                        (array_subset.spec_start()[i] + array_subset.spec_shape()[i] - 1) as u64,
                    )->Some_0,
            );
            (
                s,
                Seq::new(
                    axes.len(),
                    |i: int|
                        if e[i] >= s[i] {
                            (e[i] - s[i] + 1) as u64
                        } else {
                            0u64
                        },
                ),
            )
        }
    }

    /// The start of the array region covered by the `chunks` rectangle of
    /// the chunk grid.
    pub open spec fn spec_chunks_region_start(&self, chunks: ArraySubset) -> Seq<u64> {
        self.spec_chunk_origin(chunks.spec_start())
    }

    /// The shape of the array region covered by the `chunks` rectangle of
    /// the chunk grid: from the origin of its first chunk to the end of its
    /// last.
    pub open spec fn spec_chunks_region_shape(&self, chunks: ArraySubset) -> Seq<u64> {
        let last = Seq::new(
            chunks.spec_start().len(),
            |t: int| (chunks.spec_start()[t] + chunks.spec_shape()[t] - 1) as u64,
        );
        Seq::new(
            self.spec_chunk_grid().spec_axes().len(),
            |i: int|
                {
                    let s = self.spec_chunk_origin(chunks.spec_start())[i];
                    let e = (self.spec_chunk_origin(last)[i] + self.spec_chunk_shape(last)[i]) as u64;
                    if e >= s {
                        (e - s) as u64
                    } else {
                        0u64
                    }
                },
        )
    }

    /// The node path of the array.
    pub fn path(&self) -> (r: &NodePath)
        ensures
            r.spec_path() == self.spec_path(),
    {
        &self.path
    }

    /// The shape of the array.
    pub fn shape(&self) -> (r: &[u64])
        ensures
            r@ == self.spec_shape(),
    {
        self.shape.as_slice()
    }

    /// Set the shape of the array.
    pub fn set_shape(&mut self, shape: Vec<u64>)
        requires
            shape@.len() == old(self).spec_shape().len(),
        ensures
            final(self).spec_shape() == shape@,
            final(self).spec_path() == old(self).spec_path(),
            final(self).spec_data_type() == old(self).spec_data_type(),
            final(self).spec_chunk_grid() == old(self).spec_chunk_grid(),
            final(self).spec_chunk_key_encoding() == old(self).spec_chunk_key_encoding(),
            final(self).spec_fill_value() == old(self).spec_fill_value(),
            final(self).spec_codecs() == old(self).spec_codecs(),
            old(self).wf() ==> final(self).wf(),
    {
        self.shape = shape;
        proof {
            if old(self).wf() {
                assert(node_path_valid(self.spec_path()));
                assert(self.spec_chunk_grid().wf());
                assert(self.spec_chunk_grid().spec_axes().len() == self.spec_shape().len());
                assert(self.spec_fill_value().spec_bytes().len()
                    == self.spec_data_type().spec_size());
                assert(self.spec_codecs().wf());
                assert(self.spec_attributes() == old(self).spec_attributes());
                assert forall|i: int|
                    0 <= i < self.spec_attributes().len() implies crate::json::value_wf(
                    (#[trigger] self.spec_attributes()[i]).1,
                ) by {
                    assert(crate::json::value_wf(old(self).spec_attributes()[i].1));
                }
                assert(crate::metadata::additional_fields_wf(self.spec_additional_fields()));
            }
        }
    }

    /// The number of dimensions of the array.
    pub fn dimensionality(&self) -> (r: usize)
        ensures
            r == self.spec_shape().len(),
    {
        self.shape.len()
    }

    /// The data type of the array.
    pub fn data_type(&self) -> (r: &DataType)
        ensures
            *r == self.spec_data_type(),
    {
        &self.data_type
    }

    /// The fill value of the array.
    pub fn fill_value(&self) -> (r: &FillValue)
        ensures
            *r == self.spec_fill_value(),
    {
        &self.fill_value
    }

    /// The chunk grid of the array.
    pub fn chunk_grid(&self) -> (r: &ChunkGrid)
        ensures
            *r == self.spec_chunk_grid(),
    {
        &self.chunk_grid
    }

    /// The chunk key encoding of the array.
    pub fn chunk_key_encoding(&self) -> (r: &ChunkKeyEncoding)
        ensures
            *r == self.spec_chunk_key_encoding(),
    {
        &self.chunk_key_encoding
    }

    /// The codec chain of the array.
    pub fn codecs(&self) -> (r: &CodecChain)
        ensures
            *r == self.spec_codecs(),
    {
        &self.codecs
    }

    /// The attributes of the array.
    pub fn attributes(&self) -> (r: &Vec<(String, JsonValue)>)
        ensures
            r@ == self.spec_attributes(),
    {
        &self.attributes
    }

    /// Replace the attributes of the array, returning the previous ones.
    pub fn attributes_mut(&mut self, attributes: Vec<(String, JsonValue)>) -> (r: Vec<
        (String, JsonValue),
    >)
        requires
            forall|i: int|
                0 <= i < attributes@.len() ==> crate::json::value_wf(
                    (#[trigger] attributes@[i]).1,
                ),
        ensures
            old(self).wf() ==> final(self).wf(),
            final(self).spec_path() == old(self).spec_path(),
            final(self).spec_shape() == old(self).spec_shape(),
            final(self).spec_attributes() == attributes@,
            r@ == old(self).spec_attributes(),
    {
        let ghost new_attrs = attributes@;
        let mut attributes = attributes;
        core::mem::swap(&mut attributes, &mut self.attributes);
        proof {
            if old(self).wf() {
                assert(self.spec_attributes() == new_attrs);
                assert forall|i: int|
                    0 <= i < self.spec_attributes().len() implies crate::json::value_wf(
                    (#[trigger] self.spec_attributes()[i]).1,
                ) by {
                    assert(crate::json::value_wf(new_attrs[i].1));
                }
                assert(crate::metadata::additional_fields_wf(self.spec_additional_fields()));
            }
        }
        attributes
    }

    /// The additional fields of the array.
    pub fn additional_fields(&self) -> (r: &AdditionalFields)
        ensures
            *r == self.spec_additional_fields(),
    {
        &self.additional_fields
    }

    /// The dimension names of the array.
    pub fn dimension_names(&self) -> (r: &Option<Vec<String>>)
        ensures
            *r == self.spec_dimension_names(),
    {
        &self.dimension_names
    }

    /// Enable or disable a provenance attribute on serialised metadata.
    pub fn set_include_zarrs_metadata(&mut self, include_zarrs_metadata: bool)
        ensures
            old(self).wf() ==> final(self).wf(),
            final(self).spec_path() == old(self).spec_path(),
            final(self).spec_shape() == old(self).spec_shape(),
            final(self).spec_include_zarrs_metadata() == include_zarrs_metadata,
            final(self).spec_attributes() == old(self).spec_attributes(),
            final(self).spec_dimension_names() == old(self).spec_dimension_names(),
    {
        self.include_zarrs_metadata = include_zarrs_metadata;
        proof {
            if old(self).wf() {
                assert(self.spec_attributes() == old(self).spec_attributes());
                assert forall|i: int|
                    0 <= i < self.spec_attributes().len() implies crate::json::value_wf(
                    (#[trigger] self.spec_attributes()[i]).1,
                ) by {
                    assert(crate::json::value_wf(old(self).spec_attributes()[i].1));
                }
                assert(crate::metadata::additional_fields_wf(self.spec_additional_fields()));
            }
        }
    }

    /// The store key of the chunk at `chunk_indices`.
    pub fn chunk_key(&self, chunk_indices: &[u64]) -> (r: StoreKey)
        requires
            self.wf(),
        ensures
            r.spec_key() == self.spec_chunk_key(chunk_indices@),
    {
        let encoded = self.chunk_key_encoding.encode(chunk_indices);
        data_key(&self.path, &encoded)
    }

    /// The shape of the chunk grid: the number of chunks along each axis.
    pub fn chunk_grid_shape(&self) -> (r: Option<Vec<u64>>)
        requires
            self.wf(),
    {
        match self.chunk_grid.grid_shape(self.shape.as_slice()) {
            Ok(o) => o,
            Err(_) => {
                proof {
                    assert(false);
                }
                None
            },
        }
    }

    /// The declared shape of the chunk at `chunk_indices`.
    ///
    /// Fails with [`ArrayError::InvalidChunkGridIndicesError`] if and only
    /// if the indices are out of the grid.
    pub fn chunk_shape(&self, chunk_indices: &[u64]) -> (r: Result<Vec<u64>, ArrayError>)
        requires
            self.wf(),
        ensures
            r matches Ok(cs) ==> spec_chunk_indices_inbounds(
                self.spec_chunk_grid().spec_axes(),
                chunk_indices@,
                self.spec_shape(),
            ) && cs@ == self.spec_chunk_shape(chunk_indices@) && shape_positive(cs@),
            r is Ok <==> self.spec_chunk_in_grid(chunk_indices@),
            r matches Err(e) ==> e matches ArrayError::InvalidChunkGridIndicesError(c) && c@
                == chunk_indices@,
    {
        match self.chunk_grid.chunk_shape(chunk_indices, self.shape.as_slice()) {
            Ok(Some(cs)) => {
                proof {
                    assert(cs@ =~= self.spec_chunk_shape(chunk_indices@));
                    assert forall|i: int| 0 <= i < cs@.len() implies #[trigger] cs@[i] > 0 by {
                        crate::chunk_grid::lemma_axis_chunk_size_positive(
                            self.spec_chunk_grid().spec_axes()[i],
                            chunk_indices@[i],
                        );
                    }
                }
                Ok(cs)
            },
            Ok(None) => Err(
                ArrayError::InvalidChunkGridIndicesError(
                    vstd::slice::slice_to_vec(chunk_indices),
                ),
            ),
            Err(_) => Err(
                ArrayError::InvalidChunkGridIndicesError(
                    vstd::slice::slice_to_vec(chunk_indices),
                ),
            ),
        }
    }

    /// The array subset covered by the chunk at `chunk_indices`.
    ///
    /// Fails with [`ArrayError::InvalidChunkGridIndicesError`] if and only
    /// if the indices are out of the grid or the chunk's extent does not
    /// fit in `u64`.
    pub fn chunk_subset(&self, chunk_indices: &[u64]) -> (r: Result<ArraySubset, ArrayError>)
        requires
            self.wf(),
        ensures
            r matches Ok(ss) ==> {
                &&& ss.wf()
                &&& ss.end_fits()
                &&& chunk_indices@.len() == self.spec_shape().len()
                &&& ss.spec_start().len() == self.spec_shape().len()
                &&& ss.spec_shape() == self.spec_chunk_shape(chunk_indices@)
                &&& ss.spec_start() == self.spec_chunk_origin(chunk_indices@)
                &&& forall|i: int|
                    0 <= i < ss.spec_start().len() ==> Some(#[trigger] ss.spec_start()[i])
                        == axis_origin(
                        self.spec_chunk_grid().spec_axes()[i],
                        chunk_indices@[i],
                    )
            },
            r matches Err(e) ==> e is InvalidChunkGridIndicesError,
    {
        match self.chunk_grid.subset(chunk_indices, self.shape.as_slice()) {
            Ok(Some(ss)) => {
                proof {
                    assert(ss.spec_shape() =~= self.spec_chunk_shape(chunk_indices@));
                    assert(ss.spec_start() =~= self.spec_chunk_origin(chunk_indices@));
                }
                Ok(ss)
            },
            Ok(None) => Err(
                ArrayError::InvalidChunkGridIndicesError(
                    vstd::slice::slice_to_vec(chunk_indices),
                ),
            ),
            Err(_) => Err(
                ArrayError::InvalidChunkGridIndicesError(
                    vstd::slice::slice_to_vec(chunk_indices),
                ),
            ),
        }
    }

    /// The array subset covered by the chunk at `chunk_indices`, clipped to
    /// the array shape.
    pub fn chunk_subset_bounded(&self, chunk_indices: &[u64]) -> (r: Result<
        ArraySubset,
        ArrayError,
    >)
        requires
            self.wf(),
        ensures
            r matches Ok(ss) ==> ss.wf() && ss.end_fits() && crate::array_subset::subset_within(
                ss.spec_start(),
                ss.spec_shape(),
                self.spec_shape(),
            ) && ss.spec_start().len() == self.spec_shape().len() && ss.spec_start()
                == self.spec_chunk_origin(chunk_indices@) && ss.spec_shape()
                == self.spec_chunk_shape_bounded(chunk_indices@),
            r matches Err(e) ==> e is InvalidChunkGridIndicesError,
    {
        let subset = match self.chunk_subset(chunk_indices) {
            Ok(s) => s,
            Err(e) => {
                return Err(e);
            },
        };
        let bounded = subset.bound(self.shape.as_slice());
        proof {
            assert(bounded.spec_shape() =~= self.spec_chunk_shape_bounded(chunk_indices@));
        }
        let within = bounded.contained_in(self.shape.as_slice());
        if within {
            Ok(bounded)
        } else {
            Err(
                ArrayError::InvalidChunkGridIndicesError(
                    vstd::slice::slice_to_vec(chunk_indices),
                ),
            )
        }
    }

    /// The decoded representation of the chunk at `chunk_indices`.
    ///
    /// Fails when the indices are out of the grid, or when the chunk is too
    /// large to decode in memory.
    pub fn chunk_array_representation(&self, chunk_indices: &[u64]) -> (r: Result<
        ChunkRepresentation,
        ArrayError,
    >)
        requires
            self.wf(),
        ensures
            r matches Ok(rep) ==> {
                &&& rep.wf()
                &&& rep.spec_shape() == self.spec_chunk_shape(chunk_indices@)
                &&& rep.spec_data_type() == self.spec_data_type()
                &&& rep.spec_fill_value().spec_bytes() == self.spec_fill_value().spec_bytes()
                &&& rep.spec_size() == self.spec_chunk_byte_size(chunk_indices@)
                &&& spec_chunk_indices_inbounds(
                    self.spec_chunk_grid().spec_axes(),
                    chunk_indices@,
                    self.spec_shape(),
                )
            },
            self.spec_chunk_in_grid(chunk_indices@) && self.spec_chunk_byte_size(chunk_indices@)
                <= usize::MAX ==> r is Ok,
            r matches Err(e) ==> e is InvalidChunkGridIndicesError || e is UnrepresentableChunk,
    {
        let ghost fits = self.spec_chunk_byte_size(chunk_indices@) <= usize::MAX;
        let chunk_shape = match self.chunk_shape(chunk_indices) {
            Ok(cs) => cs,
            Err(e) => {
                return Err(e);
            },
        };
        let num_elements = match crate::indexing::checked_num_elements(chunk_shape.as_slice()) {
            Some(n) => n,
            None => {
                proof {
                    if fits {
                        let cs = chunk_shape@;
                        let j = choose|j: int|
                            0 <= j < cs.len() && shape_product(#[trigger] cs.take(j)) * (
                            cs[j] as nat) > u64::MAX;
                        crate::array::array_sync_readable::lemma_subset_prefix_product_fits(
                            cs,
                            cs,
                            self.spec_data_type().spec_size() as nat,
                            j,
                        );
                    }
                }
                return Err(ArrayError::UnrepresentableChunk);
            },
        };
        let esize = self.data_type.size();
        let byte_size = match num_elements.checked_mul(esize as u64) {
            Some(b) => b,
            None => {
                proof {
                    if fits {
                        assert(num_elements * esize <= usize::MAX);
                    }
                }
                return Err(ArrayError::UnrepresentableChunk);
            },
        };
        if byte_size > usize::MAX as u64 {
            return Err(ArrayError::UnrepresentableChunk);
        }
        let fill = FillValue::new(vstd::slice::slice_to_vec(self.fill_value.as_slice()));
        proof {
            assert(shape_product(chunk_shape@) * self.spec_data_type().spec_size()
                <= usize::MAX);
        }
        match ChunkRepresentation::new(chunk_shape, self.data_type, fill) {
            Ok(rep) => Ok(rep),
            Err(_) => {
                proof {
                    assert(false);
                }
                Err(ArrayError::UnrepresentableChunk)
            },
        }
    }

    /// The array subset covered by the `chunks` rectangle of the chunk
    /// grid: from the origin of its first chunk to the end of its last.
    pub fn chunks_subset(&self, chunks: &ArraySubset) -> (r: Result<ArraySubset, ArrayError>)
        requires
            self.wf(),
            chunks.wf(),
            chunks.end_fits(),
        ensures
            r matches Ok(ss) ==> ss.wf() && ss.end_fits() && ((chunks.spec_num_elements() > 0
                && chunks.spec_start().len() == self.spec_shape().len()) ==> ss.spec_start()
                == self.spec_chunks_region_start(*chunks) && ss.spec_shape()
                == self.spec_chunks_region_shape(*chunks)),
            r matches Err(e) ==> e is InvalidChunkGridIndicesError || e is InvalidArraySubset,
    {
        let end = match chunks.end_inc() {
            Some(e) => e,
            None => {
                let empty = ArraySubset::new_empty(chunks.dimensionality());
                proof {
                    if chunks.spec_num_elements() > 0 && chunks.spec_start().len()
                        == self.spec_shape().len() {
                        if chunks.spec_is_empty() {
                            let i = choose|i: int|
                                0 <= i < chunks.spec_shape().len()
                                    && #[trigger] chunks.spec_shape()[i] == 0;
                            crate::array_subset::lemma_axis_zero_product(
                                chunks.spec_shape(),
                                i,
                            );
                        }
                        assert(chunks.spec_shape().len() == 0);
                        assert(empty.spec_start() =~= self.spec_chunks_region_start(*chunks));
                        assert(empty.spec_shape() =~= self.spec_chunks_region_shape(*chunks));
                    }
                }
                return Ok(empty);
            },
        };
        let first = match self.chunk_subset(chunks.start()) {
            Ok(s) => s,
            Err(e) => {
                return Err(e);
            },
        };
        let last = match self.chunk_subset(end.as_slice()) {
            Ok(s) => s,
            Err(e) => {
                return Err(e);
            },
        };
        let dim = first.dimensionality();
        if last.dimensionality() != dim {
            return Err(ArrayError::InvalidArraySubset);
        }
        let first_start = first.start();
        let last_end = last.end_exc();
        let mut ranges: Vec<(u64, u64)> = Vec::new();
        let mut i: usize = 0;
        while i < dim
            invariant
                0 <= i <= dim,
                dim == first.spec_start().len(),
                dim == last.spec_start().len() == last.spec_shape().len(),
                first_start@ == first.spec_start(),
                last_end@.len() == dim,
                last_end@ == Seq::new(
                    last.spec_start().len(),
                    |j: int| (last.spec_start()[j] + last.spec_shape()[j]) as u64,
                ),
                ranges@.len() == i,
                forall|j: int| 0 <= j < i ==> (#[trigger] ranges@[j]).0 <= ranges@[j].1,
                forall|j: int|
                    0 <= j < i ==> (#[trigger] ranges@[j]).0 == first_start@[j] && ranges@[j].1
                        == (if last_end@[j] >= first_start@[j] {
                        last_end@[j]
                    } else {
                        first_start@[j]
                    }),
            decreases dim - i,
        {
            let s = first_start[i];
            let e = last_end[i];
            if e >= s {
                ranges.push((s, e));
            } else {
                ranges.push((s, s));
            }
            i = i + 1;
        }
        let out = ArraySubset::new_with_ranges(ranges.as_slice());
        proof {
            if chunks.spec_num_elements() > 0 && chunks.spec_start().len()
                == self.spec_shape().len() {
                let lastc = Seq::new(
                    chunks.spec_start().len(),
                    |t: int| (chunks.spec_start()[t] + chunks.spec_shape()[t] - 1) as u64,
                );
                assert(end@ =~= lastc);
                assert(out.spec_start() =~= self.spec_chunks_region_start(*chunks));
                assert(out.spec_shape() =~= self.spec_chunks_region_shape(*chunks));
            }
        }
        Ok(out)
    }

    /// The rectangle of chunk coordinates intersecting `array_subset`, or
    /// `None` where it cannot be determined.
    pub fn chunks_in_array_subset(&self, array_subset: &ArraySubset) -> (r: Result<
        Option<ArraySubset>,
        IncompatibleDimensionalityError,
    >)
        requires
            self.wf(),
            array_subset.wf(),
            array_subset.end_fits(),
        ensures
            r matches Ok(Some(cr)) ==> cr.wf() && cr.end_fits() && cr.spec_start()
                == self.spec_chunks_rect(*array_subset).0 && cr.spec_shape()
                == self.spec_chunks_rect(*array_subset).1,
    {
        if array_subset.dimensionality() != self.shape.len() {
            return Err(
                IncompatibleDimensionalityError {
                    got: array_subset.dimensionality(),
                    expected: self.shape.len(),
                },
            );
        }
        match array_subset.end_inc() {
            Some(end) => {
                let chunks_start = match self.chunk_grid.chunk_indices(
                    array_subset.start(),
                    self.shape.as_slice(),
                ) {
                    Ok(Some(cs)) => cs,
                    Ok(None) => {
                        return Ok(None);
                    },
                    Err(_) => {
                        return Ok(None);
                    },
                };
                let chunks_end = match self.chunk_grid.chunk_indices(
                    end.as_slice(),
                    self.shape.as_slice(),
                ) {
                    Ok(Some(ce)) => ce,
                    Ok(None) => {
                        return Ok(None);
                    },
                    Err(_) => {
                        return Ok(None);
                    },
                };
                let dim = chunks_start.len();
                if chunks_end.len() != dim {
                    return Ok(None);
                }
                let mut ranges: Vec<(u64, u64)> = Vec::new();
                let mut i: usize = 0;
                while i < dim
                    invariant
                        0 <= i <= dim,
                        dim == chunks_start@.len(),
                        dim == chunks_end@.len(),
                        ranges@.len() == i,
                        forall|j: int|
                            0 <= j < i ==> (#[trigger] ranges@[j]).0 <= ranges@[j].1,
                        forall|j: int|
                            0 <= j < i ==> (#[trigger] ranges@[j]).0 == chunks_start@[j]
                                && (chunks_end@[j] >= chunks_start@[j] ==> chunks_end@[j]
                                < u64::MAX) && ranges@[j].1 == (if chunks_end@[j]
                                >= chunks_start@[j] {
                                (chunks_end@[j] + 1) as u64
                            } else {
                                chunks_start@[j]
                            }),
                    decreases dim - i,
                {
                    let s = chunks_start[i];
                    let e = chunks_end[i];
                    if e >= s {
                        if e == u64::MAX {
                            return Ok(None);
                        }
                        ranges.push((s, e + 1));
                    } else {
                        ranges.push((s, s));
                    }
                    i = i + 1;
                }
                let cr = ArraySubset::new_with_ranges(ranges.as_slice());
                proof {
                    let axes = self.spec_chunk_grid().spec_axes();
                    let rect = self.spec_chunks_rect(*array_subset);
                    assert forall|j: int| 0 <= j < dim implies #[trigger] cr.spec_start()[j]
                        == rect.0[j] && cr.spec_shape()[j] == rect.1[j] by {
                        assert(Some(chunks_start@[j]) == axis_index_of(
                            axes[j],
                            array_subset.spec_start()[j],
                        ));
                        assert(Some(chunks_end@[j]) == axis_index_of(axes[j], end@[j]));
                        assert(end@[j] == (array_subset.spec_start()[j]
                            + array_subset.spec_shape()[j] - 1) as u64);
                        assert(cr.spec_start()[j] == ranges@[j].0);
                        assert(cr.spec_shape()[j] == (ranges@[j].1 - ranges@[j].0) as u64);
                    }
                    assert(cr.spec_start() =~= rect.0);
                    assert(cr.spec_shape() =~= rect.1);
                }
                Ok(Some(cr))
            },
            None => {
                let empty = ArraySubset::new_empty(self.shape.len());
                proof {
                    assert(empty.spec_start() =~= self.spec_chunks_rect(*array_subset).0);
                    assert(empty.spec_shape() =~= self.spec_chunks_rect(*array_subset).1);
                }
                Ok(Some(empty))
            },
        }
    }
}

/// Check that the size of an element type matches the data type's.
///
/// Fails with [`ArrayError::IncompatibleElementSize`] naming the two sizes
/// if and only if they differ.
pub fn validate_element_size<T>(data_type: &DataType) -> (r: Result<(), ArrayError>)
    ensures
        r is Ok <==> data_type.spec_size() == vstd::layout::size_of::<T>(),
        r matches Err(e) ==> e matches ArrayError::IncompatibleElementSize(dts, ets) && dts
            == data_type.spec_size() && ets == vstd::layout::size_of::<T>(),
{
    if data_type.size() == core::mem::size_of::<T>() {
        Ok(())
    } else {
        Err(ArrayError::IncompatibleElementSize(data_type.size(), core::mem::size_of::<T>()))
    }
}

/// Convert indices to `usize`, which must hold each of them.
pub fn iter_u64_to_usize(values: &[u64]) -> (r: Vec<usize>)
    requires
        forall|i: int| 0 <= i < values@.len() ==> #[trigger] values@[i] <= usize::MAX,
    ensures
        r@.len() == values@.len(),
        forall|i: int| 0 <= i < r@.len() ==> #[trigger] r@[i] == values@[i],
{
    let mut out: Vec<usize> = Vec::new();
    let mut i: usize = 0;
    while i < values.len()
        invariant
            0 <= i <= values@.len(),
            forall|j: int| 0 <= j < values@.len() ==> #[trigger] values@[j] <= usize::MAX,
            out@.len() == i,
            forall|j: int| 0 <= j < i ==> #[trigger] out@[j] == values@[j],
        decreases values@.len() - i,
    {
        out.push(values[i] as usize);
        i = i + 1;
    }
    out
}

} // verus!
