//! The rectangular chunk grid: an explicit per-axis table of chunk extents.
//!
//! Along each axis the grid either reuses one fixed extent for every chunk or
//! lists the extent of each chunk explicitly; the offsets of the listed
//! chunks chain from zero.

use vstd::prelude::*;

use crate::chunk_grid::ChunkGrid;
use crate::json::JsonValue;
use crate::metadata::{Metadata, PluginCreateError};
use crate::NonZeroError;

verus! {

/// The offset and extent of one chunk along one axis.
#[derive(Clone, Copy, Debug)]
pub struct OffsetSize {
    /// The offset of the chunk along the axis.
    pub offset: u64,
    /// The extent of the chunk along the axis.
    pub size: u64,
}

/// One axis of a rectangular chunk grid.
#[derive(Clone, Debug)]
pub enum RectangularChunkGridDimension {
    /// Every chunk along the axis has the same extent.
    Fixed(u64),
    /// The chunks along the axis have the listed offsets and extents.
    Varying(Vec<OffsetSize>),
}

/// Configuration of one axis of a rectangular chunk grid.
#[derive(Clone, Debug)]
pub enum RectangularChunkGridDimensionConfiguration {
    /// Every chunk along the axis has the same extent.
    Fixed(u64),
    /// The chunks along the axis have the listed extents, in order.
    Varying(Vec<u64>),
}

/// A configuration axis is well formed: every extent is positive.
pub open spec fn config_wf(c: RectangularChunkGridDimensionConfiguration) -> bool {
    match c {
        RectangularChunkGridDimensionConfiguration::Fixed(s) => s >= 1,
        RectangularChunkGridDimensionConfiguration::Varying(sizes) => forall|j: int|
            0 <= j < sizes@.len() ==> #[trigger] sizes@[j] >= 1,
    }
}

/// The sum of a sequence of extents.
pub open spec fn sizes_sum(s: Seq<u64>) -> int
    decreases s.len(),
{
    if s.len() == 0 {
        0
    } else {
        sizes_sum(s.drop_last()) + s.last()
    }
}

/// A prefix sum never exceeds the total sum.
pub proof fn lemma_sizes_sum_prefix(s: Seq<u64>, j: int)
    requires
        0 <= j <= s.len(),
    ensures
        sizes_sum(s.take(j)) <= sizes_sum(s),
        sizes_sum(s.take(j)) >= 0,
    decreases s.len() - j,
{
    if j == s.len() {
        assert(s.take(j) =~= s);
        lemma_sizes_sum_nonneg(s);
    } else {
        lemma_sizes_sum_prefix(s, j + 1);
        assert(s.take(j + 1).drop_last() =~= s.take(j));
        assert(s.take(j + 1).last() == s[j]);
        lemma_sizes_sum_nonneg(s.take(j));
    }
}

/// Sums of extents are non-negative.
pub proof fn lemma_sizes_sum_nonneg(s: Seq<u64>)
    ensures
        sizes_sum(s) >= 0,
    decreases s.len(),
{
    if s.len() > 0 {
        lemma_sizes_sum_nonneg(s.drop_last());
    }
}

impl RectangularChunkGridDimensionConfiguration {
    /// An axis on which every chunk has extent `size`.
    ///
    /// Fails with [`NonZeroError`] if and only if `size` is zero.
    pub fn fixed(size: u64) -> (r: Result<Self, NonZeroError>)
        ensures
            r is Ok <==> size >= 1,
            r matches Ok(c) ==> c == RectangularChunkGridDimensionConfiguration::Fixed(size),
    {
        if size == 0 {
            Err(NonZeroError)
        } else {
            Ok(RectangularChunkGridDimensionConfiguration::Fixed(size))
        }
    }

    /// An axis whose chunks have the listed extents, in order.
    ///
    /// Fails with [`NonZeroError`] if and only if some extent is zero.
    pub fn varying(sizes: Vec<u64>) -> (r: Result<Self, NonZeroError>)
        ensures
            r is Ok <==> (forall|j: int| 0 <= j < sizes@.len() ==> #[trigger] sizes@[j] >= 1),
            r matches Ok(c) ==> c == RectangularChunkGridDimensionConfiguration::Varying(sizes),
    {
        let mut j: usize = 0;
        while j < sizes.len()
            invariant
                0 <= j <= sizes@.len(),
                forall|i: int| 0 <= i < j ==> #[trigger] sizes@[i] >= 1,
            decreases sizes@.len() - j,
        {
            if sizes[j] == 0 {
                return Err(NonZeroError);
            }
            j = j + 1;
        }
        Ok(RectangularChunkGridDimensionConfiguration::Varying(sizes))
    }
}

/// An axis of the grid matches its configuration.
pub open spec fn axis_matches_config(
    c: RectangularChunkGridDimensionConfiguration,
    d: RectangularChunkGridDimension,
) -> bool {
    match c {
        RectangularChunkGridDimensionConfiguration::Fixed(s) => d
            == RectangularChunkGridDimension::Fixed(s),
        RectangularChunkGridDimensionConfiguration::Varying(sizes) => match d {
            RectangularChunkGridDimension::Fixed(_) => false,
            RectangularChunkGridDimension::Varying(v) => {
                &&& v@.len() == sizes@.len()
                &&& forall|j: int| 0 <= j < v@.len() ==> #[trigger] v@[j].size == sizes@[j]
                &&& forall|j: int|
                    0 <= j < v@.len() ==> #[trigger] v@[j].offset == sizes_sum(sizes@.take(j))
            },
        },
    }
}

/// A rectangular chunk grid.
#[derive(Clone, Debug)]
pub struct RectangularChunkGrid {
    chunks: Vec<RectangularChunkGridDimension>,
}

impl RectangularChunkGrid {
    /// The per-axis tables of the grid.
    pub closed spec fn spec_dimensions(&self) -> Seq<RectangularChunkGridDimension> {
        self.chunks@
    }

    /// Create a new rectangular chunk grid with the given per-axis chunk shapes.
    pub fn new(chunk_shapes: &[RectangularChunkGridDimensionConfiguration]) -> (r: Self)
        requires
            forall|i: int| 0 <= i < chunk_shapes@.len() ==> config_wf(#[trigger] chunk_shapes@[i]),
            forall|i: int|
                0 <= i < chunk_shapes@.len()
                    ==> (#[trigger] chunk_shapes@[i] matches
                RectangularChunkGridDimensionConfiguration::Varying(sizes) ==> sizes_sum(sizes@)
                    <= u64::MAX),
        ensures
            r.spec_dimensions().len() == chunk_shapes@.len(),
            forall|i: int|
                0 <= i < chunk_shapes@.len() ==> axis_matches_config(
                    #[trigger] chunk_shapes@[i],
                    r.spec_dimensions()[i],
                ),
            forall|i: int|
                0 <= i < r.spec_dimensions().len() ==> crate::chunk_grid::axis_wf(
                    #[trigger] r.spec_dimensions()[i],
                ),
    {
        let mut chunks: Vec<RectangularChunkGridDimension> = Vec::new();
        let mut i: usize = 0;
        while i < chunk_shapes.len()
            invariant
                0 <= i <= chunk_shapes@.len(),
                forall|k: int|
                    0 <= k < chunk_shapes@.len() ==> config_wf(#[trigger] chunk_shapes@[k]),
                forall|k: int|
                    0 <= k < chunk_shapes@.len()
                        ==> (#[trigger] chunk_shapes@[k] matches
                    RectangularChunkGridDimensionConfiguration::Varying(sizes) ==> sizes_sum(
                        sizes@,
                    ) <= u64::MAX),
                chunks@.len() == i,
                forall|k: int|
                    0 <= k < i ==> axis_matches_config(
                        #[trigger] chunk_shapes@[k],
                        chunks@[k],
                    ),
                forall|k: int|
                    0 <= k < i ==> crate::chunk_grid::axis_wf(#[trigger] chunks@[k]),
            decreases chunk_shapes@.len() - i,
        {
            match &chunk_shapes[i] {
                RectangularChunkGridDimensionConfiguration::Fixed(s) => {
                    chunks.push(RectangularChunkGridDimension::Fixed(*s));
                },
                RectangularChunkGridDimensionConfiguration::Varying(sizes) => {
                    let mut table: Vec<OffsetSize> = Vec::new();
                    let mut offset: u64 = 0;
                    let mut j: usize = 0;
                    proof {
                        assert(sizes@.take(0) =~= Seq::<u64>::empty());
                    }
                    while j < sizes.len()
                        invariant
                            0 <= j <= sizes@.len(),
                            config_wf(chunk_shapes@[i as int]),
                            chunk_shapes@[i as int]
                                == RectangularChunkGridDimensionConfiguration::Varying(*sizes),
                            sizes_sum(sizes@) <= u64::MAX,
                            table@.len() == j,
                            offset == sizes_sum(sizes@.take(j as int)),
                            forall|k: int|
                                0 <= k < j ==> #[trigger] table@[k].size == sizes@[k],
                            forall|k: int|
                                0 <= k < j ==> #[trigger] table@[k].offset == sizes_sum(
                                    sizes@.take(k),
                                ),
                        decreases sizes@.len() - j,
                    {
                        proof {
                            assert(sizes@.take(j + 1).drop_last() =~= sizes@.take(j as int));
                            assert(sizes@.take(j + 1).last() == sizes@[j as int]);
                            lemma_sizes_sum_prefix(sizes@, j + 1);
                        }
                        table.push(OffsetSize { offset, size: sizes[j] });
                        offset = offset + sizes[j];
                        j = j + 1;
                    }
                    proof {
                        // the offsets chain from zero
                        assert(sizes@.take(0) =~= Seq::<u64>::empty());
                        assert forall|k: int| 0 < k < table@.len() implies #[trigger] table@[
                        k].offset == table@[k - 1].offset + table@[k - 1].size by {
                            assert(sizes@.take(k).drop_last() =~= sizes@.take(k - 1));
                            assert(sizes@.take(k).last() == sizes@[k - 1]);
                        }
                        // each chunk's end fits in u64
                        assert forall|k: int| 0 <= k < table@.len() implies #[trigger] table@[
                        k].offset + table@[k].size <= u64::MAX by {
                            assert(sizes@.take(k + 1).drop_last() =~= sizes@.take(k));
                            assert(sizes@.take(k + 1).last() == sizes@[k]);
                            lemma_sizes_sum_prefix(sizes@, k + 1);
                        }
                    }
                    chunks.push(RectangularChunkGridDimension::Varying(table));
                },
            }
            i = i + 1;
        }
        Self { chunks }
    }

    /// The number of axes.
    pub fn dimensionality(&self) -> (r: usize)
        ensures
            r == self.spec_dimensions().len(),
    {
        self.chunks.len()
    }

    /// The per-axis tables of the grid.
    pub fn dimensions(&self) -> (r: &Vec<RectangularChunkGridDimension>)
        ensures
            r@ == self.spec_dimensions(),
    {
        &self.chunks
    }
}

/// Configuration parameters of a rectangular chunk grid.
#[derive(Debug)]
pub struct RectangularChunkGridConfiguration {
    /// The per-axis chunk shapes.
    pub chunk_shape: Vec<RectangularChunkGridDimensionConfiguration>,
}

/// Whether `name` names the rectangular chunk grid.
pub fn is_name_rectangular(name: &str) -> (r: bool)
    ensures
        r == (name@ == "rectangular"@),
{
    crate::str_equal(name, "rectangular")
}

/// Create a rectangular chunk grid from plugin metadata: its configuration
/// must hold a `chunk_shape` list whose entries are positive integers or
/// lists of positive integers summing within range.
pub fn create_chunk_grid_rectangular(metadata: &Metadata) -> (r: Result<
    ChunkGrid,
    PluginCreateError,
>)
    ensures
        r matches Ok(g) ==> g.wf(),
{
    let chunk_shape_value = match crate::metadata::config_get(&metadata.configuration,
        "chunk_shape") {
        Some(cs) => cs,
        None => {
            return Err(PluginCreateError::MetadataInvalid { name: metadata.name.clone() });
        },
    };
    let dims = match chunk_shape_value {
        JsonValue::Array(dims) => dims,
        _ => {
            return Err(PluginCreateError::MetadataInvalid { name: metadata.name.clone() });
        },
    };
    let mut configs: Vec<RectangularChunkGridDimensionConfiguration> = Vec::new();
    let mut i: usize = 0;
    while i < dims.len()
        invariant
            0 <= i <= dims@.len(),
            forall|j: int| 0 <= j < configs@.len() ==> config_wf(#[trigger] configs@[j]),
            forall|j: int|
                0 <= j < configs@.len() ==> ((#[trigger] configs@[j]) matches
                RectangularChunkGridDimensionConfiguration::Varying(sizes) ==> sizes_sum(sizes@)
                    <= u64::MAX),
        decreases dims@.len() - i,
    {
        match dims[i].as_u64() {
            Some(n) => {
                match RectangularChunkGridDimensionConfiguration::fixed(n) {
                    Ok(c) => {
                        configs.push(c);
                    },
                    Err(_) => {
                        return Err(
                            PluginCreateError::MetadataInvalid { name: metadata.name.clone() },
                        );
                    },
                }
            },
            None => {
                let sizes = match &dims[i] {
                    JsonValue::Array(elems) => {
                        let mut sizes: Vec<u64> = Vec::new();
                        let mut k: usize = 0;
                        while k < elems.len()
                            decreases elems@.len() - k,
                        {
                            match elems[k].as_u64() {
                                Some(n) => {
                                    sizes.push(n);
                                },
                                None => {
                                    return Err(
                                        PluginCreateError::MetadataInvalid {
                                            name: metadata.name.clone(),
                                        },
                                    );
                                },
                            }
                            k = k + 1;
                        }
                        sizes
                    },
                    _ => {
                        return Err(
                            PluginCreateError::MetadataInvalid { name: metadata.name.clone() },
                        );
                    },
                };
                // the extents must sum within range
                let mut total: u64 = 0;
                let mut j: usize = 0;
                while j < sizes.len()
                    invariant
                        0 <= j <= sizes@.len(),
                        total == sizes_sum(sizes@.take(j as int)),
                    decreases sizes@.len() - j,
                {
                    proof {
                        assert(sizes@.take(j + 1).drop_last() =~= sizes@.take(j as int));
                        assert(sizes@.take(j + 1).last() == sizes@[j as int]);
                    }
                    total = match total.checked_add(sizes[j]) {
                        Some(t) => t,
                        None => {
                            return Err(
                                PluginCreateError::MetadataInvalid {
                                    name: metadata.name.clone(),
                                },
                            );
                        },
                    };
                    j = j + 1;
                }
                proof {
                    assert(sizes@.take(sizes@.len() as int) =~= sizes@);
                }
                match RectangularChunkGridDimensionConfiguration::varying(sizes) {
                    Ok(c) => {
                        configs.push(c);
                    },
                    Err(_) => {
                        return Err(
                            PluginCreateError::MetadataInvalid { name: metadata.name.clone() },
                        );
                    },
                }
            },
        }
        i = i + 1;
    }
    let g = RectangularChunkGrid::new(configs.as_slice());
    Ok(ChunkGrid::Rectangular(g))
}

} // verus!
