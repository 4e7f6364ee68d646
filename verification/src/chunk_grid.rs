//! Chunk grids: the tiling rules that partition an array into chunks.
//!
//! A chunk grid maps array coordinates to chunk coordinates and back. Two
//! variants exist: the regular grid, with one fixed chunk extent per axis,
//! and the rectangular grid, with an explicit table of chunk extents along
//! chosen axes.
//!
//! The checked operations validate dimensionality, reject out-of-bounds
//! coordinates with `None`, and otherwise report the per-axis arithmetic
//! described by the axis specification functions. An array extent of zero
//! along an axis means the axis is unbounded.

pub mod rectangular;
pub mod regular;

use vstd::prelude::*;

use crate::array_subset::ArraySubset;
use crate::array_subset::IncompatibleDimensionalityError;
use crate::chunk_grid::rectangular::{
    OffsetSize, RectangularChunkGrid, RectangularChunkGridDimension,
};
use crate::chunk_grid::regular::RegularChunkGrid;

verus! {

/// Ceiling division of `a` by a positive `s`.
pub open spec fn ceil_div(a: u64, s: u64) -> u64
    recommends
        s >= 1,
{
    ((a + s - 1) / (s as int)) as u64
}

/// A varying-axis table is well formed: positive sizes, offsets that chain
/// from zero, and per-chunk ends that fit in `u64`.
pub open spec fn table_wf(v: Seq<OffsetSize>) -> bool {
    &&& forall|j: int| 0 <= j < v.len() ==> #[trigger] v[j].size >= 1
    &&& forall|j: int| 0 <= j < v.len() ==> #[trigger] v[j].offset + v[j].size <= u64::MAX
    &&& v.len() > 0 ==> v[0].offset == 0
    &&& forall|j: int|
        0 < j < v.len() ==> #[trigger] v[j].offset == v[j - 1].offset + v[j - 1].size
}

/// A per-axis table entry is well formed.
pub open spec fn axis_wf(d: RectangularChunkGridDimension) -> bool {
    match d {
        RectangularChunkGridDimension::Fixed(s) => s >= 1,
        RectangularChunkGridDimension::Varying(v) => table_wf(v@),
    }
}

/// The number of chunks along one axis for an array extent `a`.
///
/// A varying axis reports its table length only when the table covers the
/// extent exactly; a fixed axis always reports the ceiling.
pub open spec fn axis_grid_size(d: RectangularChunkGridDimension, a: u64) -> Option<u64> {
    match d {
        RectangularChunkGridDimension::Fixed(s) => Some(ceil_div(a, s)),
        RectangularChunkGridDimension::Varying(v) => {
            if v@.len() == 0 {
                if a == 0 {
                    Some(0)
                } else {
                    None
                }
            } else if a == v@.last().offset + v@.last().size {
                Some(v@.len() as u64)
            } else {
                None
            }
        },
    }
}

/// The extent of chunk `j` along one axis.
pub open spec fn axis_chunk_size(d: RectangularChunkGridDimension, j: u64) -> Option<u64> {
    match d {
        RectangularChunkGridDimension::Fixed(s) => Some(s),
        RectangularChunkGridDimension::Varying(v) => {
            if j < v@.len() {
                Some(v@[j as int].size)
            } else {
                None
            }
        },
    }
}

/// The origin of chunk `j` along one axis; `None` if the chunk is beyond the
/// table or its origin does not fit in `u64`.
pub open spec fn axis_origin(d: RectangularChunkGridDimension, j: u64) -> Option<u64> {
    match d {
        RectangularChunkGridDimension::Fixed(s) => {
            if j * s <= u64::MAX {
                Some((j * s) as u64)
            } else {
                None
            }
        },
        RectangularChunkGridDimension::Varying(v) => {
            if j < v@.len() {
                Some(v@[j as int].offset)
            } else {
                None
            }
        },
    }
}

/// The chunk that array coordinate `x` falls into along one axis.
pub open spec fn axis_index_of(d: RectangularChunkGridDimension, x: u64) -> Option<u64> {
    match d {
        RectangularChunkGridDimension::Fixed(s) => Some((x as int / s as int) as u64),
        RectangularChunkGridDimension::Varying(v) => varying_index_of(v@, x),
    }
}

/// The entry of a varying table that contains coordinate `x`: the unique `j`
/// with `offset[j] <= x < offset[j] + size[j]`, or `None` beyond the table.
pub open spec fn varying_index_of(v: Seq<OffsetSize>, x: u64) -> Option<u64>
    decreases v.len(),
{
    if v.len() == 0 {
        None
    } else if v.last().offset <= x {
        if x < v.last().offset + v.last().size {
            Some((v.len() - 1) as u64)
        } else {
            None
        }
    } else {
        varying_index_of(v.drop_last(), x)
    }
}

/// An array coordinate is within the array extent along one axis: a zero
/// extent means the axis is unbounded.
pub open spec fn axis_coord_inbounds(d: RectangularChunkGridDimension, x: u64, a: u64) -> bool {
    &&& (a == 0 || x < a)
    &&& match d {
        RectangularChunkGridDimension::Fixed(_) => true,
        RectangularChunkGridDimension::Varying(v) => v@.len() > 0 && x < v@.last().offset
            + v@.last().size,
    }
}

/// `array_indices` lies within the array and, on varying axes, within the table.
pub open spec fn spec_array_indices_inbounds(
    axes: Seq<RectangularChunkGridDimension>,
    x: Seq<u64>,
    a: Seq<u64>,
) -> bool {
    &&& x.len() == axes.len()
    &&& a.len() == axes.len()
    &&& forall|i: int|
        0 <= i < axes.len() ==> axis_coord_inbounds(#[trigger] axes[i], x[i], a[i])
}

/// `chunk_indices` lies within the chunk grid for the given array shape: along
/// each axis the grid size is defined, and the index is below it unless the
/// grid size is zero (an unbounded axis).
pub open spec fn spec_chunk_indices_inbounds(
    axes: Seq<RectangularChunkGridDimension>,
    idx: Seq<u64>,
    a: Seq<u64>,
) -> bool {
    &&& idx.len() == axes.len()
    &&& a.len() == axes.len()
    &&& forall|i: int|
        0 <= i < axes.len() ==> (axis_grid_size(#[trigger] axes[i], a[i]) matches Some(gs) && (gs
            == 0 || idx[i] < gs))
}

/// A well-formed axis reports positive chunk extents.
pub proof fn lemma_axis_chunk_size_positive(d: RectangularChunkGridDimension, j: u64)
    requires
        axis_wf(d),
        axis_chunk_size(d, j) is Some,
    ensures
        axis_chunk_size(d, j)->Some_0 >= 1,
{
}

/// The entry found by `varying_index_of` contains `x`.
pub proof fn lemma_varying_index_props(v: Seq<OffsetSize>, x: u64)
    requires
        v.len() <= u64::MAX,
        varying_index_of(v, x) is Some,
    ensures
        ({
            let j = varying_index_of(v, x)->Some_0;
            &&& j < v.len()
            &&& v[j as int].offset <= x
            &&& x < v[j as int].offset + v[j as int].size
        }),
    decreases v.len(),
{
    if v.len() == 0 {
    } else if v.last().offset <= x {
    } else {
        lemma_varying_index_props(v.drop_last(), x);
    }
}

/// Every coordinate below the end of a well-formed table is contained in some
/// entry.
pub proof fn lemma_varying_index_total(v: Seq<OffsetSize>, x: u64)
    requires
        table_wf(v),
        v.len() > 0,
        x < v.last().offset + v.last().size,
    ensures
        varying_index_of(v, x) is Some,
    decreases v.len(),
{
    if v.last().offset <= x {
    } else {
        assert(v.len() >= 2) by {
            if v.len() == 1 {
                assert(v[0].offset == 0);
            }
        }
        assert(table_wf(v.drop_last()));
        assert(v.last().offset == v[v.len() - 2].offset + v[v.len() - 2].size);
        assert(v.drop_last().last() == v[v.len() - 2]);
        lemma_varying_index_total(v.drop_last(), x);
    }
}

/// Ceiling division, computed without overflow.
fn ceil_div_exec(a: u64, s: u64) -> (r: u64)
    requires
        s >= 1,
    ensures
        r == ceil_div(a, s),
{
    let d = a / s;
    let m = a % s;
    proof {
        vstd::arithmetic::div_mod::lemma_fundamental_div_mod(a as int, s as int);
    }
    if m == 0 {
        proof {
            assert(a + s - 1 == (d as int) * (s as int) + (s - 1)) by (nonlinear_arith)
                requires
                    a == (s as int) * (d as int),
            ;
            vstd::arithmetic::div_mod::lemma_fundamental_div_mod_converse(
                a + s - 1,
                s as int,
                d as int,
                s - 1,
            );
        }
        d
    } else {
        proof {
            assert(s >= 2);
            assert((d as int) * 2 <= (d as int) * (s as int)) by (nonlinear_arith)
                requires
                    s >= 2,
                    d >= 0,
            ;
            assert((s as int) * (d as int) == (d as int) * (s as int)) by (nonlinear_arith);
            assert(d + 1 <= u64::MAX);
            assert(a + s - 1 == (d + 1) * (s as int) + (m - 1)) by (nonlinear_arith)
                requires
                    a == (s as int) * (d as int) + m,
                    m >= 1,
            ;
            vstd::arithmetic::div_mod::lemma_fundamental_div_mod_converse(
                a + s - 1,
                s as int,
                d + 1,
                m - 1,
            );
        }
        d + 1
    }
}

/// Find the table entry containing coordinate `x` by scanning from the end.
fn varying_find(v: &Vec<OffsetSize>, x: u64) -> (r: Option<u64>)
    requires
        forall|j: int| 0 <= j < v@.len() ==> #[trigger] v@[j].offset + v@[j].size <= u64::MAX,
    ensures
        r == varying_index_of(v@, x),
{
    let mut j: usize = v.len();
    proof {
        assert(v@.take(v@.len() as int) =~= v@);
    }
    while j > 0
        invariant
            0 <= j <= v@.len(),
            forall|k: int| 0 <= k < v@.len() ==> #[trigger] v@[k].offset + v@[k].size <= u64::MAX,
            varying_index_of(v@, x) == varying_index_of(v@.take(j as int), x),
        decreases j,
    {
        let e = v[j - 1];
        proof {
            assert(v@.take(j as int).last() == v@[j - 1]);
            assert(v@.take(j as int).drop_last() =~= v@.take(j - 1));
        }
        if e.offset <= x {
            if x < e.offset + e.size {
                return Some((j - 1) as u64);
            } else {
                return None;
            }
        }
        j = j - 1;
    }
    proof {
        assert(v@.take(0) =~= Seq::<OffsetSize>::empty());
    }
    None
}

/// The number of chunks along one axis.
fn axis_grid_size_exec(d: &RectangularChunkGridDimension, a: u64) -> (r: Option<u64>)
    requires
        axis_wf(*d),
    ensures
        r == axis_grid_size(*d, a),
{
    match d {
        RectangularChunkGridDimension::Fixed(s) => Some(ceil_div_exec(a, *s)),
        RectangularChunkGridDimension::Varying(v) => {
            if v.len() == 0 {
                if a == 0 {
                    Some(0)
                } else {
                    None
                }
            } else {
                let last = v[v.len() - 1];
                if a == last.offset + last.size {
                    Some(v.len() as u64)
                } else {
                    None
                }
            }
        },
    }
}

/// The extent of chunk `j` along one axis.
fn axis_chunk_size_exec(d: &RectangularChunkGridDimension, j: u64) -> (r: Option<u64>)
    ensures
        r == axis_chunk_size(*d, j),
{
    match d {
        RectangularChunkGridDimension::Fixed(s) => Some(*s),
        RectangularChunkGridDimension::Varying(v) => {
            if j < v.len() as u64 {
                Some(v[j as usize].size)
            } else {
                None
            }
        },
    }
}

/// The origin of chunk `j` along one axis.
fn axis_origin_exec(d: &RectangularChunkGridDimension, j: u64) -> (r: Option<u64>)
    ensures
        r == axis_origin(*d, j),
{
    match d {
        RectangularChunkGridDimension::Fixed(s) => j.checked_mul(*s),
        RectangularChunkGridDimension::Varying(v) => {
            if j < v.len() as u64 {
                Some(v[j as usize].offset)
            } else {
                None
            }
        },
    }
}

/// The chunk that array coordinate `x` falls into along one axis.
fn axis_index_exec(d: &RectangularChunkGridDimension, x: u64) -> (r: Option<u64>)
    requires
        axis_wf(*d),
    ensures
        r == axis_index_of(*d, x),
{
    match d {
        RectangularChunkGridDimension::Fixed(s) => Some(x / *s),
        RectangularChunkGridDimension::Varying(v) => varying_find(v, x),
    }
}

/// Whether array coordinate `x` is within extent `a` along one axis.
fn axis_coord_inbounds_exec(d: &RectangularChunkGridDimension, x: u64, a: u64) -> (r: bool)
    requires
        axis_wf(*d),
    ensures
        r == axis_coord_inbounds(*d, x, a),
{
    if !(a == 0 || x < a) {
        return false;
    }
    match d {
        RectangularChunkGridDimension::Fixed(_) => true,
        RectangularChunkGridDimension::Varying(v) => {
            if v.len() == 0 {
                false
            } else {
                let last = v[v.len() - 1];
                x < last.offset + last.size
            }
        },
    }
}

/// A chunk grid: the rule that partitions an array into chunks.
#[derive(Clone, Debug)]
pub enum ChunkGrid {
    /// A regular grid: one fixed chunk extent per axis.
    Regular(RegularChunkGrid),
    /// A rectangular grid: an explicit per-axis table of chunk extents.
    Rectangular(RectangularChunkGrid),
}

impl ChunkGrid {
    /// The per-axis description of the grid.
    pub open spec fn spec_axes(&self) -> Seq<RectangularChunkGridDimension> {
        match self {
            ChunkGrid::Regular(g) => g.spec_axes(),
            ChunkGrid::Rectangular(g) => g.spec_dimensions(),
        }
    }

    /// Every axis of the grid is well formed.
    pub open spec fn wf(&self) -> bool {
        &&& forall|i: int|
            0 <= i < self.spec_axes().len() ==> axis_wf(#[trigger] self.spec_axes()[i])
        &&& match self {
            ChunkGrid::Regular(g) => g.wf(),
            ChunkGrid::Rectangular(_) => true,
        }
    }

    /// The per-axis description of the grid.
    fn axes_ref(&self) -> (r: &Vec<RectangularChunkGridDimension>)
        ensures
            r@ == self.spec_axes(),
    {
        match self {
            ChunkGrid::Regular(g) => g.axes(),
            ChunkGrid::Rectangular(g) => g.dimensions(),
        }
    }

    /// The number of axes of the grid.
    pub fn dimensionality(&self) -> (r: usize)
        ensures
            r == self.spec_axes().len(),
    {
        self.axes_ref().len()
    }

    /// The shape of the chunk grid: the number of chunks along each axis.
    ///
    /// Returns `None` when a varying axis does not cover the array extent
    /// exactly.
    pub fn grid_shape(&self, array_shape: &[u64]) -> (r: Result<
        Option<Vec<u64>>,
        IncompatibleDimensionalityError,
    >)
        requires
            self.wf(),
        ensures
            r is Err <==> array_shape@.len() != self.spec_axes().len(),
            r matches Ok(o) ==> {
                &&& (o is Some <==> forall|i: int|
                    0 <= i < self.spec_axes().len() ==> axis_grid_size(
                        #[trigger] self.spec_axes()[i],
                        array_shape@[i],
                    ) is Some)
                &&& (o matches Some(gs) ==> gs@.len() == self.spec_axes().len() && forall|i: int|
                    0 <= i < gs@.len() ==> Some(#[trigger] gs@[i]) == axis_grid_size(
                        self.spec_axes()[i],
                        array_shape@[i],
                    ))
            },
    {
        let axes = self.axes_ref();
        let dim = axes.len();
        if array_shape.len() != dim {
            return Err(IncompatibleDimensionalityError { got: array_shape.len(), expected: dim });
        }
        let mut out: Vec<u64> = Vec::new();
        let mut i: usize = 0;
        while i < dim
            invariant
                0 <= i <= dim,
                dim == self.spec_axes().len(),
                axes@ == self.spec_axes(),
                array_shape@.len() == dim,
                self.wf(),
                out@.len() == i,
                forall|k: int|
                    0 <= k < i ==> Some(#[trigger] out@[k]) == axis_grid_size(
                        self.spec_axes()[k],
                        array_shape@[k],
                    ),
            decreases dim - i,
        {
            match axis_grid_size_exec(&axes[i], array_shape[i]) {
                Some(g) => {
                    out.push(g);
                },
                None => {
                    return Ok(None);
                },
            }
            i = i + 1;
        }
        proof {
            assert forall|k: int|
                0 <= k < self.spec_axes().len() implies axis_grid_size(
                #[trigger] self.spec_axes()[k],
                array_shape@[k],
            ) is Some by {
                assert(Some(out@[k]) == axis_grid_size(self.spec_axes()[k], array_shape@[k]));
            }
        }
        Ok(Some(out))
    }

    /// Whether `array_indices` lies within the array (and, on varying axes,
    /// within the table). A zero array extent means the axis is unbounded.
    pub fn array_indices_inbounds(&self, array_indices: &[u64], array_shape: &[u64]) -> (r: bool)
        requires
            self.wf(),
        ensures
            r == spec_array_indices_inbounds(self.spec_axes(), array_indices@, array_shape@),
    {
        let axes = self.axes_ref();
        let dim = axes.len();
        if array_indices.len() != dim || array_shape.len() != dim {
            return false;
        }
        let mut i: usize = 0;
        while i < dim
            invariant
                0 <= i <= dim,
                dim == self.spec_axes().len(),
                axes@ == self.spec_axes(),
                array_indices@.len() == dim,
                array_shape@.len() == dim,
                self.wf(),
                forall|k: int|
                    0 <= k < i ==> axis_coord_inbounds(
                        #[trigger] self.spec_axes()[k],
                        array_indices@[k],
                        array_shape@[k],
                    ),
            decreases dim - i,
        {
            if !axis_coord_inbounds_exec(&axes[i], array_indices[i], array_shape[i]) {
                return false;
            }
            i = i + 1;
        }
        true
    }

    /// Whether `chunk_indices` lies within the chunk grid for the given array
    /// shape. A grid size of zero along an axis means the axis is unbounded.
    pub fn chunk_indices_inbounds(&self, chunk_indices: &[u64], array_shape: &[u64]) -> (r: bool)
        requires
            self.wf(),
        ensures
            r == spec_chunk_indices_inbounds(self.spec_axes(), chunk_indices@, array_shape@),
    {
        let axes = self.axes_ref();
        let dim = axes.len();
        if chunk_indices.len() != dim || array_shape.len() != dim {
            return false;
        }
        let mut i: usize = 0;
        while i < dim
            invariant
                0 <= i <= dim,
                dim == self.spec_axes().len(),
                axes@ == self.spec_axes(),
                chunk_indices@.len() == dim,
                array_shape@.len() == dim,
                self.wf(),
                forall|k: int|
                    0 <= k < i ==> (axis_grid_size(
                        #[trigger] self.spec_axes()[k],
                        array_shape@[k],
                    ) matches Some(gs) && (gs == 0 || chunk_indices@[k] < gs)),
            decreases dim - i,
        {
            match axis_grid_size_exec(&axes[i], array_shape[i]) {
                Some(gs) => {
                    if !(gs == 0 || chunk_indices[i] < gs) {
                        return false;
                    }
                },
                None => {
                    return false;
                },
            }
            i = i + 1;
        }
        true
    }

    /// The shape of the chunk at `chunk_indices`.
    ///
    /// Returns `None` when the chunk indices are out of the grid.
    pub fn chunk_shape(&self, chunk_indices: &[u64], array_shape: &[u64]) -> (r: Result<
        Option<Vec<u64>>,
        IncompatibleDimensionalityError,
    >)
        requires
            self.wf(),
        ensures
            r is Err <==> (chunk_indices@.len() != self.spec_axes().len() || array_shape@.len()
                != self.spec_axes().len()),
            r matches Ok(o) ==> {
                &&& (o is Some <==> spec_chunk_indices_inbounds(
                    self.spec_axes(),
                    chunk_indices@,
                    array_shape@,
                ) && forall|i: int|
                    0 <= i < self.spec_axes().len() ==> axis_chunk_size(
                        #[trigger] self.spec_axes()[i],
                        chunk_indices@[i],
                    ) is Some)
                &&& (o matches Some(cs) ==> cs@.len() == self.spec_axes().len() && forall|i: int|
                    0 <= i < cs@.len() ==> Some(#[trigger] cs@[i]) == axis_chunk_size(
                        self.spec_axes()[i],
                        chunk_indices@[i],
                    ))
            },
    {
        let axes = self.axes_ref();
        let dim = axes.len();
        if chunk_indices.len() != dim || array_shape.len() != dim {
            return Err(IncompatibleDimensionalityError {
                got: chunk_indices.len(),
                expected: dim,
            });
        }
        if !self.chunk_indices_inbounds(chunk_indices, array_shape) {
            return Ok(None);
        }
        let mut out: Vec<u64> = Vec::new();
        let mut i: usize = 0;
        while i < dim
            invariant
                0 <= i <= dim,
                dim == self.spec_axes().len(),
                axes@ == self.spec_axes(),
                chunk_indices@.len() == dim,
                array_shape@.len() == dim,
                spec_chunk_indices_inbounds(self.spec_axes(), chunk_indices@, array_shape@),
                self.wf(),
                out@.len() == i,
                forall|k: int|
                    0 <= k < i ==> Some(#[trigger] out@[k]) == axis_chunk_size(
                        self.spec_axes()[k],
                        chunk_indices@[k],
                    ),
            decreases dim - i,
        {
            match axis_chunk_size_exec(&axes[i], chunk_indices[i]) {
                Some(s) => {
                    out.push(s);
                },
                None => {
                    return Ok(None);
                },
            }
            i = i + 1;
        }
        proof {
            assert forall|k: int|
                0 <= k < self.spec_axes().len() implies axis_chunk_size(
                #[trigger] self.spec_axes()[k],
                chunk_indices@[k],
            ) is Some by {
                assert(Some(out@[k]) == axis_chunk_size(self.spec_axes()[k], chunk_indices@[k]));
            }
        }
        Ok(Some(out))
    }

    /// The origin of the chunk at `chunk_indices`.
    ///
    /// Returns `None` when the chunk indices are out of the grid or the
    /// origin does not fit in `u64`.
    pub fn chunk_origin(&self, chunk_indices: &[u64], array_shape: &[u64]) -> (r: Result<
        Option<Vec<u64>>,
        IncompatibleDimensionalityError,
    >)
        requires
            self.wf(),
        ensures
            r is Err <==> (chunk_indices@.len() != self.spec_axes().len() || array_shape@.len()
                != self.spec_axes().len()),
            r matches Ok(o) ==> {
                &&& (o is Some <==> spec_chunk_indices_inbounds(
                    self.spec_axes(),
                    chunk_indices@,
                    array_shape@,
                ) && forall|i: int|
                    0 <= i < self.spec_axes().len() ==> axis_origin(
                        #[trigger] self.spec_axes()[i],
                        chunk_indices@[i],
                    ) is Some)
                &&& (o matches Some(org) ==> org@.len() == self.spec_axes().len() && forall|i: int|
                    0 <= i < org@.len() ==> Some(#[trigger] org@[i]) == axis_origin(
                        self.spec_axes()[i],
                        chunk_indices@[i],
                    ))
            },
    {
        let axes = self.axes_ref();
        let dim = axes.len();
        if chunk_indices.len() != dim || array_shape.len() != dim {
            return Err(IncompatibleDimensionalityError {
                got: chunk_indices.len(),
                expected: dim,
            });
        }
        if !self.chunk_indices_inbounds(chunk_indices, array_shape) {
            return Ok(None);
        }
        let mut out: Vec<u64> = Vec::new();
        let mut i: usize = 0;
        while i < dim
            invariant
                0 <= i <= dim,
                dim == self.spec_axes().len(),
                axes@ == self.spec_axes(),
                chunk_indices@.len() == dim,
                array_shape@.len() == dim,
                spec_chunk_indices_inbounds(self.spec_axes(), chunk_indices@, array_shape@),
                self.wf(),
                out@.len() == i,
                forall|k: int|
                    0 <= k < i ==> Some(#[trigger] out@[k]) == axis_origin(
                        self.spec_axes()[k],
                        chunk_indices@[k],
                    ),
            decreases dim - i,
        {
            match axis_origin_exec(&axes[i], chunk_indices[i]) {
                Some(o) => {
                    out.push(o);
                },
                None => {
                    return Ok(None);
                },
            }
            i = i + 1;
        }
        proof {
            assert forall|k: int|
                0 <= k < self.spec_axes().len() implies axis_origin(
                #[trigger] self.spec_axes()[k],
                chunk_indices@[k],
            ) is Some by {
                assert(Some(out@[k]) == axis_origin(self.spec_axes()[k], chunk_indices@[k]));
            }
        }
        Ok(Some(out))
    }

    /// The chunk indices of the chunk holding `array_indices`.
    ///
    /// Returns `None` when the array indices are out of bounds.
    pub fn chunk_indices(&self, array_indices: &[u64], array_shape: &[u64]) -> (r: Result<
        Option<Vec<u64>>,
        IncompatibleDimensionalityError,
    >)
        requires
            self.wf(),
        ensures
            r is Err <==> (array_indices@.len() != self.spec_axes().len() || array_shape@.len()
                != self.spec_axes().len()),
            r matches Ok(o) ==> {
                &&& (o is Some <==> spec_array_indices_inbounds(
                    self.spec_axes(),
                    array_indices@,
                    array_shape@,
                ))
                &&& (o matches Some(ci) ==> ci@.len() == self.spec_axes().len() && forall|i: int|
                    0 <= i < ci@.len() ==> Some(#[trigger] ci@[i]) == axis_index_of(
                        self.spec_axes()[i],
                        array_indices@[i],
                    ))
            },
    {
        let axes = self.axes_ref();
        let dim = axes.len();
        if array_indices.len() != dim || array_shape.len() != dim {
            return Err(IncompatibleDimensionalityError {
                got: array_indices.len(),
                expected: dim,
            });
        }
        if !self.array_indices_inbounds(array_indices, array_shape) {
            return Ok(None);
        }
        let mut out: Vec<u64> = Vec::new();
        let mut i: usize = 0;
        while i < dim
            invariant
                0 <= i <= dim,
                dim == self.spec_axes().len(),
                axes@ == self.spec_axes(),
                array_indices@.len() == dim,
                array_shape@.len() == dim,
                self.wf(),
                spec_array_indices_inbounds(self.spec_axes(), array_indices@, array_shape@),
                out@.len() == i,
                forall|k: int|
                    0 <= k < i ==> Some(#[trigger] out@[k]) == axis_index_of(
                        self.spec_axes()[k],
                        array_indices@[k],
                    ),
            decreases dim - i,
        {
            match axis_index_exec(&axes[i], array_indices[i]) {
                Some(j) => {
                    out.push(j);
                },
                None => {
                    proof {
                        // an in-bounds coordinate always falls in some chunk
                        assert(axis_coord_inbounds(
                            self.spec_axes()[i as int],
                            array_indices@[i as int],
                            array_shape@[i as int],
                        ));
                        match self.spec_axes()[i as int] {
                            RectangularChunkGridDimension::Fixed(_) => {},
                            RectangularChunkGridDimension::Varying(v) => {
                                lemma_varying_index_total(v@, array_indices@[i as int]);
                            },
                        }
                    }
                    return Ok(None);
                },
            }
            i = i + 1;
        }
        Ok(Some(out))
    }

    /// The indices of `array_indices` within its chunk.
    ///
    /// Returns `None` when the array indices are out of bounds.
    pub fn chunk_element_indices(&self, array_indices: &[u64], array_shape: &[u64]) -> (r: Result<
        Option<Vec<u64>>,
        IncompatibleDimensionalityError,
    >)
        requires
            self.wf(),
        ensures
            r is Err <==> (array_indices@.len() != self.spec_axes().len() || array_shape@.len()
                != self.spec_axes().len()),
            r matches Ok(o) ==> {
                &&& (o is Some <==> spec_array_indices_inbounds(
                    self.spec_axes(),
                    array_indices@,
                    array_shape@,
                ))
                &&& (o matches Some(e) ==> e@.len() == self.spec_axes().len() && forall|i: int|
                    0 <= i < e@.len() ==> #[trigger] e@[i] == array_indices@[i] - axis_origin(
                        self.spec_axes()[i],
                        axis_index_of(self.spec_axes()[i], array_indices@[i])->Some_0,
                    )->Some_0)
            },
    {
        let axes = self.axes_ref();
        let dim = axes.len();
        if array_indices.len() != dim || array_shape.len() != dim {
            return Err(IncompatibleDimensionalityError {
                got: array_indices.len(),
                expected: dim,
            });
        }
        if !self.array_indices_inbounds(array_indices, array_shape) {
            return Ok(None);
        }
        let mut out: Vec<u64> = Vec::new();
        let mut i: usize = 0;
        while i < dim
            invariant
                0 <= i <= dim,
                dim == self.spec_axes().len(),
                axes@ == self.spec_axes(),
                array_indices@.len() == dim,
                array_shape@.len() == dim,
                self.wf(),
                spec_array_indices_inbounds(self.spec_axes(), array_indices@, array_shape@),
                out@.len() == i,
                forall|k: int|
                    0 <= k < i ==> #[trigger] out@[k] == array_indices@[k] - axis_origin(
                        self.spec_axes()[k],
                        axis_index_of(self.spec_axes()[k], array_indices@[k])->Some_0,
                    )->Some_0,
            decreases dim - i,
        {
            let x = array_indices[i];
            let ghost gd = self.spec_axes()[i as int];
            proof {
                assert(axis_coord_inbounds(gd, x, array_shape@[i as int]));
                assert(axis_wf(gd));
                match gd {
                    RectangularChunkGridDimension::Fixed(s) => {
                        vstd::arithmetic::div_mod::lemma_fundamental_div_mod(x as int, s as int);
                        vstd::arithmetic::div_mod::lemma_mod_bound(x as int, s as int);
                    },
                    RectangularChunkGridDimension::Varying(v) => {
                        assert(vstd::std_specs::vec::spec_vec_len(&v) == v@.len());
                        lemma_varying_index_total(v@, x);
                        lemma_varying_index_props(v@, x);
                    },
                }
            }
            match axis_index_exec(&axes[i], x) {
                Some(j) => {
                    match axis_origin_exec(&axes[i], j) {
                        Some(o) => {
                            proof {
                                match gd {
                                    RectangularChunkGridDimension::Fixed(s) => {
                                        assert((s as int) * ((x as int) / (s as int)) <= x);
                                        assert((j as int) * (s as int) == (s as int) * (
                                        j as int)) by (nonlinear_arith);
                                    },
                                    RectangularChunkGridDimension::Varying(_) => {},
                                }
                                assert(o <= x);
                            }
                            out.push(x - o);
                        },
                        None => {
                            proof {
                                match gd {
                                    RectangularChunkGridDimension::Fixed(s) => {
                                        assert((s as int) * ((x as int) / (s as int)) <= x);
                                        assert((j as int) * (s as int) == (s as int) * (
                                        j as int)) by (nonlinear_arith);
                                        assert(false);
                                    },
                                    RectangularChunkGridDimension::Varying(_) => {
                                        assert(false);
                                    },
                                }
                            }
                            return Ok(None);
                        },
                    }
                },
                None => {
                    proof {
                        match gd {
                            RectangularChunkGridDimension::Fixed(_) => {
                                assert(false);
                            },
                            RectangularChunkGridDimension::Varying(_) => {
                                assert(false);
                            },
                        }
                    }
                    return Ok(None);
                },
            }
            i = i + 1;
        }
        Ok(Some(out))
    }

    /// The array subset covered by the chunk at `chunk_indices`: its origin
    /// and its declared shape.
    ///
    /// Returns `None` when the chunk indices are out of the grid or the
    /// chunk's end does not fit in `u64`.
    pub fn subset(&self, chunk_indices: &[u64], array_shape: &[u64]) -> (r: Result<
        Option<ArraySubset>,
        IncompatibleDimensionalityError,
    >)
        requires
            self.wf(),
        ensures
            r is Err <==> (chunk_indices@.len() != self.spec_axes().len() || array_shape@.len()
                != self.spec_axes().len()),
            r matches Ok(o) ==> {
                &&& (o matches Some(ss) ==> {
                    &&& ss.wf()
                    &&& ss.end_fits()
                    &&& ss.spec_start().len() == self.spec_axes().len()
                    &&& forall|i: int|
                        0 <= i < ss.spec_start().len() ==> Some(#[trigger] ss.spec_start()[i])
                            == axis_origin(self.spec_axes()[i], chunk_indices@[i])
                    &&& forall|i: int|
                        0 <= i < ss.spec_shape().len() ==> Some(#[trigger] ss.spec_shape()[i])
                            == axis_chunk_size(self.spec_axes()[i], chunk_indices@[i])
                })
                &&& (o is Some <==> spec_chunk_indices_inbounds(
                    self.spec_axes(),
                    chunk_indices@,
                    array_shape@,
                ) && (forall|i: int|
                    0 <= i < self.spec_axes().len() ==> axis_origin(
                        #[trigger] self.spec_axes()[i],
                        chunk_indices@[i],
                    ) is Some) && (forall|i: int|
                    0 <= i < self.spec_axes().len() ==> axis_origin(
                        #[trigger] self.spec_axes()[i],
                        chunk_indices@[i],
                    )->Some_0 + axis_chunk_size(self.spec_axes()[i], chunk_indices@[i])->Some_0
                        <= u64::MAX))
            },
    {
        let axes = self.axes_ref();
        let dim = axes.len();
        if chunk_indices.len() != dim || array_shape.len() != dim {
            return Err(IncompatibleDimensionalityError {
                got: chunk_indices.len(),
                expected: dim,
            });
        }
        if !self.chunk_indices_inbounds(chunk_indices, array_shape) {
            return Ok(None);
        }
        let mut start: Vec<u64> = Vec::new();
        let mut shape: Vec<u64> = Vec::new();
        let mut i: usize = 0;
        while i < dim
            invariant
                0 <= i <= dim,
                dim == self.spec_axes().len(),
                axes@ == self.spec_axes(),
                chunk_indices@.len() == dim,
                array_shape@.len() == dim,
                self.wf(),
                spec_chunk_indices_inbounds(self.spec_axes(), chunk_indices@, array_shape@),
                start@.len() == i,
                shape@.len() == i,
                forall|k: int|
                    0 <= k < i ==> Some(#[trigger] start@[k]) == axis_origin(
                        self.spec_axes()[k],
                        chunk_indices@[k],
                    ),
                forall|k: int|
                    0 <= k < i ==> Some(#[trigger] shape@[k]) == axis_chunk_size(
                        self.spec_axes()[k],
                        chunk_indices@[k],
                    ),
                forall|k: int| 0 <= k < i ==> #[trigger] start@[k] + shape@[k] <= u64::MAX,
            decreases dim - i,
        {
            let o = match axis_origin_exec(&axes[i], chunk_indices[i]) {
                Some(o) => o,
                None => {
                    return Ok(None);
                },
            };
            let s = match axis_chunk_size_exec(&axes[i], chunk_indices[i]) {
                Some(s) => s,
                None => {
                    proof {
                        // an origin within the table implies a size within it
                        match self.spec_axes()[i as int] {
                            RectangularChunkGridDimension::Fixed(_) => {
                                assert(false);
                            },
                            RectangularChunkGridDimension::Varying(_) => {
                                assert(false);
                            },
                        }
                    }
                    return Ok(None);
                },
            };
            if s > u64::MAX - o {
                return Ok(None);
            }
            start.push(o);
            shape.push(s);
            i = i + 1;
        }
        proof {
            assert forall|k: int|
                0 <= k < self.spec_axes().len() implies axis_origin(
                #[trigger] self.spec_axes()[k],
                chunk_indices@[k],
            ) is Some && axis_origin(self.spec_axes()[k], chunk_indices@[k])->Some_0
                + axis_chunk_size(self.spec_axes()[k], chunk_indices@[k])->Some_0 <= u64::MAX by {
                assert(Some(start@[k]) == axis_origin(self.spec_axes()[k], chunk_indices@[k]));
                assert(Some(shape@[k]) == axis_chunk_size(self.spec_axes()[k], chunk_indices@[k]));
                assert(start@[k] + shape@[k] <= u64::MAX);
            }
        }
        match ArraySubset::new_with_start_shape(start, shape) {
            Ok(ss) => Ok(Some(ss)),
            Err(_) => {
                proof {
                    assert(false);
                }
                Ok(None)
            },
        }
    }
}

} // verus!
