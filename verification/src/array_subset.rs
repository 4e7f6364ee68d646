//! Rectangular N-dimensional subsets of an array.
//!
//! An [`ArraySubset`] is an axis-aligned rectangular region given by a start
//! index and a shape. The subset algebra — intersection, translation,
//! row-major byte extraction and splicing — underlies every chunk read and
//! write of the array engine.

use vstd::prelude::*;

use crate::indexing::{
    delinearise, indices_in_bounds, lemma_delinearise_in_bounds, lemma_delinearise_linearise,
    lemma_in_bounds_positive, lemma_linearise_bound, lemma_linearise_delinearise,
    lemma_linearise_row, lemma_shape_product_front, lemma_shape_product_positive,
    lemma_shape_product_split, linearise, ravel_indices, shape_positive, shape_product,
    unravel_index,
};

verus! {

/// An object has an incompatible dimensionality.
#[derive(Clone, Copy, Debug)]
pub struct IncompatibleDimensionalityError {
    /// The dimensionality that was supplied.
    pub got: usize,
    /// The dimensionality that was expected.
    pub expected: usize,
}

/// An array subset and an array shape are incompatible: the subset does not
/// lie within an array of that shape, or byte lengths disagree.
#[derive(Clone, Debug)]
pub struct IncompatibleArraySubsetAndShapeError {
    /// The start of the offending subset.
    pub subset_start: Vec<u64>,
    /// The shape of the offending subset.
    pub subset_shape: Vec<u64>,
    /// The array shape the subset was held against.
    pub array_shape: Vec<u64>,
}

/// Per-axis sum of two index vectors.
pub open spec fn coords_add(a: Seq<u64>, b: Seq<u64>) -> Seq<u64>
    recommends
        a.len() == b.len(),
        forall|i: int| 0 <= i < a.len() ==> a[i] + b[i] <= u64::MAX,
{
    Seq::new(a.len(), |i: int| (a[i] + b[i]) as u64)
}

/// Per-axis difference of two index vectors.
pub open spec fn coords_sub(a: Seq<u64>, b: Seq<u64>) -> Seq<u64>
    recommends
        a.len() == b.len(),
        forall|i: int| 0 <= i < a.len() ==> b[i] <= a[i],
{
    Seq::new(a.len(), |i: int| (a[i] - b[i]) as u64)
}

/// `coords` lies within the subset given by `start` and `shape`.
pub open spec fn subset_contains(start: Seq<u64>, shape: Seq<u64>, coords: Seq<u64>) -> bool {
    &&& coords.len() == start.len()
    &&& start.len() == shape.len()
    &&& forall|i: int|
        0 <= i < start.len() ==> start[i] <= #[trigger] coords[i] && coords[i] < start[i]
            + shape[i]
}

/// The subset given by `start` and `shape` lies within an array of shape `parent`.
pub open spec fn subset_within(start: Seq<u64>, shape: Seq<u64>, parent: Seq<u64>) -> bool {
    &&& start.len() == shape.len()
    &&& start.len() == parent.len()
    &&& forall|i: int| 0 <= i < start.len() ==> #[trigger] start[i] + shape[i] <= parent[i]
}

/// The row-major linear index, in an array of shape `parent`, of the `k`-th
/// element (in row-major subset order) of the subset given by `start` and `shape`.
pub open spec fn source_index(start: Seq<u64>, shape: Seq<u64>, parent: Seq<u64>, k: nat) -> nat {
    linearise(coords_add(start, delinearise(k, shape)), parent)
}

/// The bytes of the subset given by `start` and `shape`, extracted from the
/// row-major bytes `src` of an array of shape `parent` with `esize` bytes per
/// element, in row-major subset order.
pub open spec fn extracted_bytes(
    src: Seq<u8>,
    start: Seq<u64>,
    shape: Seq<u64>,
    parent: Seq<u64>,
    esize: nat,
) -> Seq<u8> {
    Seq::new(
        shape_product(shape) * esize,
        |p: int| src[source_index(start, shape, parent, (p / esize as int) as nat) * esize + (
        p % esize as int)],
    )
}

/// The result of splicing the row-major subset bytes `src` into the row-major
/// bytes `dst` of an array of shape `parent`: positions inside the subset take
/// the corresponding byte of `src`, all others keep their byte of `dst`.
pub open spec fn spliced_bytes(
    dst: Seq<u8>,
    src: Seq<u8>,
    start: Seq<u64>,
    shape: Seq<u64>,
    parent: Seq<u64>,
    esize: nat,
) -> Seq<u8> {
    Seq::new(
        dst.len(),
        |p: int|
            {
                let coords = delinearise((p / esize as int) as nat, parent);
                if subset_contains(start, shape, coords) {
                    src[linearise(coords_sub(coords, start), shape) * esize + (p % esize as int)]
                } else {
                    dst[p]
                }
            },
    )
}

/// A rectangular subset of an array: a start index and a shape.
#[derive(Clone, Debug)]
pub struct ArraySubset {
    start: Vec<u64>,
    shape: Vec<u64>,
}

impl ArraySubset {
    /// The start of the subset.
    pub closed spec fn spec_start(&self) -> Seq<u64> {
        self.start@
    }

    /// The shape of the subset.
    pub closed spec fn spec_shape(&self) -> Seq<u64> {
        self.shape@
    }

    /// Start and shape have one entry per axis.
    pub open spec fn wf(&self) -> bool {
        self.spec_start().len() == self.spec_shape().len()
    }

    /// Per-axis ends fit in `u64`.
    pub open spec fn end_fits(&self) -> bool {
        forall|i: int|
            0 <= i < self.spec_start().len() ==> #[trigger] self.spec_start()[i]
                + self.spec_shape()[i] <= u64::MAX
    }

    /// The number of elements of the subset.
    pub open spec fn spec_num_elements(&self) -> nat {
        shape_product(self.spec_shape())
    }

    /// The subset is empty: some axis has extent zero.
    pub open spec fn spec_is_empty(&self) -> bool {
        exists|i: int| 0 <= i < self.spec_shape().len() && #[trigger] self.spec_shape()[i] == 0
    }

    /// Create a new subset from a start and a shape.
    ///
    /// Fails with [`IncompatibleDimensionalityError`] if and only if `start`
    /// and `shape` have different lengths.
    pub fn new_with_start_shape(start: Vec<u64>, shape: Vec<u64>) -> (r: Result<
        Self,
        IncompatibleDimensionalityError,
    >)
        ensures
            r is Ok <==> start@.len() == shape@.len(),
            r matches Ok(s) ==> s.spec_start() == start@ && s.spec_shape() == shape@,
    {
        if start.len() == shape.len() {
            Ok(Self { start, shape })
        } else {
            Err(IncompatibleDimensionalityError { got: shape.len(), expected: start.len() })
        }
    }

    /// Create a new subset starting at the origin with the given shape.
    pub fn new_with_shape(shape: Vec<u64>) -> (r: Self)
        ensures
            r.spec_shape() == shape@,
            r.spec_start() =~= Seq::new(shape@.len(), |i: int| 0u64),
            r.wf(),
            r.end_fits(),
    {
        let dim = shape.len();
        let mut start: Vec<u64> = Vec::new();
        let mut i: usize = 0;
        while i < dim
            invariant
                0 <= i <= dim,
                start@ =~= Seq::new(i as nat, |j: int| 0u64),
            decreases dim - i,
        {
            start.push(0);
            proof {
                assert(start@ =~= Seq::new((i + 1) as nat, |j: int| 0u64));
            }
            i = i + 1;
        }
        Self { start, shape }
    }

    /// Create an empty subset of the given dimensionality.
    pub fn new_empty(dimensionality: usize) -> (r: Self)
        ensures
            r.spec_start() =~= Seq::new(dimensionality as nat, |i: int| 0u64),
            r.spec_shape() =~= Seq::new(dimensionality as nat, |i: int| 0u64),
            r.wf(),
            dimensionality > 0 ==> r.spec_is_empty(),
    {
        let mut zeros: Vec<u64> = Vec::new();
        let mut i: usize = 0;
        while i < dimensionality
            invariant
                0 <= i <= dimensionality,
                zeros@ =~= Seq::new(i as nat, |j: int| 0u64),
            decreases dimensionality - i,
        {
            zeros.push(0);
            proof {
                assert(zeros@ =~= Seq::new((i + 1) as nat, |j: int| 0u64));
            }
            i = i + 1;
        }
        proof {
            if dimensionality > 0 {
                assert(zeros@[0] == 0);
            }
        }
        let start = zeros.clone();
        Self { start, shape: zeros }
    }

    /// Create a new subset from per-axis `(start, end_exclusive)` ranges.
    pub fn new_with_ranges(ranges: &[(u64, u64)]) -> (r: Self)
        requires
            forall|i: int| 0 <= i < ranges@.len() ==> #[trigger] ranges@[i].0 <= ranges@[i].1,
        ensures
            r.spec_start() =~= Seq::new(ranges@.len(), |i: int| ranges@[i].0),
            r.spec_shape() =~= Seq::new(
                ranges@.len(),
                |i: int| (ranges@[i].1 - ranges@[i].0) as u64,
            ),
            r.wf(),
            r.end_fits(),
    {
        let mut start: Vec<u64> = Vec::new();
        let mut shape: Vec<u64> = Vec::new();
        let mut i: usize = 0;
        while i < ranges.len()
            invariant
                0 <= i <= ranges@.len(),
                forall|j: int| 0 <= j < ranges@.len() ==> #[trigger] ranges@[j].0 <= ranges@[j].1,
                start@ =~= Seq::new(i as nat, |j: int| ranges@[j].0),
                shape@ =~= Seq::new(i as nat, |j: int| (ranges@[j].1 - ranges@[j].0) as u64),
            decreases ranges@.len() - i,
        {
            let (s, e) = ranges[i];
            start.push(s);
            shape.push(e - s);
            proof {
                assert(start@ =~= Seq::new((i + 1) as nat, |j: int| ranges@[j].0));
                assert(shape@ =~= Seq::new((i + 1) as nat, |j: int| (ranges@[j].1 - ranges@[j].0) as u64));
            }
            i = i + 1;
        }
        Self { start, shape }
    }

    /// The start of the subset along each axis.
    pub fn start(&self) -> (r: &[u64])
        ensures
            r@ == self.spec_start(),
    {
        self.start.as_slice()
    }

    /// The shape of the subset along each axis.
    pub fn shape(&self) -> (r: &[u64])
        ensures
            r@ == self.spec_shape(),
    {
        self.shape.as_slice()
    }

    /// The number of axes.
    pub fn dimensionality(&self) -> (r: usize)
        ensures
            r == self.spec_shape().len(),
    {
        self.shape.len()
    }

    /// Whether the subset is empty (an axis has extent zero).
    pub fn is_empty(&self) -> (r: bool)
        ensures
            r == self.spec_is_empty(),
    {
        let mut i: usize = 0;
        while i < self.shape.len()
            invariant
                0 <= i <= self.spec_shape().len(),
                forall|j: int| 0 <= j < i ==> #[trigger] self.spec_shape()[j] != 0,
            decreases self.spec_shape().len() - i,
        {
            if self.shape[i] == 0 {
                return true;
            }
            i = i + 1;
        }
        false
    }

    /// The number of elements of the subset.
    pub fn num_elements(&self) -> (r: u64)
        requires
            self.spec_num_elements() <= u64::MAX,
        ensures
            r == self.spec_num_elements(),
    {
        match crate::indexing::checked_num_elements(self.shape.as_slice()) {
            Some(n) => n,
            None => {
                proof {
                    let i = choose|i: int|
                        0 <= i < self.spec_shape().len() && shape_product(
                            #[trigger] self.spec_shape().take(i),
                        ) * (self.spec_shape()[i] as nat) > u64::MAX;
                    assert(self.spec_shape().take(i + 1).drop_last() =~= self.spec_shape().take(
                        i,
                    ));
                    lemma_shape_product_split(self.spec_shape(), i + 1);
                    let a = shape_product(self.spec_shape().take(i + 1));
                    let b = shape_product(self.spec_shape().skip(i + 1));
                    if b == 0 {
                        lemma_zero_in_shape(self.spec_shape(), i + 1);
                        assert(a * 0 == 0) by (nonlinear_arith);
                    } else {
                        assert(a * b >= a) by (nonlinear_arith)
                            requires
                                b >= 1,
                                a >= 0,
                        ;
                    }
                }
                0
            },
        }
    }

    /// The exclusive end of the subset along each axis.
    pub fn end_exc(&self) -> (r: Vec<u64>)
        requires
            self.wf(),
            self.end_fits(),
        ensures
            r@ =~= Seq::new(
                self.spec_start().len(),
                |i: int| (self.spec_start()[i] + self.spec_shape()[i]) as u64,
            ),
    {
        let dim = self.start.len();
        let mut out: Vec<u64> = Vec::new();
        let mut i: usize = 0;
        while i < dim
            invariant
                0 <= i <= dim,
                dim == self.spec_start().len() == self.spec_shape().len(),
                self.end_fits(),
                out@ =~= Seq::new(
                    i as nat,
                    |j: int| (self.spec_start()[j] + self.spec_shape()[j]) as u64,
                ),
            decreases dim - i,
        {
            out.push(self.start[i] + self.shape[i]);
            proof {
                assert(out@ =~= Seq::new(
                    (i + 1) as nat,
                    |j: int| (self.spec_start()[j] + self.spec_shape()[j]) as u64,
                ));
            }
            i = i + 1;
        }
        out
    }

    /// The inclusive end of the subset along each axis, or `None` if the
    /// subset is empty.
    pub fn end_inc(&self) -> (r: Option<Vec<u64>>)
        requires
            self.wf(),
            self.end_fits(),
        ensures
            r is None <==> (self.spec_is_empty() || self.spec_shape().len() == 0),
            r matches Some(e) ==> e@ =~= Seq::new(
                self.spec_start().len(),
                |i: int| (self.spec_start()[i] + self.spec_shape()[i] - 1) as u64,
            ),
    {
        let dim = self.start.len();
        if dim == 0 {
            return None;
        }
        let mut out: Vec<u64> = Vec::new();
        let mut i: usize = 0;
        while i < dim
            invariant
                0 <= i <= dim,
                dim == self.spec_start().len() == self.spec_shape().len(),
                self.end_fits(),
                forall|j: int| 0 <= j < i ==> #[trigger] self.spec_shape()[j] != 0,
                out@ =~= Seq::new(
                    i as nat,
                    |j: int| (self.spec_start()[j] + self.spec_shape()[j] - 1) as u64,
                ),
            decreases dim - i,
        {
            if self.shape[i] == 0 {
                return None;
            }
            out.push(self.start[i] + (self.shape[i] - 1));
            proof {
                assert(out@ =~= Seq::new(
                    (i + 1) as nat,
                    |j: int| (self.spec_start()[j] + self.spec_shape()[j] - 1) as u64,
                ));
            }
            i = i + 1;
        }
        Some(out)
    }

    /// The intersection of two subsets of the same space.
    ///
    /// The result is empty on every axis where the subsets do not overlap.
    pub fn overlap(&self, other: &Self) -> (r: Self)
        requires
            self.wf(),
            other.wf(),
            self.end_fits(),
            other.end_fits(),
            self.spec_start().len() == other.spec_start().len(),
        ensures
            r.wf(),
            r.end_fits(),
            r.spec_start().len() == self.spec_start().len(),
            forall|i: int|
                0 <= i < r.spec_start().len() ==> #[trigger] r.spec_start()[i] == max_u64(
                    self.spec_start()[i],
                    other.spec_start()[i],
                ),
            forall|i: int|
                0 <= i < r.spec_start().len() ==> #[trigger] r.spec_shape()[i] == overlap_extent(
                    self.spec_start()[i],
                    self.spec_shape()[i],
                    other.spec_start()[i],
                    other.spec_shape()[i],
                ),
    {
        let dim = self.start.len();
        let mut start: Vec<u64> = Vec::new();
        let mut shape: Vec<u64> = Vec::new();
        let mut i: usize = 0;
        while i < dim
            invariant
                0 <= i <= dim,
                dim == self.spec_start().len() == self.spec_shape().len(),
                dim == other.spec_start().len() == other.spec_shape().len(),
                self.end_fits(),
                other.end_fits(),
                start@.len() == i && shape@.len() == i,
                forall|j: int|
                    0 <= j < i ==> #[trigger] start@[j] == max_u64(
                        self.spec_start()[j],
                        other.spec_start()[j],
                    ),
                forall|j: int|
                    0 <= j < i ==> #[trigger] shape@[j] == overlap_extent(
                        self.spec_start()[j],
                        self.spec_shape()[j],
                        other.spec_start()[j],
                        other.spec_shape()[j],
                    ),
                forall|j: int| 0 <= j < i ==> #[trigger] start@[j] + shape@[j] <= u64::MAX,
            decreases dim - i,
        {
            let s1 = self.start[i];
            let s2 = other.start[i];
            let e1 = self.start[i] + self.shape[i];
            let e2 = other.start[i] + other.shape[i];
            let s = if s1 > s2 {
                s1
            } else {
                s2
            };
            let e = if e1 < e2 {
                e1
            } else {
                e2
            };
            start.push(s);
            if e > s {
                shape.push(e - s);
            } else {
                shape.push(0);
            }
            i = i + 1;
        }
        Self { start, shape }
    }

    /// The subset translated so that `origin` maps to zero.
    ///
    /// Valid only when the subset lies at or beyond `origin` on every axis.
    pub fn relative_to(&self, origin: &[u64]) -> (r: Self)
        requires
            self.wf(),
            origin@.len() == self.spec_start().len(),
            forall|i: int| 0 <= i < origin@.len() ==> #[trigger] origin@[i] <= self.spec_start()[i],
        ensures
            r.wf(),
            r.spec_start() =~= coords_sub(self.spec_start(), origin@),
            r.spec_shape() == self.spec_shape(),
    {
        let dim = self.start.len();
        let mut start: Vec<u64> = Vec::new();
        let mut i: usize = 0;
        while i < dim
            invariant
                0 <= i <= dim,
                dim == self.spec_start().len() == self.spec_shape().len(),
                dim == origin@.len(),
                forall|j: int| 0 <= j < dim ==> #[trigger] origin@[j] <= self.spec_start()[j],
                start@ =~= coords_sub(self.spec_start(), origin@).take(i as int),
            decreases dim - i,
        {
            start.push(self.start[i] - origin[i]);
            proof {
                assert(start@ =~= coords_sub(self.spec_start(), origin@).take(i + 1));
            }
            i = i + 1;
        }
        proof {
            assert(coords_sub(self.spec_start(), origin@).take(dim as int) =~= coords_sub(
                self.spec_start(),
                origin@,
            ));
        }
        Self { start, shape: self.shape.clone() }
    }

    /// The subset clipped to an array of shape `array_shape`.
    pub fn bound(&self, array_shape: &[u64]) -> (r: Self)
        requires
            self.wf(),
            self.end_fits(),
            array_shape@.len() == self.spec_start().len(),
        ensures
            r.wf(),
            r.end_fits(),
            r.spec_start() == self.spec_start(),
            forall|i: int|
                0 <= i < r.spec_shape().len() ==> #[trigger] r.spec_shape()[i] == overlap_extent(
                    self.spec_start()[i],
                    self.spec_shape()[i],
                    0,
                    array_shape@[i],
                ),
            subset_within(r.spec_start(), r.spec_shape(), array_shape@) || !(forall|i: int|
                0 <= i < array_shape@.len() ==> #[trigger] self.spec_start()[i]
                    <= array_shape@[i]),
    {
        let dim = self.start.len();
        let mut shape: Vec<u64> = Vec::new();
        let mut i: usize = 0;
        while i < dim
            invariant
                0 <= i <= dim,
                dim == self.spec_start().len() == self.spec_shape().len(),
                dim == array_shape@.len(),
                self.end_fits(),
                shape@.len() == i,
                forall|j: int|
                    0 <= j < i ==> #[trigger] shape@[j] == overlap_extent(
                        self.spec_start()[j],
                        self.spec_shape()[j],
                        0,
                        array_shape@[j],
                    ),
                forall|j: int|
                    0 <= j < i ==> #[trigger] shape@[j] + self.spec_start()[j] <= u64::MAX,
                forall|j: int|
                    0 <= j < i ==> self.spec_start()[j] <= array_shape@[j]
                        ==> #[trigger] shape@[j] + self.spec_start()[j] <= array_shape@[j],
            decreases dim - i,
        {
            let s = self.start[i];
            let e = self.start[i] + self.shape[i];
            let b = array_shape[i];
            let e_clipped = if e < b {
                e
            } else {
                b
            };
            if e_clipped > s {
                shape.push(e_clipped - s);
            } else {
                shape.push(0);
            }
            i = i + 1;
        }
        Self { start: self.start.clone(), shape }
    }

    /// Whether the subset lies within an array of shape `array_shape`,
    /// checked without overflow.
    pub fn contained_in(&self, array_shape: &[u64]) -> (r: bool)
        requires
            self.wf(),
        ensures
            r == subset_within(self.spec_start(), self.spec_shape(), array_shape@),
    {
        if array_shape.len() != self.start.len() {
            return false;
        }
        let dim = self.start.len();
        let mut i: usize = 0;
        while i < dim
            invariant
                0 <= i <= dim,
                dim == self.spec_start().len() == self.spec_shape().len(),
                dim == array_shape@.len(),
                forall|j: int|
                    0 <= j < i ==> #[trigger] self.spec_start()[j] + self.spec_shape()[j]
                        <= array_shape@[j],
            decreases dim - i,
        {
            if array_shape[i] < self.start[i] || self.shape[i] > array_shape[i] - self.start[i] {
                return false;
            }
            i = i + 1;
        }
        true
    }

    /// Whether the subset lies within an array of shape `array_shape`.
    pub fn inbounds(&self, array_shape: &[u64]) -> (r: bool)
        requires
            self.wf(),
            self.end_fits(),
        ensures
            r == subset_within(self.spec_start(), self.spec_shape(), array_shape@),
    {
        if array_shape.len() != self.start.len() {
            return false;
        }
        let dim = self.start.len();
        let mut i: usize = 0;
        while i < dim
            invariant
                0 <= i <= dim,
                dim == self.spec_start().len() == self.spec_shape().len(),
                dim == array_shape@.len(),
                self.end_fits(),
                forall|j: int|
                    0 <= j < i ==> #[trigger] self.spec_start()[j] + self.spec_shape()[j]
                        <= array_shape@[j],
            decreases dim - i,
        {
            if self.start[i] + self.shape[i] > array_shape[i] {
                return false;
            }
            i = i + 1;
        }
        true
    }
}

/// The larger of two values.
pub open spec fn max_u64(a: u64, b: u64) -> u64 {
    if a > b {
        a
    } else {
        b
    }
}

/// The extent of the per-axis overlap of `[s1, s1+l1)` and `[s2, s2+l2)`.
pub open spec fn overlap_extent(s1: u64, l1: u64, s2: u64, l2: u64) -> u64 {
    let s = max_u64(s1, s2);
    let e = if s1 + l1 < s2 + l2 {
        s1 + l1
    } else {
        s2 + l2
    };
    if e > s {
        (e - s) as u64
    } else {
        0
    }
}

/// A zero appears in the shape if the product of a suffix is zero.
proof fn lemma_zero_in_shape(shape: Seq<u64>, from: int)
    requires
        0 <= from <= shape.len(),
        shape_product(shape.skip(from)) == 0,
    ensures
        shape_product(shape) == 0,
{
    lemma_shape_product_split(shape, from);
    assert(shape_product(shape.take(from)) * 0 == 0) by (nonlinear_arith);
}

impl ArraySubset {
    /// Extract the bytes of this subset out of the row-major bytes of an
    /// array of shape `array_shape` with `element_size` bytes per element.
    ///
    /// The result holds the subset's elements in row-major subset order.
    pub fn extract_bytes(&self, src: &[u8], array_shape: &[u64], element_size: usize) -> (r: Vec<
        u8,
    >)
        requires
            self.wf(),
            subset_within(self.spec_start(), self.spec_shape(), array_shape@),
            element_size >= 1,
            src@.len() == shape_product(array_shape@) * element_size,
            self.spec_num_elements() * element_size <= usize::MAX,
        ensures
            r@ == extracted_bytes(
                src@,
                self.spec_start(),
                self.spec_shape(),
                array_shape@,
                element_size as nat,
            ),
    {
        let ghost gstart = self.spec_start();
        let ghost gshape = self.spec_shape();
        let ghost gparent = array_shape@;
        let ghost esz = element_size as nat;
        let ghost ext = extracted_bytes(src@, gstart, gshape, gparent, esz);
        let src_len: usize = src.len();
        let d: usize = self.shape.len();
        if d == 0 {
            let mut out: Vec<u8> = Vec::new();
            let mut b: usize = 0;
            proof {
                assert(gshape =~= Seq::<u64>::empty());
                assert(shape_product(gshape) == 1);
                assert(1 * esz == esz) by (nonlinear_arith);
                assert(shape_product(gparent) >= 1);
                assert(shape_product(gparent) * esz >= 1 * esz) by (nonlinear_arith)
                    requires
                        shape_product(gparent) >= 1,
                ;
                assert(coords_add(gstart, delinearise(0, gshape)) =~= Seq::<u64>::empty());
                assert(source_index(gstart, gshape, gparent, 0) == 0);
                assert forall|p: int| 0 <= p < esz implies #[trigger] ext[p] == src@[p] by {
                    assert(p / (esz as int) == 0 && p % (esz as int) == p) by (nonlinear_arith)
                        requires
                            0 <= p < esz,
                    ;
                    assert(0 * esz + p == p) by (nonlinear_arith);
                }
            }
            while b < element_size
                invariant
                    0 <= b <= element_size,
                    esz == element_size,
                    out@.len() == b,
                    src@.len() >= esz,
                    ext.len() == esz,
                    forall|p: int| 0 <= p < b ==> #[trigger] out@[p] == ext[p],
                    forall|p: int| 0 <= p < esz ==> #[trigger] ext[p] == src@[p],
                decreases element_size - b,
            {
                out.push(src[b]);
                b = b + 1;
            }
            proof {
                assert(out@ =~= ext);
            }
            return out;
        }
        if self.is_empty() {
            proof {
                let i = choose|i: int|
                    0 <= i < gshape.len() && #[trigger] gshape[i] == 0;
                lemma_axis_zero_product(gshape, i);
                assert(0 * esz == 0) by (nonlinear_arith);
                assert(Seq::<u8>::empty() =~= ext);
            }
            return Vec::new();
        }
        proof {
            assert forall|i: int| 0 <= i < gshape.len() implies #[trigger] gshape[i] > 0 by {
                assert(!(exists|j: int| 0 <= j < gshape.len() && #[trigger] gshape[j] == 0));
            }
        }
        let ghost gprefix = gshape.drop_last();
        let ghost gl = gshape.last() as nat;
        proof {
            assert(shape_positive(gprefix));
            assert(shape_product(gshape) == shape_product(gprefix) * gl);
            lemma_shape_product_positive(gprefix);
            lemma_shape_product_positive(gshape);
            // the subset and parent products fit
            assert(shape_product(gshape) <= shape_product(gshape) * esz) by (nonlinear_arith)
                requires
                    esz >= 1,
                    shape_product(gshape) >= 0,
            ;
            assert(shape_product(gparent) <= shape_product(gparent) * esz) by (nonlinear_arith)
                requires
                    esz >= 1,
                    shape_product(gparent) >= 0,
            ;
            assert(shape_product(gprefix) <= shape_product(gshape)) by (nonlinear_arith)
                requires
                    shape_product(gshape) == shape_product(gprefix) * gl,
                    gl >= 1,
                    shape_product(gprefix) >= 0,
            ;
            assert(gl <= shape_product(gshape)) by (nonlinear_arith)
                requires
                    shape_product(gshape) == shape_product(gprefix) * gl,
                    shape_product(gprefix) >= 1,
                    gl >= 0,
            ;
        }
        proof {
            assert(gl * esz <= shape_product(gshape) * esz) by (nonlinear_arith)
                requires
                    gl <= shape_product(gshape),
                    esz >= 0,
            ;
        }
        let rows: u64 = crate::indexing::num_elements_of(&self.shape.as_slice()[0..d - 1]);
        let last_len: u64 = self.shape[d - 1];
        let row_bytes: usize = (last_len as usize) * element_size;
        let mut out: Vec<u8> = Vec::new();
        let mut ri: u64 = 0;
        while ri < rows
            invariant
                0 <= ri <= rows,
                self.wf(),
                subset_within(gstart, gshape, gparent),
                gstart == self.spec_start(),
                gshape == self.spec_shape(),
                gparent == array_shape@,
                esz == element_size,
                esz >= 1,
                d == gshape.len(),
                d >= 1,
                shape_positive(gshape),
                gprefix == gshape.drop_last(),
                gl == gshape.last() as nat,
                rows == shape_product(gprefix),
                last_len == gshape.last(),
                row_bytes == gl * esz,
                src@.len() == shape_product(gparent) * esz,
                src@.len() == src_len,
                shape_product(gshape) * esz <= usize::MAX,
                shape_product(gshape) == shape_product(gprefix) * gl,
                ext == extracted_bytes(src@, gstart, gshape, gparent, esz),
                ext.len() == shape_product(gshape) * esz,
                out@.len() == (ri as nat) * gl * esz,
                forall|p: int| 0 <= p < out@.len() ==> #[trigger] out@[p] == ext[p],
            decreases rows - ri,
        {
            proof {
                // the byte length of the rows written so far stays within range
                assert((ri as nat) * gl * esz <= shape_product(gprefix) * gl * esz)
                    by (nonlinear_arith)
                    requires
                        (ri as nat) <= shape_product(gprefix),
                        gl >= 0,
                        esz >= 0,
                ;
                lemma_row_decomposition(gstart, gshape, gparent, ri as nat, 0);
            }
            let prefix = unravel_index(ri, &self.shape.as_slice()[0..d - 1]);
            let mut coords: Vec<u64> = Vec::new();
            let mut ci: usize = 0;
            proof {
                assert(prefix@ == delinearise(ri as nat, gprefix));
                lemma_delinearise_in_bounds(ri as nat, gprefix);
                assert(coords_add(gstart, delinearise((ri as nat) * gl, gshape)) =~= Seq::new(
                    d as nat,
                    |i: int|
                        if i < d - 1 {
                            (gstart[i] + prefix@[i]) as u64
                        } else {
                            gstart[i]
                        },
                ));
            }
            let ghost gcoords = coords_add(gstart, delinearise((ri as nat) * gl, gshape));
            while ci < d - 1
                invariant
                    0 <= ci <= d - 1,
                    d == gshape.len(),
                    d == gstart.len(),
                    gstart == self.spec_start(),
                    prefix@.len() == d - 1,
                    indices_in_bounds(prefix@, gshape.drop_last()),
                    subset_within(gstart, gshape, gparent),
                    gcoords.len() == d,
                    forall|i: int|
                        0 <= i < d - 1 ==> #[trigger] gcoords[i] == (gstart[i] + prefix@[i]) as u64,
                    forall|i: int|
                        0 <= i < d - 1 ==> #[trigger] prefix@[i] < gshape[i],
                    coords@ =~= gcoords.take(ci as int),
                decreases d - 1 - ci,
            {
                proof {
                    assert(prefix@[ci as int] < gshape.drop_last()[ci as int]);
                    assert(gstart[ci as int] + gshape[ci as int] <= gparent[ci as int]);
                }
                coords.push(self.start[ci] + prefix[ci]);
                proof {
                    assert(coords@ =~= gcoords.take(ci + 1));
                }
                ci = ci + 1;
            }
            coords.push(self.start[d - 1]);
            proof {
                assert(coords@ =~= gcoords);
            }
            proof {
                // the parent product fits in u64 for ravelling
                assert(shape_product(gparent) <= shape_product(gparent) * esz)
                    by (nonlinear_arith)
                    requires
                        esz >= 1,
                        shape_product(gparent) >= 0,
                ;
            }
            let base: u64 = ravel_indices(coords.as_slice(), array_shape);
            proof {
                assert(base == source_index(gstart, gshape, gparent, (ri as nat) * gl));
                assert(shape_product(gparent) <= src@.len());
                // the whole row lies within the parent buffer
                lemma_row_decomposition(gstart, gshape, gparent, ri as nat, (gl - 1) as nat);
                assert((base + gl - 1) * esz + esz <= shape_product(gparent) * esz)
                    by (nonlinear_arith)
                    requires
                        base + gl - 1 < shape_product(gparent),
                        esz >= 1,
                ;
                assert((base as nat) * esz + gl * esz == (base + gl - 1) * esz + esz)
                    by (nonlinear_arith);
                assert((base as nat) * esz + gl * esz <= src@.len());
                assert((base as nat) <= (base as nat) * esz) by (nonlinear_arith)
                    requires
                        esz >= 1,
                ;
                assert(gl <= gl * esz) by (nonlinear_arith)
                    requires
                        esz >= 1,
                ;
            }
            let src_off: usize = (base as usize) * element_size;
            let ghost row_start: int = out@.len() as int;
            let mut q: u64 = 0;
            while q < last_len
                invariant
                    0 <= q <= last_len,
                    self.wf(),
                    gstart == self.spec_start(),
                    gshape == self.spec_shape(),
                    subset_within(gstart, gshape, gparent),
                    esz == element_size,
                    esz >= 1,
                    d == gshape.len(),
                    d >= 1,
                    shape_positive(gshape),
                    gprefix == gshape.drop_last(),
                    gl == gshape.last() as nat,
                    last_len == gshape.last(),
                    ri < shape_product(gprefix),
                    src@.len() == shape_product(gparent) * esz,
                    src@.len() == src_len,
                    ext == extracted_bytes(src@, gstart, gshape, gparent, esz),
                    ext.len() == shape_product(gshape) * esz,
                    ext.len() <= usize::MAX,
                    base == source_index(gstart, gshape, gparent, (ri as nat) * gl),
                    src_off == (base as nat) * esz,
                    src_off + gl * esz <= src@.len(),
                    row_start == (ri as nat) * gl * esz,
                    out@.len() == row_start + (q as nat) * esz,
                    forall|p: int| 0 <= p < out@.len() ==> #[trigger] out@[p] == ext[p],
                decreases last_len - q,
            {
                proof {
                    lemma_row_decomposition(gstart, gshape, gparent, ri as nat, q as nat);
                    lemma_subset_byte_forward(
                        gstart,
                        gshape,
                        gparent,
                        esz,
                        (ri as nat) * gl + (q as nat),
                        0,
                    );
                    assert((q as nat) * esz + esz <= gl * esz) by (nonlinear_arith)
                        requires
                            (q as nat) < gl,
                            esz >= 1,
                    ;
                    assert((q as nat) <= (q as nat) * esz + esz) by (nonlinear_arith)
                        requires
                            esz >= 1,
                    ;
                }
                let elem_off: usize = src_off + (q as usize) * element_size;
                let mut b: usize = 0;
                while b < element_size
                    invariant
                        0 <= b <= element_size,
                        self.wf(),
                        gstart == self.spec_start(),
                        gshape == self.spec_shape(),
                        subset_within(gstart, gshape, gparent),
                        esz == element_size,
                        esz >= 1,
                        d == gshape.len(),
                        d >= 1,
                        shape_positive(gshape),
                        gprefix == gshape.drop_last(),
                        gl == gshape.last() as nat,
                        ri < shape_product(gprefix),
                        q < gl,
                        src@.len() == shape_product(gparent) * esz,
                        src@.len() == src_len,
                        ext == extracted_bytes(src@, gstart, gshape, gparent, esz),
                        ext.len() == shape_product(gshape) * esz,
                        ext.len() <= usize::MAX,
                        base == source_index(gstart, gshape, gparent, (ri as nat) * gl),
                        source_index(gstart, gshape, gparent, (ri as nat) * gl + (q as nat)) == (
                        base as nat) + (q as nat),
                        (ri as nat) * gl + (q as nat) < shape_product(gshape),
                        src_off == (base as nat) * esz,
                        src_off + gl * esz <= src@.len(),
                        elem_off == src_off + (q as nat) * esz,
                        elem_off + esz <= src@.len(),
                        row_start == (ri as nat) * gl * esz,
                        out@.len() == row_start + (q as nat) * esz + b,
                        forall|p: int| 0 <= p < out@.len() ==> #[trigger] out@[p] == ext[p],
                    decreases element_size - b,
                {
                    proof {
                        let k = (ri as nat) * gl + (q as nat);
                        lemma_subset_byte_forward(gstart, gshape, gparent, esz, k, b as nat);
                        let gp: int = row_start + (q as nat) * esz + b;
                        // gp is the byte index in subset order: gp == k * esz + b
                        assert(gp == k * esz + b) by (nonlinear_arith)
                            requires
                                row_start == (ri as nat) * gl * esz,
                                k == (ri as nat) * gl + (q as nat),
                                gp == row_start + (q as nat) * esz + b,
                        ;
                        assert(gp < ext.len()) by (nonlinear_arith)
                            requires
                                gp == k * esz + b,
                                k < shape_product(gshape),
                                0 <= b < esz,
                                ext.len() == shape_product(gshape) * esz,
                        ;
                        vstd::arithmetic::div_mod::lemma_fundamental_div_mod_converse(
                            gp,
                            esz as int,
                            k as int,
                            b as int,
                        );
                        // the byte read from the parent buffer is the one the
                        // specification demands
                        assert(((base as nat) + (q as nat)) * esz + b == elem_off + b)
                            by (nonlinear_arith)
                            requires
                                elem_off == (base as nat) * esz + (q as nat) * esz,
                        ;
                        assert(ext[gp] == src@[elem_off + b]);
                    }
                    out.push(src[elem_off + b]);
                    b = b + 1;
                }
                q = q + 1;
                proof {
                    assert((q as nat) * esz == ((q - 1) as nat) * esz + esz) by (nonlinear_arith)
                        requires
                            q >= 1,
                    ;
                }
            }
            ri = ri + 1;
            proof {
                assert((ri as nat) * gl * esz == ((ri - 1) as nat) * gl * esz + gl * esz)
                    by (nonlinear_arith)
                    requires
                        ri >= 1,
                ;
            }
        }
        proof {
            assert(out@.len() == shape_product(gprefix) * gl * esz);
            assert(shape_product(gprefix) * gl * esz == (shape_product(gprefix) * gl) * esz)
                by (nonlinear_arith);
            assert(out@ =~= ext);
        }
        out
    }
}

/// A byte position of the parent buffer lies in the subset with relative
/// linear element index below `bound`.
spec fn splice_covered(
    start: Seq<u64>,
    shape: Seq<u64>,
    parent: Seq<u64>,
    esize: nat,
    bound: nat,
    p: int,
) -> bool {
    let coords = delinearise((p / esize as int) as nat, parent);
    subset_contains(start, shape, coords) && linearise(coords_sub(coords, start), shape) < bound
}

impl ArraySubset {
    /// Splice the row-major subset bytes `src` into the row-major bytes `dst`
    /// of an array of shape `array_shape` with `element_size` bytes per
    /// element.
    ///
    /// Positions inside the subset take the corresponding byte of `src`; all
    /// other positions are unchanged.
    pub fn splice_bytes(
        &self,
        dst: &mut Vec<u8>,
        src: &[u8],
        array_shape: &[u64],
        element_size: usize,
    )
        requires
            self.wf(),
            subset_within(self.spec_start(), self.spec_shape(), array_shape@),
            element_size >= 1,
            old(dst)@.len() == shape_product(array_shape@) * element_size,
            src@.len() == self.spec_num_elements() * element_size,
        ensures
            final(dst)@ == spliced_bytes(
                old(dst)@,
                src@,
                self.spec_start(),
                self.spec_shape(),
                array_shape@,
                element_size as nat,
            ),
    {
        let ghost gstart = self.spec_start();
        let ghost gshape = self.spec_shape();
        let ghost gparent = array_shape@;
        let ghost esz = element_size as nat;
        let ghost old_dst = old(dst)@;
        let ghost spl = spliced_bytes(old_dst, src@, gstart, gshape, gparent, esz);
        let dst_len: usize = dst.len();
        let src_len: usize = src.len();
        let d: usize = self.shape.len();
        if d == 0 {
            // a single element at the origin: overwrite the whole buffer
            proof {
                assert(gshape =~= Seq::<u64>::empty());
                assert(shape_product(gshape) == 1);
                assert(1 * esz == esz) by (nonlinear_arith);
                assert(gparent =~= Seq::<u64>::empty());
                assert(shape_product(gparent) == 1);
            }
            let mut b: usize = 0;
            while b < element_size
                invariant
                    0 <= b <= element_size,
                    esz == element_size,
                    dst@.len() == old_dst.len() == esz,
                    src@.len() == esz,
                    forall|p: int| 0 <= p < b ==> #[trigger] dst@[p] == src@[p],
                    forall|p: int| b <= p < esz ==> #[trigger] dst@[p] == old_dst[p],
                decreases element_size - b,
            {
                dst[b] = src[b];
                b = b + 1;
            }
            proof {
                assert forall|p: int| 0 <= p < esz implies #[trigger] spl[p] == src@[p] by {
                    assert(p / (esz as int) == 0 && p % (esz as int) == p) by (nonlinear_arith)
                        requires
                            0 <= p < esz,
                    ;
                    assert(delinearise(0, gparent) =~= Seq::<u64>::empty());
                    assert(subset_contains(gstart, gshape, Seq::<u64>::empty()));
                    assert(coords_sub(Seq::<u64>::empty(), gstart) =~= Seq::<u64>::empty());
                    assert(linearise(Seq::<u64>::empty(), gshape) == 0);
                    assert(0 * esz + p == p) by (nonlinear_arith);
                }
                assert(dst@ =~= spl);
            }
            return ;
        }
        if self.is_empty() {
            proof {
                assert forall|p: int| 0 <= p < old_dst.len() implies #[trigger] spl[p]
                    == old_dst[p] by {
                    let i = choose|i: int|
                        0 <= i < gshape.len() && #[trigger] gshape[i] == 0;
                    let coords = delinearise((p / esz as int) as nat, gparent);
                    if subset_contains(gstart, gshape, coords) {
                        assert(gstart[i] <= coords[i] && coords[i] < gstart[i] + gshape[i]);
                    }
                }
                assert(dst@ =~= spl);
            }
            return ;
        }
        proof {
            assert forall|i: int| 0 <= i < gshape.len() implies #[trigger] gshape[i] > 0 by {
                assert(!(exists|j: int| 0 <= j < gshape.len() && #[trigger] gshape[j] == 0));
            }
        }
        let ghost gprefix = gshape.drop_last();
        let ghost gl = gshape.last() as nat;
        proof {
            assert(shape_positive(gprefix));
            assert(shape_product(gshape) == shape_product(gprefix) * gl);
            lemma_shape_product_positive(gprefix);
            lemma_shape_product_positive(gshape);
            assert(shape_product(gshape) <= shape_product(gshape) * esz) by (nonlinear_arith)
                requires
                    esz >= 1,
                    shape_product(gshape) >= 0,
            ;
            assert(shape_product(gparent) <= shape_product(gparent) * esz) by (nonlinear_arith)
                requires
                    esz >= 1,
                    shape_product(gparent) >= 0,
            ;
            assert(shape_product(gprefix) <= shape_product(gshape)) by (nonlinear_arith)
                requires
                    shape_product(gshape) == shape_product(gprefix) * gl,
                    gl >= 1,
                    shape_product(gprefix) >= 0,
            ;
            assert(gl <= shape_product(gshape)) by (nonlinear_arith)
                requires
                    shape_product(gshape) == shape_product(gprefix) * gl,
                    shape_product(gprefix) >= 1,
                    gl >= 0,
            ;
            assert(gl * esz <= shape_product(gshape) * esz) by (nonlinear_arith)
                requires
                    gl <= shape_product(gshape),
                    esz >= 0,
            ;
        }
        let rows: u64 = crate::indexing::num_elements_of(&self.shape.as_slice()[0..d - 1]);
        let last_len: u64 = self.shape[d - 1];
        let row_bytes: usize = (last_len as usize) * element_size;
        let mut ri: u64 = 0;
        while ri < rows
            invariant
                0 <= ri <= rows,
                self.wf(),
                subset_within(gstart, gshape, gparent),
                gstart == self.spec_start(),
                gshape == self.spec_shape(),
                gparent == array_shape@,
                esz == element_size,
                esz >= 1,
                d == gshape.len(),
                d >= 1,
                shape_positive(gshape),
                gprefix == gshape.drop_last(),
                gl == gshape.last() as nat,
                rows == shape_product(gprefix),
                last_len == gshape.last(),
                row_bytes == gl * esz,
                old_dst.len() == shape_product(gparent) * esz,
                src@.len() == shape_product(gshape) * esz,
                src@.len() == src_len,
                dst@.len() == old_dst.len(),
                dst@.len() == dst_len,
                shape_product(gshape) == shape_product(gprefix) * gl,
                spl == spliced_bytes(old_dst, src@, gstart, gshape, gparent, esz),
                spl.len() == old_dst.len(),
                forall|p: int|
                    0 <= p < dst@.len() ==> #[trigger] dst@[p] == (if splice_covered(
                        gstart,
                        gshape,
                        gparent,
                        esz,
                        (ri as nat) * gl,
                        p,
                    ) {
                        spl[p]
                    } else {
                        old_dst[p]
                    }),
            decreases rows - ri,
        {
            proof {
                lemma_row_decomposition(gstart, gshape, gparent, ri as nat, 0);
            }
            let prefix = unravel_index(ri, &self.shape.as_slice()[0..d - 1]);
            let mut coords: Vec<u64> = Vec::new();
            let mut ci: usize = 0;
            proof {
                assert(prefix@ == delinearise(ri as nat, gprefix));
                lemma_delinearise_in_bounds(ri as nat, gprefix);
                assert(coords_add(gstart, delinearise((ri as nat) * gl, gshape)) =~= Seq::new(
                    d as nat,
                    |i: int|
                        if i < d - 1 {
                            (gstart[i] + prefix@[i]) as u64
                        } else {
                            gstart[i]
                        },
                ));
            }
            let ghost gcoords = coords_add(gstart, delinearise((ri as nat) * gl, gshape));
            while ci < d - 1
                invariant
                    0 <= ci <= d - 1,
                    d == gshape.len(),
                    d == gstart.len(),
                    gstart == self.spec_start(),
                    prefix@.len() == d - 1,
                    indices_in_bounds(prefix@, gshape.drop_last()),
                    subset_within(gstart, gshape, gparent),
                    gcoords.len() == d,
                    forall|i: int|
                        0 <= i < d - 1 ==> #[trigger] gcoords[i] == (gstart[i] + prefix@[i]) as u64,
                    forall|i: int| 0 <= i < d - 1 ==> #[trigger] prefix@[i] < gshape[i],
                    coords@ =~= gcoords.take(ci as int),
                decreases d - 1 - ci,
            {
                proof {
                    assert(prefix@[ci as int] < gshape.drop_last()[ci as int]);
                    assert(gstart[ci as int] + gshape[ci as int] <= gparent[ci as int]);
                }
                coords.push(self.start[ci] + prefix[ci]);
                proof {
                    assert(coords@ =~= gcoords.take(ci + 1));
                }
                ci = ci + 1;
            }
            coords.push(self.start[d - 1]);
            proof {
                assert(coords@ =~= gcoords);
                assert(shape_product(gparent) <= shape_product(gparent) * esz)
                    by (nonlinear_arith)
                    requires
                        esz >= 1,
                        shape_product(gparent) >= 0,
                ;
                assert(shape_product(gparent) <= old_dst.len());
            }
            let base: u64 = ravel_indices(coords.as_slice(), array_shape);
            let ghost dst_at_row: Seq<u8> = dst@;
            proof {
                assert(base == source_index(gstart, gshape, gparent, (ri as nat) * gl));
                lemma_row_decomposition(gstart, gshape, gparent, ri as nat, (gl - 1) as nat);
                assert((base + gl - 1) * esz + esz <= shape_product(gparent) * esz)
                    by (nonlinear_arith)
                    requires
                        base + gl - 1 < shape_product(gparent),
                        esz >= 1,
                ;
                assert((base as nat) * esz + gl * esz == (base + gl - 1) * esz + esz)
                    by (nonlinear_arith);
                assert((base as nat) * esz + gl * esz <= old_dst.len());
                assert((base as nat) <= (base as nat) * esz) by (nonlinear_arith)
                    requires
                        esz >= 1,
                ;
                assert(gl <= gl * esz) by (nonlinear_arith)
                    requires
                        esz >= 1,
                ;
                // the bytes of row `ri` of the subset lie within `src`
                assert(((ri as nat) * gl + gl) * esz <= shape_product(gshape) * esz)
                    by (nonlinear_arith)
                    requires
                        (ri as nat) < shape_product(gprefix),
                        shape_product(gshape) == shape_product(gprefix) * gl,
                        esz >= 1,
                        gl >= 1,
                ;
                assert((ri as nat) * gl * esz + gl * esz == ((ri as nat) * gl + gl) * esz)
                    by (nonlinear_arith);
            }
            proof {
                assert((ri as nat) * gl <= shape_product(gshape)) by (nonlinear_arith)
                    requires
                        (ri as nat) < shape_product(gprefix),
                        shape_product(gshape) == shape_product(gprefix) * gl,
                        gl >= 1,
                ;
                assert((ri as nat) * gl * esz <= shape_product(gshape) * esz)
                    by (nonlinear_arith)
                    requires
                        (ri as nat) * gl <= shape_product(gshape),
                        esz >= 0,
                ;
                assert((ri as nat) <= (ri as nat) * gl) by (nonlinear_arith)
                    requires
                        gl >= 1,
                ;
                assert((ri as nat) * gl <= (ri as nat) * gl * esz) by (nonlinear_arith)
                    requires
                        esz >= 1,
                ;
                assert((ri as nat) * gl * esz == ((ri as nat) * gl) * esz) by (nonlinear_arith);
            }
            let dst_off: usize = (base as usize) * element_size;
            let src_row_off: usize = ((ri as usize) * (last_len as usize)) * element_size;
            let mut q: u64 = 0;
            while q < last_len
                invariant
                    0 <= q <= last_len,
                    esz == element_size,
                    esz >= 1,
                    d == gshape.len(),
                    d >= 1,
                    gstart == self.spec_start(),
                    gshape == self.spec_shape(),
                    subset_within(gstart, gshape, gparent),
                    shape_positive(gshape),
                    gprefix == gshape.drop_last(),
                    gl == gshape.last() as nat,
                    last_len == gshape.last(),
                    ri < shape_product(gprefix),
                    old_dst.len() == shape_product(gparent) * esz,
                    src@.len() == shape_product(gshape) * esz,
                    src@.len() == src_len,
                    dst@.len() == old_dst.len(),
                    dst@.len() == dst_len,
                    base == source_index(gstart, gshape, gparent, (ri as nat) * gl),
                    dst_off == (base as nat) * esz,
                    dst_off + gl * esz <= dst@.len(),
                    src_row_off == (ri as nat) * gl * esz,
                    src_row_off + gl * esz <= src@.len(),
                    dst_at_row.len() == dst@.len(),
                    forall|u: int|
                        0 <= u < (q as nat) * esz ==> #[trigger] dst@[dst_off + u] == src@[
                            src_row_off + u
                        ],
                    forall|p: int|
                        0 <= p < dst@.len() && !(dst_off <= p < dst_off + (q as nat) * esz)
                            ==> #[trigger] dst@[p] == dst_at_row[p],
                decreases last_len - q,
            {
                proof {
                    assert((q as nat) * esz + esz <= gl * esz) by (nonlinear_arith)
                        requires
                            (q as nat) < gl,
                            esz >= 1,
                    ;
                    assert((q as nat) <= (q as nat) * esz) by (nonlinear_arith)
                        requires
                            esz >= 1,
                    ;
                }
                let elem_dst: usize = dst_off + (q as usize) * element_size;
                let elem_src: usize = src_row_off + (q as usize) * element_size;
                let mut b: usize = 0;
                while b < element_size
                    invariant
                        0 <= b <= element_size,
                        esz == element_size,
                        esz >= 1,
                        q < last_len,
                        gl == gshape.last() as nat,
                        last_len == gshape.last(),
                        dst@.len() == old_dst.len(),
                        dst@.len() == dst_len,
                        dst_at_row.len() == dst@.len(),
                        src@.len() == src_len,
                        dst_off + gl * esz <= dst@.len(),
                        src_row_off + gl * esz <= src@.len(),
                        elem_dst == dst_off + (q as nat) * esz,
                        elem_src == src_row_off + (q as nat) * esz,
                        (q as nat) * esz + esz <= gl * esz,
                        forall|u: int|
                            0 <= u < (q as nat) * esz + b ==> #[trigger] dst@[dst_off + u] == src@[
                                src_row_off + u
                            ],
                        forall|p: int|
                            0 <= p < dst@.len() && !(dst_off <= p < dst_off + (q as nat) * esz + b)
                                ==> #[trigger] dst@[p] == dst_at_row[p],
                    decreases element_size - b,
                {
                    dst[elem_dst + b] = src[elem_src + b];
                    proof {
                        assert(elem_dst + b == dst_off + ((q as nat) * esz + b));
                        assert(elem_src + b == src_row_off + ((q as nat) * esz + b));
                        assert forall|u: int|
                            0 <= u < (q as nat) * esz + b + 1 implies #[trigger] dst@[dst_off + u]
                            == src@[src_row_off + u] by {}
                    }
                    b = b + 1;
                }
                q = q + 1;
                proof {
                    assert((q as nat) * esz == ((q - 1) as nat) * esz + esz) by (nonlinear_arith)
                        requires
                            q >= 1,
                    ;
                }
            }
            let ghost ri_old = ri as nat;
            ri = ri + 1;
            proof {
                // re-establish the outer invariant with the enlarged bound
                let bound_new = (ri as nat) * gl;
                let bound_old = ri_old * gl;
                assert(ri as nat == ri_old + 1);
                assert((ri_old + 1) * gl == ri_old * gl + gl) by (nonlinear_arith);
                assert(bound_new == bound_old + gl);
                assert forall|p: int| 0 <= p < dst@.len() implies #[trigger] dst@[p] == (
                if splice_covered(gstart, gshape, gparent, esz, bound_new, p) {
                    spl[p]
                } else {
                    old_dst[p]
                }) by {
                    if dst_off <= p < dst_off + gl * esz {
                        // a byte written by this row
                        let u = p - dst_off;
                        let qq = u / (esz as int);
                        let bb = u % (esz as int);
                        vstd::arithmetic::div_mod::lemma_fundamental_div_mod(u, esz as int);
                        vstd::arithmetic::div_mod::lemma_mod_bound(u, esz as int);
                        assert(0 <= qq < gl) by (nonlinear_arith)
                            requires
                                0 <= u < gl * esz,
                                esz >= 1,
                                u == (esz as int) * qq + bb,
                                0 <= bb < esz,
                        ;
                        let k = bound_old + qq;
                        lemma_row_decomposition(gstart, gshape, gparent, ri_old, qq as nat);
                        lemma_subset_byte_forward(gstart, gshape, gparent, esz, k as nat, bb as nat);
                        assert(p == (base + qq) * esz + bb) by (nonlinear_arith)
                            requires
                                p == dst_off + u,
                                dst_off == (base as nat) * esz,
                                u == (esz as int) * qq + bb,
                        ;
                        assert(source_index(gstart, gshape, gparent, k as nat) == base + qq);
                        // hence the spliced byte at p is the row byte written
                        assert(spl[p] == src@[k * esz + bb]);
                        assert(k * esz + bb == src_row_off + u) by (nonlinear_arith)
                            requires
                                k == bound_old + qq,
                                src_row_off == bound_old * esz,
                                u == (esz as int) * qq + bb,
                        ;
                        assert(dst@[dst_off + u] == src@[src_row_off + u]);
                        assert(dst@[p] == src@[src_row_off + u]);
                    } else {
                        // untouched this row: only newly covered positions would
                        // lie inside the row's byte range
                        if splice_covered(gstart, gshape, gparent, esz, bound_new, p)
                            && !splice_covered(gstart, gshape, gparent, esz, bound_old, p) {
                            lemma_subset_byte_backward(gstart, gshape, gparent, esz, p);
                            let coords = delinearise((p / esz as int) as nat, gparent);
                            let k = linearise(coords_sub(coords, gstart), gshape);
                            assert(bound_old <= k < bound_new);
                            lemma_row_decomposition(
                                gstart,
                                gshape,
                                gparent,
                                ri_old,
                                (k - bound_old) as nat,
                            );
                            assert(source_index(gstart, gshape, gparent, k) == base + (k
                                - bound_old));
                            assert(p == (base + (k - bound_old)) * esz + (p % (esz as int)));
                            assert(dst_off <= p < dst_off + gl * esz) by (nonlinear_arith)
                                requires
                                    p == (base + (k - bound_old)) * esz + (p % (esz as int)),
                                    dst_off == (base as nat) * esz,
                                    0 <= k - bound_old < gl,
                                    0 <= p % (esz as int) < esz,
                                    esz >= 1,
                            ;
                            assert(false);
                        }
                    }
                }
            }
        }
        proof {
            // after the last row every subset position is covered
            assert forall|p: int| 0 <= p < dst@.len() implies #[trigger] dst@[p] == spl[p] by {
                let coords = delinearise((p / esz as int) as nat, gparent);
                if subset_contains(gstart, gshape, coords) {
                    lemma_subset_byte_backward(gstart, gshape, gparent, esz, p);
                    assert(linearise(coords_sub(coords, gstart), gshape) < shape_product(gshape));
                    assert(shape_product(gprefix) * gl == (rows as nat) * gl);
                } else {
                    assert(spl[p] == old_dst[p]);
                }
            }
            assert(dst@ =~= spl);
        }
    }

    /// The coordinates of every element of the subset, in row-major order.
    pub fn indices(&self) -> (r: Vec<Vec<u64>>)
        requires
            self.wf(),
            self.end_fits(),
            self.spec_num_elements() <= usize::MAX,
        ensures
            r@.len() == self.spec_num_elements(),
            forall|k: int|
                0 <= k < r@.len() ==> #[trigger] r@[k]@ == coords_add(
                    self.spec_start(),
                    delinearise(k as nat, self.spec_shape()),
                ),
    {
        let ghost gstart = self.spec_start();
        let ghost gshape = self.spec_shape();
        if self.is_empty() {
            proof {
                let i = choose|i: int| 0 <= i < gshape.len() && #[trigger] gshape[i] == 0;
                lemma_axis_zero_product(gshape, i);
            }
            return Vec::new();
        }
        proof {
            assert forall|i: int| 0 <= i < gshape.len() implies #[trigger] gshape[i] > 0 by {
                assert(!(exists|j: int| 0 <= j < gshape.len() && #[trigger] gshape[j] == 0));
            }
        }
        let d: usize = self.shape.len();
        let n: u64 = crate::indexing::num_elements_of(self.shape.as_slice());
        let mut out: Vec<Vec<u64>> = Vec::new();
        let mut k: u64 = 0;
        while k < n
            invariant
                0 <= k <= n,
                d == gshape.len(),
                gstart == self.spec_start(),
                gshape == self.spec_shape(),
                gstart.len() == gshape.len(),
                self.end_fits(),
                shape_positive(gshape),
                n == shape_product(gshape),
                n <= usize::MAX,
                out@.len() == k as nat,
                forall|j: int|
                    0 <= j < k as int ==> #[trigger] out@[j]@ == coords_add(
                        gstart,
                        delinearise(j as nat, gshape),
                    ),
            decreases n - k,
        {
            let local = unravel_index(k, self.shape.as_slice());
            proof {
                lemma_delinearise_in_bounds(k as nat, gshape);
            }
            let mut coords: Vec<u64> = Vec::new();
            let mut i: usize = 0;
            while i < d
                invariant
                    0 <= i <= d,
                    d == gshape.len(),
                    gstart == self.spec_start(),
                    gshape == self.spec_shape(),
                    gstart.len() == gshape.len(),
                    self.end_fits(),
                    local@.len() == d,
                    indices_in_bounds(local@, gshape),
                    coords@ =~= coords_add(gstart, local@).take(i as int),
                decreases d - i,
            {
                proof {
                    assert(local@[i as int] < gshape[i as int]);
                    assert(gstart[i as int] + gshape[i as int] <= u64::MAX);
                }
                coords.push(self.start[i] + local[i]);
                proof {
                    assert(coords@ =~= coords_add(gstart, local@).take(i + 1));
                }
                i = i + 1;
            }
            proof {
                assert(coords@ =~= coords_add(gstart, local@));
            }
            out.push(coords);
            k = k + 1;
        }
        out
    }
}

/// Extracting a whole-array subset gives the buffer back.
pub proof fn lemma_whole_extract(v: Seq<u8>, shape: Seq<u64>, esize: nat)
    requires
        esize >= 1,
        v.len() == crate::indexing::shape_product(shape) * esize,
    ensures
        extracted_bytes(
            v,
            Seq::new(shape.len(), |i: int| 0u64),
            shape,
            shape,
            esize,
        ) =~= v,
{
    let zeros = Seq::new(shape.len(), |i: int| 0u64);
    let ext = extracted_bytes(v, zeros, shape, shape, esize);
    assert(ext.len() == v.len());
    assert forall|p: int| 0 <= p < ext.len() implies ext[p] == v[p] by {
        let e = esize as int;
        let k = (p / e) as nat;
        vstd::arithmetic::div_mod::lemma_fundamental_div_mod(p, e);
        vstd::arithmetic::div_mod::lemma_mod_bound(p, e);
        assert(0 <= p / e) by (nonlinear_arith)
            requires
                p >= 0,
                e >= 1,
        ;
        assert(k < crate::indexing::shape_product(shape)) by (nonlinear_arith)
            requires
                k == p / e,
                p < crate::indexing::shape_product(shape) * e,
                p == e * (p / e) + p % e,
                0 <= p % e < e,
                e >= 1,
        ;
        assert(crate::indexing::shape_positive(shape)) by {
            if !crate::indexing::shape_positive(shape) {
                let i = choose|i: int| 0 <= i < shape.len() && !((#[trigger] shape[i]) > 0);
                lemma_axis_zero_product(shape, i);
            }
        }
        crate::indexing::lemma_delinearise_in_bounds(k, shape);
        crate::indexing::lemma_linearise_delinearise(k, shape);
        assert(coords_add(zeros, crate::indexing::delinearise(k, shape))
            =~= crate::indexing::delinearise(k, shape));
        assert(source_index(zeros, shape, shape, k) == k);
        assert(ext[p] == v[k * e + (p % e)]);
        assert(k * e + p % e == p) by (nonlinear_arith)
            requires
                p == e * (p / e) + p % e,
                k == p / e,
        ;
    }
}

/// Splicing a whole-array subset replaces the buffer with the source.
pub proof fn lemma_whole_splice(dst: Seq<u8>, src: Seq<u8>, shape: Seq<u64>, esize: nat)
    requires
        esize >= 1,
        crate::indexing::shape_positive(shape),
        dst.len() == shape_product(shape) * esize,
        src.len() == shape_product(shape) * esize,
    ensures
        spliced_bytes(
            dst,
            src,
            Seq::new(shape.len(), |i: int| 0u64),
            shape,
            shape,
            esize,
        ) =~= src,
{
    let zeros = Seq::new(shape.len(), |i: int| 0u64);
    let spl = spliced_bytes(dst, src, zeros, shape, shape, esize);
    assert(spl.len() == src.len());
    assert forall|p: int| 0 <= p < spl.len() implies spl[p] == src[p] by {
        let e = esize as int;
        let k = (p / e) as nat;
        vstd::arithmetic::div_mod::lemma_fundamental_div_mod(p, e);
        vstd::arithmetic::div_mod::lemma_mod_bound(p, e);
        assert(0 <= p / e) by (nonlinear_arith)
            requires
                p >= 0,
                e >= 1,
        ;
        assert(k < shape_product(shape)) by (nonlinear_arith)
            requires
                k == p / e,
                p < shape_product(shape) * e,
                p == e * (p / e) + p % e,
                0 <= p % e < e,
                e >= 1,
        ;
        lemma_delinearise_in_bounds(k, shape);
        lemma_linearise_delinearise(k, shape);
        let coords = delinearise(k, shape);
        assert(subset_contains(zeros, shape, coords));
        assert(coords_sub(coords, zeros) =~= coords);
        assert(spl[p] == src[linearise(coords, shape) * esize + (p % e)]);
        assert(linearise(coords, shape) * e + p % e == p) by (nonlinear_arith)
            requires
                p == e * (p / e) + p % e,
                linearise(coords, shape) == k,
                k == p / e,
        ;
    }
}

/// A positive shape product means every axis is positive.
pub proof fn lemma_product_positive_axes(shape: Seq<u64>)
    requires
        shape_product(shape) > 0,
    ensures
        shape_positive(shape),
{
    assert forall|i: int| 0 <= i < shape.len() implies #[trigger] shape[i] > 0 by {
        if shape[i] == 0 {
            lemma_axis_zero_product(shape, i);
        }
    }
}

/// A zero axis makes the shape product zero.
pub proof fn lemma_axis_zero_product(shape: Seq<u64>, i: int)
    requires
        0 <= i < shape.len(),
        shape[i] == 0,
    ensures
        shape_product(shape) == 0,
{
    assert(shape.take(i + 1).drop_last() =~= shape.take(i));
    assert(shape.take(i + 1).last() == shape[i]);
    assert(shape_product(shape.take(i + 1)) == shape_product(shape.take(i)) * 0);
    assert(shape_product(shape.take(i)) * 0 == 0) by (nonlinear_arith);
    lemma_shape_product_split(shape, i + 1);
    assert(0 * shape_product(shape.skip(i + 1)) == 0) by (nonlinear_arith);
}

/// Decomposition of a subset element index into a row and a column.
///
/// The elements of row `r` of the subset (those with linear subset index in
/// `[r*L, (r+1)*L)` where `L` is the extent of the last axis) occupy
/// consecutive linear indices of the parent array.
pub proof fn lemma_row_decomposition(
    start: Seq<u64>,
    shape: Seq<u64>,
    parent: Seq<u64>,
    r: nat,
    q: nat,
)
    requires
        shape.len() >= 1,
        shape_positive(shape),
        subset_within(start, shape, parent),
        r < shape_product(shape.drop_last()),
        q < shape.last(),
    ensures
        r * (shape.last() as nat) + q < shape_product(shape),
        delinearise(r * (shape.last() as nat) + q, shape) == delinearise(
            r,
            shape.drop_last(),
        ).push(q as u64),
        indices_in_bounds(
            coords_add(start, delinearise(r * (shape.last() as nat) + q, shape)),
            parent,
        ),
        source_index(start, shape, parent, r * (shape.last() as nat) + q) == source_index(
            start,
            shape,
            parent,
            r * (shape.last() as nat),
        ) + q,
        source_index(start, shape, parent, r * (shape.last() as nat) + q) < shape_product(parent),
{
    let d = shape.len() as int;
    let l = shape.last() as nat;
    let k = r * l + q;
    let k0 = r * l;
    assert(shape_positive(shape.drop_last()));
    // bound of k
    assert(shape_product(shape) == shape_product(shape.drop_last()) * l);
    assert(r * l + q < shape_product(shape.drop_last()) * l) by (nonlinear_arith)
        requires
            r < shape_product(shape.drop_last()),
            q < l,
    ;
    // division facts
    assert(k / l == r && k % l == q) by (nonlinear_arith)
        requires
            l > 0,
            q < l,
            k == r * l + q,
    ;
    assert(k0 / l == r && k0 % l == 0) by (nonlinear_arith)
        requires
            l > 0,
            k0 == r * l,
    ;
    let prefix = delinearise(r, shape.drop_last());
    assert(delinearise(k, shape) == prefix.push(q as u64));
    assert(delinearise(k0, shape) == prefix.push(0u64));
    lemma_delinearise_in_bounds(r, shape.drop_last());
    assert(prefix.len() == d - 1);
    // the full coordinates of the k-th and k0-th elements
    let c_q = coords_add(start, delinearise(k, shape));
    let c_0 = coords_add(start, delinearise(k0, shape));
    assert forall|i: int| 0 <= i < d - 1 implies #[trigger] c_q[i] == start[i] + prefix[i]
        && c_0[i] == start[i] + prefix[i] && start[i] + prefix[i] < parent[i] by {
        assert(prefix[i] < shape.drop_last()[i]);
        assert(shape.drop_last()[i] == shape[i]);
        assert(start[i] + shape[i] <= parent[i]);
    }
    assert(c_q[d - 1] == start[d - 1] + q);
    assert(c_0[d - 1] == start[d - 1]);
    assert(start[d - 1] + shape[d - 1] <= parent[d - 1]);
    assert(indices_in_bounds(c_q, parent));
    assert(indices_in_bounds(c_0, parent));
    // rows are contiguous: linear indices differ by q
    assert(c_q =~= c_0.drop_last().push((start[d - 1] + q) as u64));
    assert(c_0 =~= c_0.drop_last().push((start[d - 1]) as u64));
    lemma_linearise_row(
        c_0.drop_last(),
        (start[d - 1]) as u64,
        (start[d - 1] + q) as u64,
        parent,
    );
    lemma_linearise_bound(c_q, parent);
}

/// A byte position inside the subset, read off from its subset element index:
/// how it appears in the parent byte buffer.
pub proof fn lemma_subset_byte_forward(
    start: Seq<u64>,
    shape: Seq<u64>,
    parent: Seq<u64>,
    esize: nat,
    k: nat,
    b: nat,
)
    requires
        shape_positive(shape),
        subset_within(start, shape, parent),
        esize >= 1,
        k < shape_product(shape),
        b < esize,
    ensures
        ({
            let e = source_index(start, shape, parent, k);
            let p = e * esize + b;
            &&& e < shape_product(parent)
            &&& p < shape_product(parent) * esize
            &&& (p as int) / (esize as int) == e
            &&& (p as int) % (esize as int) == b
            &&& delinearise(e, parent) == coords_add(start, delinearise(k, shape))
            &&& subset_contains(start, shape, coords_add(start, delinearise(k, shape)))
            &&& coords_sub(coords_add(start, delinearise(k, shape)), start) == delinearise(
                k,
                shape,
            )
            &&& linearise(delinearise(k, shape), shape) == k
        }),
{
    let local = delinearise(k, shape);
    lemma_delinearise_in_bounds(k, shape);
    lemma_linearise_delinearise(k, shape);
    let coords = coords_add(start, local);
    assert forall|i: int| 0 <= i < shape.len() implies start[i] <= #[trigger] coords[i]
        && coords[i] < start[i] + shape[i] && coords[i] < parent[i] by {
        assert(local[i] < shape[i]);
        assert(start[i] + shape[i] <= parent[i]);
    }
    assert(indices_in_bounds(coords, parent));
    let e = source_index(start, shape, parent, k);
    lemma_linearise_bound(coords, parent);
    lemma_delinearise_linearise(coords, parent);
    assert(coords_sub(coords, start) =~= local);
    let p = e * esize + b;
    assert(p < shape_product(parent) * esize) by (nonlinear_arith)
        requires
            e < shape_product(parent),
            b < esize,
            p == e * esize + b,
    ;
    vstd::arithmetic::div_mod::lemma_fundamental_div_mod_converse(
        p as int,
        esize as int,
        e as int,
        b as int,
    );
}

/// A byte position of the parent buffer whose element lies inside the subset,
/// read off from the position: which subset byte it corresponds to.
pub proof fn lemma_subset_byte_backward(
    start: Seq<u64>,
    shape: Seq<u64>,
    parent: Seq<u64>,
    esize: nat,
    p: int,
)
    requires
        shape_positive(shape),
        subset_within(start, shape, parent),
        esize >= 1,
        0 <= p < shape_product(parent) * esize,
        subset_contains(start, shape, delinearise((p / esize as int) as nat, parent)),
    ensures
        ({
            let coords = delinearise((p / esize as int) as nat, parent);
            let k = linearise(coords_sub(coords, start), shape);
            &&& k < shape_product(shape)
            &&& 0 <= p % (esize as int) < esize
            &&& p == source_index(start, shape, parent, k) * esize + (p % (esize as int))
            &&& delinearise(k, shape) == coords_sub(coords, start)
            &&& coords_add(start, coords_sub(coords, start)) =~= coords
        }),
{
    let pe = shape_product(parent);
    assert(pe > 0) by (nonlinear_arith)
        requires
            pe * esize > 0,
    ;
    lemma_product_positive_axes(parent);
    assert(0 <= p / (esize as int) && p / (esize as int) < pe) by (nonlinear_arith)
        requires
            esize >= 1,
            0 <= p < pe * esize,
    ;
    let e = (p / esize as int) as nat;
    let coords = delinearise(e, parent);
    lemma_delinearise_in_bounds(e, parent);
    lemma_linearise_delinearise(e, parent);
    let local = coords_sub(coords, start);
    assert(indices_in_bounds(local, shape)) by {
        assert(forall|i: int|
            0 <= i < shape.len() ==> #[trigger] local[i] == coords[i] - start[i] && coords[i]
                < start[i] + shape[i]);
    }
    let k = linearise(local, shape);
    lemma_linearise_bound(local, shape);
    lemma_delinearise_linearise(local, shape);
    assert(coords_add(start, local) =~= coords);
    assert(source_index(start, shape, parent, k) == e);
    vstd::arithmetic::div_mod::lemma_fundamental_div_mod(p, esize as int);
    vstd::arithmetic::div_mod::lemma_mod_bound(p, esize as int);
}

} // verus!
