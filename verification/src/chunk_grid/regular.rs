//! The regular chunk grid: one fixed chunk extent per axis.

use vstd::prelude::*;

use crate::chunk_grid::rectangular::RectangularChunkGridDimension;
use crate::indexing::shape_positive;
use crate::NonZeroError;

verus! {

/// A regular chunk grid: every chunk has the same declared shape.
#[derive(Clone, Debug)]
pub struct RegularChunkGrid {
    chunk_shape: Vec<u64>,
    axes: Vec<RectangularChunkGridDimension>,
}

impl RegularChunkGrid {
    /// The declared chunk shape.
    pub closed spec fn spec_chunk_shape(&self) -> Seq<u64> {
        self.chunk_shape@
    }

    /// The per-axis description of the grid: one fixed extent per axis.
    pub closed spec fn spec_axes(&self) -> Seq<RectangularChunkGridDimension> {
        self.axes@
    }

    /// Every chunk extent is positive and the per-axis description agrees
    /// with the declared chunk shape.
    pub open spec fn wf(&self) -> bool {
        &&& shape_positive(self.spec_chunk_shape())
        &&& self.spec_axes().len() == self.spec_chunk_shape().len()
        &&& forall|i: int|
            0 <= i < self.spec_axes().len() ==> #[trigger] self.spec_axes()[i]
                == RectangularChunkGridDimension::Fixed(self.spec_chunk_shape()[i])
    }

    /// Create a regular chunk grid.
    ///
    /// Fails with [`NonZeroError`] if and only if some chunk extent is zero.
    pub fn new(chunk_shape: Vec<u64>) -> (r: Result<Self, NonZeroError>)
        ensures
            r is Ok <==> shape_positive(chunk_shape@),
            r matches Ok(g) ==> g.spec_chunk_shape() == chunk_shape@ && g.wf(),
    {
        let mut axes: Vec<RectangularChunkGridDimension> = Vec::new();
        let mut i: usize = 0;
        while i < chunk_shape.len()
            invariant
                0 <= i <= chunk_shape@.len(),
                forall|j: int| 0 <= j < i ==> #[trigger] chunk_shape@[j] > 0,
                axes@.len() == i,
                forall|j: int|
                    0 <= j < i ==> #[trigger] axes@[j] == RectangularChunkGridDimension::Fixed(
                        chunk_shape@[j],
                    ),
            decreases chunk_shape@.len() - i,
        {
            if chunk_shape[i] == 0 {
                return Err(NonZeroError);
            }
            axes.push(RectangularChunkGridDimension::Fixed(chunk_shape[i]));
            i = i + 1;
        }
        Ok(Self { chunk_shape, axes })
    }

    /// The number of axes.
    pub fn dimensionality(&self) -> (r: usize)
        ensures
            r == self.spec_chunk_shape().len(),
    {
        self.chunk_shape.len()
    }

    /// The declared chunk shape along each axis.
    pub fn chunk_shape(&self) -> (r: &[u64])
        ensures
            r@ == self.spec_chunk_shape(),
    {
        self.chunk_shape.as_slice()
    }

    /// The per-axis description of the grid.
    pub fn axes(&self) -> (r: &Vec<RectangularChunkGridDimension>)
        ensures
            r@ == self.spec_axes(),
    {
        &self.axes
    }
}

} // verus!
