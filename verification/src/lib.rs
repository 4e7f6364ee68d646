//! A verified implementation of the Zarr v3 chunked N-dimensional array format.
//!
//! An array is a logical N-dimensional grid of typed elements, physically
//! partitioned into chunks. Each chunk is addressed by its grid indices,
//! serialised through a configurable codec pipeline, and persisted as an
//! opaque byte blob under a deterministic key in a key/value store.

use vstd::prelude::*;

pub mod array;
pub mod array_representation;
pub mod array_subset;
pub mod byte_range;
pub mod chunk_grid;
pub mod chunk_key_encoding;
pub mod codec;
pub mod concurrency;
pub mod data_type;
pub mod fill_value;
pub mod group;
pub mod indexing;
pub mod json;
pub mod metadata;
pub mod node;
pub mod storage;
pub mod text;

pub use byte_range::{ByteOffset, ByteRange, InvalidByteRangeError};
pub use indexing::{ravel_indices, unravel_index};

verus! {

/// A value that must be non-zero was zero.
#[derive(Clone, Copy, Debug)]
pub struct NonZeroError;

/// Whether two string slices hold the same characters.
pub fn str_equal(a: &str, b: &str) -> (r: bool)
    ensures
        r == (a@ == b@),
{
    let sa = a.to_owned();
    let sb = b.to_owned();
    sa == sb
}

} // verus!
