//! The concurrency budget of multi-chunk operations.
//!
//! Codecs report a recommended concurrency range; the engine splits a
//! caller's concurrent target between chunk-level parallelism and what is
//! left for each codec invocation. The split is computed here; running work
//! in parallel is the caller's concern.

use vstd::prelude::*;

use crate::codec::CodecOptions;

verus! {

/// A recommended concurrency range of a codec.
#[derive(Clone, Copy, Debug)]
pub struct RecommendedConcurrency {
    min_concurrency: usize,
    max_concurrency: usize,
}

impl RecommendedConcurrency {
    /// The minimum recommended concurrency.
    pub closed spec fn spec_min(&self) -> usize {
        self.min_concurrency
    }

    /// The maximum recommended concurrency.
    pub closed spec fn spec_max(&self) -> usize {
        self.max_concurrency
    }

    /// A recommendation of between `min` and `max` concurrent units.
    pub fn new(min: usize, max: usize) -> (r: Self)
        requires
            1 <= min <= max,
        ensures
            r.spec_min() == min,
            r.spec_max() == max,
    {
        RecommendedConcurrency { min_concurrency: min, max_concurrency: max }
    }

    /// A recommendation of at most `maximum` concurrent units.
    pub fn new_maximum(maximum: usize) -> (r: Self)
        requires
            maximum >= 1,
        ensures
            r.spec_min() == 1,
            r.spec_max() == maximum,
    {
        RecommendedConcurrency { min_concurrency: 1, max_concurrency: maximum }
    }

    /// The minimum recommended concurrency.
    pub fn min(&self) -> (r: usize)
        ensures
            r == self.spec_min(),
    {
        self.min_concurrency
    }

    /// The maximum recommended concurrency.
    pub fn max(&self) -> (r: usize)
        ensures
            r == self.spec_max(),
    {
        self.max_concurrency
    }
}

/// The chunk-level concurrency limit for a multi-chunk operation: the
/// caller's target divided by the codec's minimum concurrency, at least one,
/// and at most the number of chunks.
pub open spec fn spec_chunk_concurrent_limit(
    concurrent_target: usize,
    num_chunks: usize,
    codec_min: usize,
) -> int {
    let budget = concurrent_target as int / (if codec_min >= 1 {
        codec_min as int
    } else {
        1
    });
    if budget < 1 {
        1
    } else if budget > num_chunks {
        num_chunks as int
    } else {
        budget
    }
}

/// Split a concurrent target between chunks and the codec work within one
/// chunk: the chunk limit as above, and per-chunk codec options whose
/// target is the remaining budget.
pub fn concurrency_chunks_and_codec(
    concurrent_target: usize,
    num_chunks: usize,
    options: &CodecOptions,
    codec_concurrency: &RecommendedConcurrency,
) -> (r: (usize, CodecOptions))
    requires
        num_chunks >= 1,
    ensures
        r.0 == spec_chunk_concurrent_limit(
            concurrent_target,
            num_chunks,
            codec_concurrency.spec_min(),
        ),
        1 <= r.0 <= num_chunks,
        r.1.concurrent_target == (if concurrent_target as int / (r.0 as int) >= 1 {
            concurrent_target as int / (r.0 as int)
        } else {
            1
        }),
        r.1.validate_checksums == options.validate_checksums,
{
    let denom = if codec_concurrency.min() >= 1 {
        codec_concurrency.min()
    } else {
        1
    };
    let budget = concurrent_target / denom;
    let chunk_limit = if budget < 1 {
        1
    } else if budget > num_chunks {
        num_chunks
    } else {
        budget
    };
    let per_chunk = concurrent_target / chunk_limit;
    let per_chunk = if per_chunk < 1 {
        1
    } else {
        per_chunk
    };
    let options = CodecOptions {
        concurrent_target: per_chunk,
        validate_checksums: options.validate_checksums,
    };
    (chunk_limit, options)
}

} // verus!
