//! Byte ranges over byte sequences.
//!
//! A [`ByteRange`] describes a sub-range of a byte sequence, measured either
//! from the start or backwards from the end, with an optional length.
//! Every range must be resolved against the total size of the sequence before
//! any byte is dereferenced; a range that reaches past the end is invalid.

use vstd::prelude::*;

verus! {

/// An offset into a byte sequence.
pub type ByteOffset = u64;

/// A byte range of a byte sequence.
///
/// The offset of a `FromEnd` range is measured backwards from the end of the
/// sequence. A missing length means "up to the end" (`FromStart`) or "from the
/// beginning" (`FromEnd`).
#[derive(Clone, Copy, Debug)]
pub enum ByteRange {
    /// A byte range from the start: offset and optional length.
    FromStart(ByteOffset, Option<u64>),
    /// A byte range from the end: offset back from the end and optional length.
    FromEnd(ByteOffset, Option<u64>),
}

impl ByteRange {
    /// The first byte position selected by this range in a sequence of `size` bytes.
    pub open spec fn spec_start(self, size: u64) -> int {
        match self {
            ByteRange::FromStart(offset, _) => offset as int,
            ByteRange::FromEnd(_, None) => 0,
            ByteRange::FromEnd(offset, Some(length)) => size - offset - length,
        }
    }

    /// One past the last byte position selected by this range in a sequence of `size` bytes.
    pub open spec fn spec_end(self, size: u64) -> int {
        match self {
            ByteRange::FromStart(_, None) => size as int,
            ByteRange::FromStart(offset, Some(length)) => offset + length,
            ByteRange::FromEnd(offset, _) => size - offset,
        }
    }

    /// The number of bytes selected by this range.
    pub open spec fn spec_length(self, size: u64) -> int {
        self.spec_end(size) - self.spec_start(size)
    }

    /// The range is resolvable against a sequence of `size` bytes: it selects
    /// a (possibly empty) sub-range that lies entirely within the sequence.
    pub open spec fn fits(self, size: u64) -> bool {
        0 <= self.spec_start(size) && self.spec_start(size) <= self.spec_end(size)
            && self.spec_end(size) <= size
    }

    /// Whether the range is resolvable against a sequence of `size` bytes.
    pub fn is_valid(&self, size: u64) -> (r: bool)
        ensures
            r == self.fits(size),
    {
        match self {
            ByteRange::FromStart(offset, None) => *offset <= size,
            ByteRange::FromStart(offset, Some(length)) => {
                *offset <= size && *length <= size - *offset
            },
            ByteRange::FromEnd(offset, None) => *offset <= size,
            ByteRange::FromEnd(offset, Some(length)) => {
                *offset <= size && *length <= size - *offset
            },
        }
    }

    /// The first byte position selected by this range.
    pub fn start(&self, size: u64) -> (r: u64)
        requires
            self.fits(size),
        ensures
            r == self.spec_start(size),
    {
        match self {
            ByteRange::FromStart(offset, _) => *offset,
            ByteRange::FromEnd(_, None) => 0,
            ByteRange::FromEnd(offset, Some(length)) => size - *offset - *length,
        }
    }

    /// One past the last byte position selected by this range.
    pub fn end(&self, size: u64) -> (r: u64)
        requires
            self.fits(size),
        ensures
            r == self.spec_end(size),
    {
        match self {
            ByteRange::FromStart(_, None) => size,
            ByteRange::FromStart(offset, Some(length)) => *offset + *length,
            ByteRange::FromEnd(offset, _) => size - *offset,
        }
    }

    /// The number of bytes selected by this range.
    pub fn length(&self, size: u64) -> (r: u64)
        requires
            self.fits(size),
        ensures
            r == self.spec_length(size),
    {
        self.end(size) - self.start(size)
    }
}

/// An invalid byte range was requested: the range does not resolve within a
/// sequence of the given size.
#[derive(Clone, Copy, Debug)]
pub struct InvalidByteRangeError {
    /// The offending byte range.
    pub byte_range: ByteRange,
    /// The size of the byte sequence the range was resolved against.
    pub size: u64,
}

/// All ranges fit within a sequence of `size` bytes.
pub open spec fn all_ranges_fit(ranges: Seq<ByteRange>, size: u64) -> bool {
    forall|i: int| 0 <= i < ranges.len() ==> #[trigger] ranges[i].fits(size)
}

/// The bytes selected by `range` out of `bytes`.
pub open spec fn range_of(bytes: Seq<u8>, range: ByteRange) -> Seq<u8>
    recommends
        bytes.len() <= u64::MAX,
        range.fits(bytes.len() as u64),
{
    bytes.subrange(range.spec_start(bytes.len() as u64), range.spec_end(bytes.len() as u64))
}

/// Extract the given byte ranges out of `bytes`, one buffer per range, in order.
///
/// Fails with [`InvalidByteRangeError`] if and only if some range does not
/// resolve within `bytes`.
pub fn extract_byte_ranges(bytes: &[u8], byte_ranges: &[ByteRange]) -> (r: Result<
    Vec<Vec<u8>>,
    InvalidByteRangeError,
>)
    ensures
        r is Ok <==> all_ranges_fit(byte_ranges@, bytes@.len() as u64),
        r matches Ok(out) ==> {
            &&& out@.len() == byte_ranges@.len()
            &&& forall|i: int|
                0 <= i < out@.len() ==> #[trigger] out@[i]@ == range_of(bytes@, byte_ranges@[i])
        },
{
    let size: u64 = bytes.len() as u64;
    let mut out: Vec<Vec<u8>> = Vec::new();
    let mut i: usize = 0;
    while i < byte_ranges.len()
        invariant
            0 <= i <= byte_ranges@.len(),
            size == bytes@.len(),
            out@.len() == i as int,
            forall|j: int| 0 <= j < i as int ==> #[trigger] byte_ranges@[j].fits(size),
            forall|j: int|
                0 <= j < i as int ==> #[trigger] out@[j]@ == range_of(bytes@, byte_ranges@[j]),
        decreases byte_ranges@.len() - i,
    {
        let range = &byte_ranges[i];
        if !range.is_valid(size) {
            return Err(InvalidByteRangeError { byte_range: *range, size });
        }
        let start = range.start(size);
        let end = range.end(size);
        let mut buf: Vec<u8> = Vec::new();
        let mut pos: u64 = start;
        while pos < end
            invariant
                start <= pos <= end,
                end <= bytes@.len(),
                buf@ == bytes@.subrange(start as int, pos as int),
            decreases end - pos,
        {
            buf.push(bytes[pos as usize]);
            assert(buf@ =~= bytes@.subrange(start as int, pos + 1));
            pos = pos + 1;
        }
        assert(buf@ == range_of(bytes@, byte_ranges@[i as int]));
        out.push(buf);
        i = i + 1;
    }
    Ok(out)
}

} // verus!
