//! A cache for bytes partial decoders.

use vstd::prelude::*;

use crate::byte_range::ByteRange;
use crate::codec::{bytes_source, BytesPartialDecoder, CodecError, CodecOptions};
use crate::storage::ReadableStorageTraits;

verus! {

/// A bytes partial decoder cache: the upstream value, materialised once.
pub struct BytesPartialDecoderCache {
    cache: Option<Vec<u8>>,
}

impl BytesPartialDecoderCache {
    /// The cached value, or `None` for an absent key.
    pub closed spec fn spec_cache(&self) -> Option<Seq<u8>> {
        match self.cache {
            Some(v) => Some(v@),
            None => None,
        }
    }

    /// Create a new partial decoder cache, materialising the upstream value.
    ///
    /// The cache decodes to exactly what the upstream decoder decodes to.
    pub fn new<'a, TStorage: ReadableStorageTraits>(
        input_handle: &BytesPartialDecoder<'a, TStorage>,
        options: &CodecOptions,
    ) -> (r: Result<Self, CodecError>)
        ensures
            r matches Ok(c) ==> bytes_source(*input_handle) == Some(c.spec_cache()),
    {
        match input_handle.decode(options) {
            Ok(v) => Ok(BytesPartialDecoderCache { cache: v }),
            Err(e) => Err(e),
        }
    }

    /// The cached value.
    pub fn cached_value(&self) -> (r: Option<Vec<u8>>)
        ensures
            match r {
                Some(v) => self.spec_cache() == Some(v@),
                None => self.spec_cache() is None,
            },
    {
        match &self.cache {
            Some(v) => Some(v.clone()),
            None => None,
        }
    }
}

} // verus!
