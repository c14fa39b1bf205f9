//! Compression of cached data. The codec in use stores the data as it is;
//! its id in the envelope leaves room for others.

use vstd::prelude::*;

use crate::geocoders::cache::CacheError;

verus! {

/// The bytes that stand for `input` when compressed.
pub open spec fn compressed(input: Seq<u8>) -> Seq<u8> {
    input
}

/// The bytes that compressed data stands for.
pub open spec fn decompressed(input: Seq<u8>) -> Seq<u8> {
    input
}

/// Compression followed by decompression gives the data back.
pub proof fn lemma_compression_round_trip(data: Seq<u8>)
    ensures
        decompressed(compressed(data)) == data,
{
}

/// Interface for compressing and decompressing cache entries.
#[derive(Debug)]
pub struct CacheCompressor {}

impl CacheCompressor {
    /// The id byte of the codec that stores data as it is: `N`, for "none".
    pub open spec fn id_byte() -> u8 {
        78u8
    }

    /// Create a new cache compressor.
    pub fn new() -> (compressor: CacheCompressor) {
        CacheCompressor {}
    }

    /// The ID of this type of compression, unique among the codecs.
    pub fn id(&self) -> (id: u8)
        ensures
            id == CacheCompressor::id_byte(),
    {
        78u8
    }

    /// Compress `input` and append to `output`. This codec never fails.
    pub fn compress(&self, input: &[u8], output: &mut Vec<u8>) -> (r: Result<(), CacheError>)
        ensures
            r is Ok,
            final(output)@ == old(output)@ + compressed(input@),
    {
        output.extend_from_slice(input);
        assert(output@ =~= old(output)@ + compressed(input@));
        Ok(())
    }

    /// Decompress `input` and append to `output`. This codec never fails.
    pub fn decompress(&self, input: &[u8], output: &mut Vec<u8>) -> (r: Result<(), CacheError>)
        ensures
            r is Ok,
            final(output)@ == old(output)@ + decompressed(input@),
    {
        output.extend_from_slice(input);
        assert(output@ =~= old(output)@ + decompressed(input@));
        Ok(())
    }
}

} // verus!
