//! The zlib stream that wraps everything behind the header of a file.
//!
//! Compression is done by the `flate2` crate, and nothing of it is proved
//! here. Each of the two directions has a name for what it gives, and the
//! rest of the library is proved for whatever those names stand for.

use flate2::read::ZlibDecoder;
use flate2::write::ZlibEncoder;
use flate2::Compression;
use std::io::{Read, Write};
use vstd::prelude::*;

verus! {

/// The zlib stream that `flate2` makes of `data` at its best compression
/// level; nothing if the compressor reports an error.
pub uninterp spec fn zlib_deflated(data: Seq<u8>) -> Option<Seq<u8>>;

/// The bytes that `flate2` gets out of the zlib stream `data`, up to the end
/// of the stream or to the point at which the decompressor reports an error.
/// What stands behind the end of the stream is not looked at.
pub uninterp spec fn zlib_inflated(data: Seq<u8>) -> Seq<u8>;

/// `flate2::write::ZlibEncoder` over a vector, with `Compression::best()`:
/// `data` goes in with one `write_all`, and `finish` hands the vector back.
/// An error of either call gives `None`. The claim is only that the result
/// depends on `data` alone.
#[verifier::external_body]
pub(crate) fn compress(data: &[u8]) -> (r: Option<Vec<u8>>)
    ensures
        match r {
            Some(z) => zlib_deflated(data@) == Some(z@),
            None => zlib_deflated(data@) is None,
        },
{
    let mut encoder = ZlibEncoder::new(Vec::new(), Compression::best());
    encoder.write_all(data).ok()?;
    encoder.finish().ok()
}

/// `flate2::read::ZlibDecoder` over `data`, read to its end with
/// `read_to_end`. What was read before an error stays in the result, and the
/// error itself is dropped: a reader that needs more bytes than there are
/// fails on its own. The claim is only that the result depends on `data`
/// alone.
#[verifier::external_body]
pub(crate) fn decompress(data: &[u8]) -> (r: Vec<u8>)
    ensures
        r@ == zlib_inflated(data@),
{
    let mut out = Vec::new();
    let _ = ZlibDecoder::new(data).read_to_end(&mut out);
    out
}

} // verus!
