//! Decompression, which the `flate2` crate does. Nothing here is proved:
//! what a decoder makes of its input is given a name, and the callers'
//! contracts are stated over those names.

use flate2::read::{GzDecoder, ZlibDecoder};
use std::io::Read;
use vstd::prelude::*;

verus! {

/// `std::io::Error`, which a decoder hands back when it fails. It is
/// carried, never looked into.
#[verifier::external_type_specification]
#[verifier::external_body]
pub struct ExIoError(std::io::Error);

/// What `flate2::read::GzDecoder` yields when `compressed` is read through
/// it to the end: the decompressed bytes of the gzip member at the start of
/// the input, or nothing where the decoder reports an error (no gzip header,
/// a damaged or truncated stream, a wrong checksum).
pub uninterp spec fn gunzip(compressed: Seq<u8>) -> Option<Seq<u8>>;

/// What `flate2::read::ZlibDecoder` yields when `compressed` is read
/// through it to the end: the decompressed bytes of the zlib stream at the
/// start of the input, or nothing where the decoder reports an error.
pub uninterp spec fn unzlib(compressed: Seq<u8>) -> Option<Seq<u8>>;

/// Reads `compressed` to the end through `flate2::read::GzDecoder`. The
/// contract gives the outcome its name, [`gunzip`]: the decoder works on the
/// bytes alone, so equal input gives equal output.
#[verifier::external_body]
pub(crate) fn gzip_decompress(compressed: &Vec<u8>) -> (res: Result<Vec<u8>, std::io::Error>)
    ensures
        match res {
            Ok(data) => gunzip(compressed@) == Some(data@),
            Err(_) => gunzip(compressed@) is None,
        },
{
    let mut decompresser = GzDecoder::new(compressed.as_slice());
    let mut data = Vec::new();
    decompresser.read_to_end(&mut data)?;
    Ok(data)
}

/// Reads `compressed` to the end through `flate2::read::ZlibDecoder`. The
/// contract gives the outcome its name, [`unzlib`]: the decoder works on the
/// bytes alone, so equal input gives equal output.
#[verifier::external_body]
pub(crate) fn zlib_decompress(compressed: &Vec<u8>) -> (res: Result<Vec<u8>, std::io::Error>)
    ensures
        match res {
            Ok(data) => unzlib(compressed@) == Some(data@),
            Err(_) => unzlib(compressed@) is None,
        },
{
    let mut decompresser = ZlibDecoder::new(compressed.as_slice());
    let mut data = Vec::new();
    decompresser.read_to_end(&mut data)?;
    Ok(data)
}

} // verus!
