use std::io::Read;
use vstd::prelude::*;

verus! {

/// The error that a failed read reports, held opaque.
#[verifier::external_type_specification]
#[verifier::external_body]
pub struct ExIoError(std::io::Error);

/// What a zlib stream inflates to, or `None` when the stream is corrupt or
/// ends before its final block.
pub uninterp spec fn zlib_inflated(compressed: Seq<u8>) -> Option<Seq<u8>>;

/// Relies on `flate2::read::ZlibDecoder`, read to its end: the outcome depends
/// on the compressed bytes alone, and a stream it cannot decode is an error.
#[verifier::external_body]
fn zlib_read_to_end(compressed: &[u8]) -> (r: Result<Vec<u8>, std::io::Error>)
    ensures
        match r {
            Ok(v) => zlib_inflated(compressed@) == Some(v@),
            Err(_) => zlib_inflated(compressed@) is None,
        },
{
    let mut out = Vec::new();
    flate2::read::ZlibDecoder::new(compressed).read_to_end(&mut out)?;
    Ok(out)
}

/// A compressed payload could not be inflated.
#[derive(Clone, Copy, Debug, PartialEq, Eq, Structural)]
pub enum DecodeError {
    Corrupt,
}

/// Inflates a zlib stream.
pub fn decompress_zlib(compressed: &[u8]) -> (r: Result<Vec<u8>, DecodeError>)
    ensures
        match r {
            Ok(v) => zlib_inflated(compressed@) == Some(v@),
            Err(_) => zlib_inflated(compressed@) is None,
        },
{
    match zlib_read_to_end(compressed) {
        Ok(v) => Ok(v),
        Err(_) => Err(DecodeError::Corrupt),
    }
}

} // verus!
