//! Lossless compression of document payloads.
//!
//! The codec applies a generic maximum-effort compressor to the byte
//! representation of a document; all the crate relies on is that
//! decompression inverts compression exactly.

use vstd::prelude::*;
use crate::M8Error;
use std::io::Read;
use std::io::Write;

verus! {

/// The zlib stream that flate2's encoder produces at maximum compression
/// for a byte sequence.
pub uninterp spec fn deflate_of(data: Seq<u8>) -> Seq<u8>;

/// What flate2's decoder makes of a byte sequence: the decompressed bytes,
/// or `None` when the bytes are not a well-formed zlib stream.
pub uninterp spec fn inflate_of(data: Seq<u8>) -> Option<Seq<u8>>;

/// Relies on flate2's ZlibEncoder at `Compression::best()`: the output
/// depends on the input bytes alone, is never empty (a zlib stream always
/// carries a header and a checksum), and flate2's ZlibDecoder recovers the
/// input from it exactly (DEFLATE is lossless).  Compression succeeds on
/// every input: the in-memory writer never reports an I/O error, and the
/// deflater signals an error only for a corrupted stream state that a
/// fresh encoder cannot reach.
#[verifier::external_body]
pub fn deflate(data: &[u8]) -> (r: Result<Vec<u8>, M8Error>)
    ensures
        r is Ok,
        r matches Ok(v) ==> v@ == deflate_of(data@) && inflate_of(v@) == Some(data@)
            && v@.len() > 0,
{
    let mut enc = flate2::write::ZlibEncoder::new(Vec::new(), flate2::Compression::best());
    if enc.write_all(data).is_err() {
        return Err(M8Error::Format);
    }
    match enc.finish() {
        Ok(v) => Ok(v),
        Err(_) => Err(M8Error::Format),
    }
}

/// Relies on flate2's ZlibDecoder: the outcome depends on the input bytes
/// alone, and reading fails exactly when the bytes are not a well-formed
/// zlib stream.
#[verifier::external_body]
pub fn inflate(data: &[u8]) -> (r: Result<Vec<u8>, M8Error>)
    ensures
        r matches Ok(v) ==> inflate_of(data@) == Some(v@),
        r matches Err(e) ==> inflate_of(data@) is None && e == M8Error::Format,
{
    let mut dec = flate2::read::ZlibDecoder::new(data);
    let mut out = Vec::new();
    match dec.read_to_end(&mut out) {
        Ok(_) => Ok(out),
        Err(_) => Err(M8Error::Format),
    }
}

} // verus!
