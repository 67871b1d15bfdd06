use vstd::prelude::*;

use std::io::Read;

verus! {

/// What inflating a zlib stream gives, or `None` where the bytes are no valid stream.
pub uninterp spec fn zlib_inflated(b: Seq<u8>) -> Option<Seq<u8>>;

/// The zlib stream that fdeflate's compressor makes of the given bytes.
pub uninterp spec fn zlib_deflated(b: Seq<u8>) -> Seq<u8>;

/// The CRC-32 (ISO-HDLC, as PNG uses it) of the given bytes.
pub uninterp spec fn crc32_of(b: Seq<u8>) -> u32;

/// Relies on flate2's `ZlibDecoder` and `Read::read_to_end`: the bytes of the zlib stream
/// `bytes` inflated, or an error where they are no valid stream; the outcome depends on
/// the bytes alone.
#[verifier::external_body]
pub(crate) fn inflate(bytes: &[u8]) -> (r: Option<Vec<u8>>)
    ensures
        match zlib_inflated(bytes@) {
            Some(d) => r is Some && r->Some_0@ == d,
            None => r is None,
        },
{
    let mut decoder = flate2::read::ZlibDecoder::new(bytes);
    let mut out = Vec::new();
    match decoder.read_to_end(&mut out) {
        Ok(_) => Some(out),
        Err(_) => None,
    }
}

/// Relies on `fdeflate::Compressor` (`new`, `write_data`, `finish`) writing into a `Vec`:
/// a zlib stream of `data` that depends on `data` alone. `write_data` counts runs of zero
/// bytes in a `u32`, so `data` is at most `u32::MAX` bytes. Writing into a `Vec` cannot fail,
/// so none of the three calls returns an error (fdeflate's own `compress_to_vec` unwraps
/// them likewise). `new` writes a fixed zlib header first, so the stream is never empty,
/// and the crate's streams are standard zlib, which flate2's `ZlibDecoder` expands back
/// to `data`.
#[verifier::external_body]
pub(crate) fn deflate(data: &[u8]) -> (r: Vec<u8>)
    requires
        data@.len() <= u32::MAX,
    ensures
        r@ == zlib_deflated(data@),
        zlib_inflated(r@) == Some(data@),
        r@.len() > 0,
{
    let mut compressor = fdeflate::Compressor::new(Vec::new()).unwrap();
    compressor.write_data(data).unwrap();
    compressor.finish().unwrap()
}

/// Relies on `crc32fast::hash`: the CRC-32 of `bytes`.
#[verifier::external_body]
pub(crate) fn crc32(bytes: &[u8]) -> (r: u32)
    ensures
        r == crc32_of(bytes@),
{
    crc32fast::hash(bytes)
}

} // verus!
