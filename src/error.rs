use vstd::prelude::*;

verus! {

/// Every way in which reading or writing a PNG byte stream can fail.
#[derive(Debug, Clone, Copy, PartialEq, Eq, Structural)]
pub enum PngError {
    /// The input does not start with the 8-byte PNG signature.
    InvalidSignature,
    /// Fewer bytes remain than the field being read needs.
    TooShortInput,
    /// The stream holds no IHDR chunk.
    NoIHDRFound,
    /// The stream holds no IEND chunk.
    NoIENDFound,
    /// The stream holds no IDAT payload.
    NoIDATFound,
    /// A second IHDR chunk was met.
    DuplicateIHDRFound,
    /// A second IEND chunk follows the first.
    DuplicateIENDFound,
    /// A chunk of another kind was handed where a given kind is required.
    InvalidChunkType,
    /// The colour-type byte of the header is not a known colour type.
    InvalidColorType,
    /// A filter-type byte is not one of 0 to 4.
    InvalidFilterType,
    /// The concatenated IDAT payload is not a valid zlib stream.
    InvalidImageData,
    /// A scanline of the image would not fit in memory.
    ImageTooLarge,
    /// The pixel data, or its compressed form, is longer than one IDAT chunk can hold.
    EncodingFailed,
}

} // verus!
