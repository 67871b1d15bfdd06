use vstd::prelude::*;

use crate::bytes::{be_u32, read_be_u32};
use crate::chunk::{ihdr_tag, Chunk, ChunkType, ChunkView};
use crate::error::PngError;

verus! {

/// How the samples of one pixel are laid out.
#[derive(Debug, Clone, Copy, PartialEq, Eq, Structural)]
pub enum ColorType {
    GrayScale,
    TrueColor,
    IndexColor,
    GrayScaleAlpha,
    TrueColorAlpha,
}

/// The colour type that a header byte stands for, if any.
pub open spec fn color_type_of(b: u8) -> Option<ColorType> {
    if b == 0 {
        Some(ColorType::GrayScale)
    } else if b == 2 {
        Some(ColorType::TrueColor)
    } else if b == 3 {
        Some(ColorType::IndexColor)
    } else if b == 4 {
        Some(ColorType::GrayScaleAlpha)
    } else if b == 6 {
        Some(ColorType::TrueColorAlpha)
    } else {
        None
    }
}

impl ColorType {
    /// The number of samples in one pixel.
    pub open spec fn channels(self) -> int {
        match self {
            ColorType::GrayScale => 1,
            ColorType::TrueColor => 3,
            ColorType::IndexColor => 1,
            ColorType::GrayScaleAlpha => 2,
            ColorType::TrueColorAlpha => 4,
        }
    }

    /// Reads a colour-type byte of the header.
    pub fn new(value: u8) -> (r: Result<ColorType, PngError>)
        ensures
            match color_type_of(value) {
                Some(c) => r == Ok::<ColorType, PngError>(c),
                None => r == Err::<ColorType, PngError>(PngError::InvalidColorType),
            },
    {
        match value {
            0 => Ok(ColorType::GrayScale),
            2 => Ok(ColorType::TrueColor),
            3 => Ok(ColorType::IndexColor),
            4 => Ok(ColorType::GrayScaleAlpha),
            6 => Ok(ColorType::TrueColorAlpha),
            _ => Err(PngError::InvalidColorType),
        }
    }

    /// The number of samples in one pixel.
    pub fn channel_count(&self) -> (r: usize)
        ensures
            r == self.channels(),
    {
        match self {
            ColorType::GrayScale => 1,
            ColorType::TrueColor => 3,
            ColorType::IndexColor => 1,
            ColorType::GrayScaleAlpha => 2,
            ColorType::TrueColorAlpha => 4,
        }
    }

    /// Bits per pixel: the samples of a pixel times the bit depth.
    pub fn bit_per_pixel(&self, bit_depth: u8) -> (r: usize)
        ensures
            r == self.channels() * bit_depth,
    {
        self.channel_count() * (bit_depth as usize)
    }
}

/// Bytes of one scanline, the leading filter-type byte included.
pub open spec fn line_width(width: int, bits_per_pixel: int) -> int {
    1 + (width * bits_per_pixel + 7) / 8
}

/// The distance in bytes to the same byte of the pixel on the left: the bytes of a
/// pixel rounded up, and at least one.
pub open spec fn pixel_stride(bits_per_pixel: int) -> int {
    if bits_per_pixel <= 8 {
        1
    } else {
        (bits_per_pixel + 7) / 8
    }
}

/// The image width that a header payload gives.
pub open spec fn header_width(d: Seq<u8>) -> int {
    be_u32(d.subrange(0, 4))
}

/// The image height that a header payload gives.
pub open spec fn header_height(d: Seq<u8>) -> int {
    be_u32(d.subrange(4, 8))
}

/// Bits per pixel of a header payload whose colour type is known.
pub open spec fn header_bits_per_pixel(d: Seq<u8>) -> int {
    color_type_of(d[9])->Some_0.channels() * d[8]
}

/// Why a chunk cannot serve as the image header, or `None` where it can.
pub open spec fn header_error(c: ChunkView) -> Option<PngError> {
    if c.tag != ihdr_tag() {
        Some(PngError::InvalidChunkType)
    } else if c.data.len() < 10 {
        Some(PngError::TooShortInput)
    } else if color_type_of(c.data[9]) is None {
        Some(PngError::InvalidColorType)
    } else if line_width(header_width(c.data), header_bits_per_pixel(c.data)) > usize::MAX {
        Some(PngError::ImageTooLarge)
    } else {
        None
    }
}

/// Image size, colour type and bit depth.
#[derive(Debug, Clone, Copy)]
pub struct MetaData {
    pub width: u32,
    pub height: u32,
    pub color_type: ColorType,
    pub bit_depth: u8,
}

impl MetaData {
    pub fn new(width: u32, height: u32, color_type: ColorType, bit_depth: u8) -> (r: MetaData)
        ensures
            r.width == width,
            r.height == height,
            r.color_type == color_type,
            r.bit_depth == bit_depth,
    {
        MetaData { width, height, color_type, bit_depth }
    }

    /// Bits of pixel data in one scanline.
    pub fn bits_per_scanline(&self) -> (r: u64)
        ensures
            r == self.width * (self.color_type.channels() * self.bit_depth),
    {
        let bpp = self.color_type.bit_per_pixel(self.bit_depth) as u64;
        assert(bpp <= 1020);
        assert(self.width * bpp <= 4294967295 * 1020) by (nonlinear_arith)
            requires
                self.width <= 4294967295,
                bpp <= 1020,
        ;
        (self.width as u64) * bpp
    }
}

/// The image header: the IHDR chunk as read, and the geometry derived from it.
#[derive(Debug)]
pub struct Header {
    pub inner: Chunk,
    pub metadata: MetaData,
    pub scanline_width: usize,
    pub bytes_per_pixel: usize,
}

impl Header {
    /// The header is its chunk, and the rest is derived from that chunk's payload.
    pub open spec fn wf(&self) -> bool {
        let d = self.inner@.data;
        &&& header_error(self.inner@) is None
        &&& self.metadata.width == header_width(d)
        &&& self.metadata.height == header_height(d)
        &&& self.metadata.bit_depth == d[8]
        &&& Some(self.metadata.color_type) == color_type_of(d[9])
        &&& self.scanline_width == line_width(header_width(d), header_bits_per_pixel(d))
        &&& self.bytes_per_pixel == pixel_stride(header_bits_per_pixel(d))
    }

    /// Builds the header from a chunk of kind `Start`; a chunk of any other kind is refused.
    pub fn new(chunk: Chunk) -> (r: Result<Header, PngError>)
        ensures
            !(chunk.chunk_type is Start) ==> r == Err::<Header, PngError>(PngError::InvalidChunkType),
            chunk.chunk_type is Start ==> match header_error(chunk@) {
                Some(e) => r == Err::<Header, PngError>(e),
                None => r is Ok && r->Ok_0.wf() && r->Ok_0.inner@ == chunk@,
            },
    {
        match chunk.chunk_type {
            ChunkType::Start => {},
            _ => {
                return Err(PngError::InvalidChunkType);
            },
        }
        if chunk.data.len() < 10 {
            return Err(PngError::TooShortInput);
        }
        let color_type = Self::parse_color_type(&chunk)?;
        let width = Self::parse_width(&chunk);
        let height = Self::parse_height(&chunk);
        let bit_depth = Self::parse_bit_depth(&chunk);
        let metadata = MetaData::new(width, height, color_type, bit_depth);
        let bits = metadata.bits_per_scanline();
        let bytes = bits / 8 + if bits % 8 == 0 { 0u64 } else { 1u64 };
        assert(bytes == (bits + 7) / 8);
        if bytes >= usize::MAX as u64 {
            return Err(PngError::ImageTooLarge);
        }
        let scanline_width = (bytes + 1) as usize;
        let bpp = color_type.bit_per_pixel(bit_depth);
        let bytes_per_pixel = if bpp <= 8 { 1 } else { bpp / 8 + if bpp % 8 == 0 { 0 } else { 1 } };
        Ok(Header { inner: chunk, metadata, scanline_width, bytes_per_pixel })
    }

    pub fn width(&self) -> (r: u32)
        ensures
            r == self.metadata.width,
    {
        self.metadata.width
    }

    pub fn height(&self) -> (r: u32)
        ensures
            r == self.metadata.height,
    {
        self.metadata.height
    }

    /// Bytes of one scanline, the filter-type byte included.
    pub fn scan_line_width(&self) -> (r: usize)
        ensures
            r == self.scanline_width,
    {
        self.scanline_width
    }

    pub fn color_type(&self) -> (r: ColorType)
        ensures
            r == self.metadata.color_type,
    {
        self.metadata.color_type
    }

    pub fn bit_depth(&self) -> (r: u8)
        ensures
            r == self.metadata.bit_depth,
    {
        self.metadata.bit_depth
    }

    /// The stride to the pixel on the left, in bytes.
    pub fn bytes_per_pixel(&self) -> (r: usize)
        ensures
            r == self.bytes_per_pixel,
    {
        self.bytes_per_pixel
    }

    fn parse_width(chunk: &Chunk) -> (r: u32)
        requires
            chunk.data@.len() >= 10,
        ensures
            r == header_width(chunk.data@),
    {
        read_be_u32(chunk.data.as_slice(), 0)
    }

    fn parse_height(chunk: &Chunk) -> (r: u32)
        requires
            chunk.data@.len() >= 10,
        ensures
            r == header_height(chunk.data@),
    {
        read_be_u32(chunk.data.as_slice(), 4)
    }

    fn parse_bit_depth(chunk: &Chunk) -> (r: u8)
        requires
            chunk.data@.len() >= 10,
        ensures
            r == chunk.data@[8],
    {
        chunk.data[8]
    }

    fn parse_color_type(chunk: &Chunk) -> (r: Result<ColorType, PngError>)
        requires
            chunk.data@.len() >= 10,
        ensures
            match color_type_of(chunk.data@[9]) {
                Some(c) => r == Ok::<ColorType, PngError>(c),
                None => r == Err::<ColorType, PngError>(PngError::InvalidColorType),
            },
    {
        ColorType::new(chunk.data[9])
    }
}

} // verus!
