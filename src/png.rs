use vstd::prelude::*;

use crate::chunk::{encodable, iend_tag, ihdr_tag, idat_tag, Chunk, ChunkType, ChunkView};
use crate::error::PngError;
use crate::header::{header_bits_per_pixel, header_error, header_height, header_width, line_width, pixel_stride, Header};

verus! {

/// The 8-byte signature that every PNG stream starts with.
pub open spec fn signature() -> Seq<u8> {
    seq![0x89u8, 0x50u8, 0x4Eu8, 0x47u8, 0x0Du8, 0x0Au8, 0x1Au8, 0x0Au8]
}

/// The IEND chunk that closes the stream, kept as it was read.
#[derive(Debug)]
pub struct Terminator {
    pub inner: Chunk,
}

impl Terminator {
    /// Wraps a chunk of kind `End`; a chunk of any other kind is refused.
    pub fn new(chunk: Chunk) -> (r: Result<Terminator, PngError>)
        ensures
            chunk.chunk_type is End ==> r is Ok && r->Ok_0.inner@ == chunk@,
            !(chunk.chunk_type is End) ==> r == Err::<Terminator, PngError>(PngError::InvalidChunkType),
    {
        match chunk.chunk_type {
            ChunkType::End => Ok(Terminator { inner: chunk }),
            _ => Err(PngError::InvalidChunkType),
        }
    }
}

/// A chunk that is passed through untouched: any tag but IHDR, IDAT and IEND.
pub open spec fn is_ancillary(c: ChunkView) -> bool {
    &&& encodable(c)
    &&& c.tag != ihdr_tag()
    &&& c.tag != idat_tag()
    &&& c.tag != iend_tag()
}

/// A parsed document: the header chunk, the ancillary chunks in stream order, the
/// terminator chunk and the decoded pixel buffer.
pub struct PngModel {
    pub header: ChunkView,
    pub misc: Seq<ChunkView>,
    pub terminator: ChunkView,
    pub data: Seq<u8>,
}

/// What every parsed document satisfies.
pub open spec fn model_wf(m: PngModel) -> bool {
    &&& header_error(m.header) is None
    &&& encodable(m.header)
    &&& m.terminator.tag == iend_tag()
    &&& encodable(m.terminator)
    &&& forall|i: int| 0 <= i < m.misc.len() ==> is_ancillary(#[trigger] m.misc[i])
}

/// Bytes per scanline, the filter-type byte included.
pub open spec fn model_line_width(m: PngModel) -> int {
    line_width(header_width(m.header.data), header_bits_per_pixel(m.header.data))
}

/// The stride to the pixel on the left, in bytes.
pub open spec fn model_bpp(m: PngModel) -> int {
    pixel_stride(header_bits_per_pixel(m.header.data))
}

/// The image height in scanlines.
pub open spec fn model_height(m: PngModel) -> int {
    header_height(m.header.data)
}

/// The scanlines that the buffer holds whole, up to the image height.
pub open spec fn model_lines(m: PngModel) -> int {
    let by_length = m.data.len() as int / model_line_width(m);
    if model_height(m) < by_length {
        model_height(m)
    } else {
        by_length
    }
}

/// A decoded PNG document: header, ancillary chunks, terminator, and the one pixel buffer.
#[derive(Debug)]
pub struct Png {
    pub header: Header,
    pub terminator: Terminator,
    pub misc_chunks: Vec<Chunk>,
    pub data: Vec<u8>,
}

impl View for Png {
    type V = PngModel;

    open spec fn view(&self) -> PngModel {
        PngModel {
            header: self.header.inner@,
            misc: self.misc_chunks@.map_values(|c: Chunk| c@),
            terminator: self.terminator.inner@,
            data: self.data@,
        }
    }
}

impl Png {
    pub open spec fn wf(&self) -> bool {
        &&& self.header.wf()
        &&& model_wf(self@)
    }

    pub fn new(header: Header, terminator: Terminator, misc_chunks: Vec<Chunk>, data: Vec<u8>) -> (r: Png)
        ensures
            r.header == header,
            r.terminator == terminator,
            r.misc_chunks@ == misc_chunks@,
            r.data@ == data@,
    {
        Png { header, terminator, misc_chunks, data }
    }

    pub fn width(&self) -> (r: u32)
        requires
            self.wf(),
        ensures
            r == header_width(self@.header.data),
    {
        self.header.width()
    }

    pub fn height(&self) -> (r: u32)
        requires
            self.wf(),
        ensures
            r == model_height(self@),
    {
        self.header.height()
    }

    /// Bytes per scanline, the filter-type byte included.
    pub fn scan_line_width(&self) -> (r: usize)
        requires
            self.wf(),
        ensures
            r == model_line_width(self@),
            r >= 1,
    {
        self.header.scan_line_width()
    }

    /// The stride to the pixel on the left, in bytes.
    pub fn bytes_per_pixel(&self) -> (r: usize)
        requires
            self.wf(),
        ensures
            r == model_bpp(self@),
            r >= 1,
    {
        self.header.bytes_per_pixel()
    }

    /// The scanlines that the buffer holds whole, up to the image height.
    pub fn line_count(&self) -> (r: usize)
        requires
            self.wf(),
        ensures
            r == model_lines(self@),
            r * model_line_width(self@) <= self@.data.len(),
    {
        let w = self.scan_line_width();
        let by_length = self.data.len() / w;
        let h = self.height() as usize;
        let n = if h < by_length { h } else { by_length };
        assert(n * w <= self.data@.len()) by (nonlinear_arith)
            requires
                n <= by_length,
                by_length == self.data@.len() as int / (w as int),
                w >= 1,
        ;
        n
    }
}

} // verus!
