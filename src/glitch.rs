use vstd::prelude::*;

use crate::codec::zlib_deflated;
use crate::document::{edited, filtered_data, scan_lines_spec, transposed, unfiltered_data, ScanLineEdit};
use crate::encoder::png_bytes;
use crate::error::PngError;
use crate::filter::FilterType;
use crate::header::{header_width, Header};
use crate::parser::{parse_spec, PngParser};
use crate::png::{model_bpp, model_height, model_line_width, model_lines, signature, Png, PngModel};
use crate::scan_line::{min, ScanLine};

verus! {

/// A PNG image opened for glitching: its chunks, kept to be written back, and its
/// decoded pixel buffer, which every operation changes in place.
pub struct PngGlitch {
    png: Png,
}

impl View for PngGlitch {
    type V = PngModel;

    closed spec fn view(&self) -> PngModel {
        self.png@
    }
}

impl PngGlitch {
    /// The image was parsed and its geometry derived from its header.
    pub closed spec fn wf(&self) -> bool {
        self.png.wf()
    }

    /// Parses a PNG byte stream.
    pub fn new(buffer: Vec<u8>) -> (r: Result<PngGlitch, PngError>)
        ensures
            match parse_spec(buffer@) {
                Ok(m) => r is Ok && r->Ok_0@ == m && r->Ok_0.wf(),
                Err(e) => r == Err::<PngGlitch, PngError>(e),
            },
            (buffer@.len() < 8 || buffer@.subrange(0, 8) != signature()) ==> r == Err::<PngGlitch, PngError>(
                PngError::InvalidSignature,
            ),
    {
        let png = PngParser::parse(buffer.as_slice())?;
        Ok(PngGlitch { png })
    }

    /// Handles on all scanlines of the image, top to bottom, those whose first byte the
    /// buffer holds and is a known filter type.
    pub fn scan_lines(&self) -> (r: Vec<ScanLine>)
        requires
            self.wf(),
        ensures
            r@ == scan_lines_spec(self@.data, model_line_width(self@), 0, model_height(self@) as nat),
    {
        let h = self.png.height() as usize;
        self.png.scan_lines_from(0, h)
    }

    /// Handles on scanlines `from .. from + lines`, those whose first byte the buffer holds
    /// and is a known filter type.
    pub fn scan_lines_from(&self, from: usize, lines: usize) -> (r: Vec<ScanLine>)
        requires
            self.wf(),
        ensures
            r@ == scan_lines_spec(self@.data, model_line_width(self@), from as int, lines as nat),
    {
        self.png.scan_lines_from(from, lines)
    }

    /// Makes `edit` to each scanline, top to bottom.
    pub fn foreach_scanline(&mut self, edit: ScanLineEdit)
        requires
            old(self).wf(),
        ensures
            final(self).wf(),
            final(self)@ == (PngModel {
                data: edited(old(self)@.data, model_line_width(old(self)@), model_height(old(self)@), edit),
                ..old(self)@
            }),
    {
        self.png.foreach_scanline(edit)
    }

    /// Appends the image as a PNG byte stream to `buffer`; on failure `buffer` is
    /// unchanged. It fails only where the buffer, or its compressed form, is longer than
    /// one chunk's length field allows. What is written parses back to this image.
    pub fn encode(&self, buffer: &mut Vec<u8>) -> (r: Result<(), PngError>)
        requires
            self.wf(),
        ensures
            r is Ok ==> final(buffer)@ == old(buffer)@ + png_bytes(self@),
            r is Ok ==> parse_spec(png_bytes(self@)) == Ok::<PngModel, PngError>(self@),
            r is Err ==> r == Err::<(), PngError>(PngError::EncodingFailed) && final(buffer)@ == old(
                buffer,
            )@,
            r is Err <==> (self@.data.len() > u32::MAX || zlib_deflated(self@.data).len() > u32::MAX),
    {
        self.png.encode(buffer)
    }

    /// The image width in pixels.
    pub fn width(&self) -> (r: u32)
        requires
            self.wf(),
        ensures
            r == header_width(self@.header.data),
    {
        self.png.width()
    }

    /// The image height in scanlines.
    pub fn height(&self) -> (r: u32)
        requires
            self.wf(),
        ensures
            r == model_height(self@),
    {
        self.png.height()
    }

    /// Bytes per scanline, the filter-type byte included.
    pub fn scan_line_width(&self) -> (r: usize)
        requires
            self.wf(),
        ensures
            r == model_line_width(self@),
    {
        self.png.scan_line_width()
    }

    /// The header chunk and the geometry read from it.
    pub fn header(&self) -> (r: &Header)
        requires
            self.wf(),
        ensures
            r.inner@ == self@.header,
            r.wf(),
    {
        &self.png.header
    }

    /// The decoded pixel buffer, filter-type bytes included.
    pub fn data(&self) -> (r: &[u8])
        ensures
            r@ == self@.data,
    {
        self.png.data.as_slice()
    }

    /// Copies scanlines `src .. src + lines` over scanlines `dst .. dst + lines`; the
    /// source keeps its bytes unless the ranges overlap. Nothing changes where the
    /// buffer does not hold both ranges.
    pub fn transpose(&mut self, src: usize, dst: usize, lines: u32)
        requires
            old(self).wf(),
        ensures
            final(self).wf(),
            final(self)@ == (PngModel {
                data: transposed(
                    old(self)@.data,
                    model_line_width(old(self)@),
                    src as int,
                    dst as int,
                    lines as int,
                ),
                ..old(self)@
            }),
    {
        self.png.transpose(src, dst, lines)
    }

    /// Decodes every scanline and marks it as unfiltered.
    pub fn remove_filter(&mut self)
        requires
            old(self).wf(),
        ensures
            final(self).wf(),
            final(self)@ == (PngModel {
                data: unfiltered_data(
                    old(self)@.data,
                    model_line_width(old(self)@),
                    model_bpp(old(self)@),
                    model_lines(old(self)@),
                ),
                ..old(self)@
            }),
    {
        self.png.remove_filter()
    }

    /// Encodes every scanline with `filter` and marks it so.
    pub fn apply_filter(&mut self, filter: FilterType)
        requires
            old(self).wf(),
        ensures
            final(self).wf(),
            final(self)@ == (PngModel {
                data: filtered_data(
                    old(self)@.data,
                    model_line_width(old(self)@),
                    model_bpp(old(self)@),
                    model_lines(old(self)@),
                    filter,
                ),
                ..old(self)@
            }),
    {
        self.png.apply_filter(filter)
    }

    /// Hands the whole decoded buffer over for byte-level changes.
    pub fn glitch(self) -> (r: GlitchContext)
        requires
            self.wf(),
        ensures
            r.wf(),
            r@ == self@,
    {
        GlitchContext::new(self)
    }
}

/// The buffer after the payload of `src` was copied over the payload of `dest`, as many
/// bytes as both hold, and `dest` was marked with the filter type of `src`.
pub open spec fn copied_line(data: Seq<u8>, src: ScanLine, dest: ScanLine) -> Seq<u8> {
    let p = src.payload(data);
    let n = min(p.len() as int, dest.payload(data).len() as int);
    let written = Seq::new(
        data.len(),
        |j: int|
            if dest.payload_start() <= j < dest.payload_start() + n {
                p[j - dest.payload_start()]
            } else {
                data[j]
            },
    );
    if dest.range.start < data.len() {
        written.update(dest.range.start as int, src.filter_type.code())
    } else {
        written
    }
}

/// Direct access to the whole decoded buffer, filter-type bytes included, with the
/// image geometry; `finish` hands the image back.
pub struct GlitchContext {
    png: PngGlitch,
}

impl View for GlitchContext {
    type V = PngModel;

    closed spec fn view(&self) -> PngModel {
        self.png@
    }
}

impl GlitchContext {
    pub closed spec fn wf(&self) -> bool {
        self.png.wf()
    }

    pub fn new(png: PngGlitch) -> (r: GlitchContext)
        requires
            png.wf(),
        ensures
            r.wf(),
            r@ == png@,
    {
        GlitchContext { png }
    }

    /// The image width in pixels.
    pub fn width(&self) -> (r: u32)
        requires
            self.wf(),
        ensures
            r == header_width(self@.header.data),
    {
        self.png.width()
    }

    /// The image height in scanlines.
    pub fn height(&self) -> (r: u32)
        requires
            self.wf(),
        ensures
            r == model_height(self@),
    {
        self.png.height()
    }

    /// Bytes per scanline, the filter-type byte included.
    pub fn scan_line_width(&self) -> (r: usize)
        requires
            self.wf(),
        ensures
            r == model_line_width(self@),
    {
        self.png.scan_line_width()
    }

    /// Handles on all scanlines of the image.
    pub fn scan_lines(&self) -> (r: Vec<ScanLine>)
        requires
            self.wf(),
        ensures
            r@ == scan_lines_spec(self@.data, model_line_width(self@), 0, model_height(self@) as nat),
    {
        self.png.scan_lines()
    }

    /// The decoded buffer.
    pub fn data(&self) -> (r: &[u8])
        ensures
            r@ == self@.data,
    {
        self.png.data()
    }

    /// Sets byte `index` of the decoded buffer; does nothing past its end.
    pub fn update(&mut self, index: usize, value: u8)
        requires
            old(self).wf(),
        ensures
            final(self).wf(),
            index < old(self)@.data.len() ==> final(self)@ == (PngModel {
                data: old(self)@.data.update(index as int, value),
                ..old(self)@
            }),
            index >= old(self)@.data.len() ==> final(self)@ == old(self)@,
    {
        if index < self.png.png.data.len() {
            self.png.png.data.set(index, value);
        }
        assert(self.png.png.header == old(self).png.png.header);
        assert(self.png.png@.misc == old(self).png.png@.misc);
    }

    /// Sets the filter type of the scanline `line`, in the buffer and in the handle
    /// together; where the buffer does not hold its filter-type byte, neither changes.
    pub fn set_filter_type(&mut self, line: &mut ScanLine, filter_type: FilterType)
        requires
            old(self).wf(),
        ensures
            final(self).wf(),
            old(line).range.start < old(self)@.data.len() ==> final(line).filter_type == filter_type
                && final(self)@ == (PngModel {
                data: old(self)@.data.update(old(line).range.start as int, filter_type.code()),
                ..old(self)@
            }),
            old(line).range.start >= old(self)@.data.len() ==> *final(line) == *old(line) && final(self)@
                == old(self)@,
            final(line).range == old(line).range,
    {
        line.set_filter_type(&mut self.png.png.data, filter_type);
        assert(self.png.png.header == old(self).png.png.header);
        assert(self.png.png@.misc == old(self).png.png@.misc);
    }

    /// Sets payload byte `index` of the scanline `line`; does nothing where it is outside
    /// the scanline or the buffer.
    pub fn update_line(&mut self, line: &ScanLine, index: usize, value: u8)
        requires
            old(self).wf(),
        ensures
            final(self).wf(),
            index < line.payload(old(self)@.data).len() ==> final(self)@ == (PngModel {
                data: old(self)@.data.update(line.payload_start() + index, value),
                ..old(self)@
            }),
            index >= line.payload(old(self)@.data).len() ==> final(self)@ == old(self)@,
    {
        line.update(&mut self.png.png.data, index, value);
        assert(self.png.png.header == old(self).png.png.header);
        assert(self.png.png@.misc == old(self).png.png@.misc);
    }

    /// Copies the front of `buf` over the payload of the scanline `line`, as many bytes as
    /// both hold, and returns how many.
    pub fn write_line(&mut self, line: &ScanLine, buf: &[u8]) -> (r: usize)
        requires
            old(self).wf(),
        ensures
            final(self).wf(),
            r == min(line.payload(old(self)@.data).len() as int, buf@.len() as int),
            final(self)@ == (PngModel {
                data: Seq::new(
                    old(self)@.data.len(),
                    |j: int|
                        if line.payload_start() <= j < line.payload_start() + r {
                            buf@[j - line.payload_start()]
                        } else {
                            old(self)@.data[j]
                        },
                ),
                ..old(self)@
            }),
    {
        let r = line.write(&mut self.png.png.data, buf);
        assert(self.png.png.header == old(self).png.png.header);
        assert(self.png.png@.misc == old(self).png.png@.misc);
        assert(self.png.png.data@ =~= Seq::new(
            old(self)@.data.len(),
            |j: int|
                if line.payload_start() <= j < line.payload_start() + r {
                    buf@[j - line.payload_start()]
                } else {
                    old(self)@.data[j]
                },
        ));
        r
    }

    /// Copies the payload of `src` over the payload of `dest`, as many bytes as both hold,
    /// and marks `dest` with the filter type of `src`, in the buffer and in the handle.
    pub fn copy_scan_line(&mut self, src: &ScanLine, dest: &mut ScanLine)
        requires
            old(self).wf(),
        ensures
            final(self).wf(),
            final(self)@ == (PngModel { data: copied_line(old(self)@.data, *src, *old(dest)), ..old(self)@ }),
            old(dest).range.start < old(self)@.data.len() ==> final(dest).filter_type == src.filter_type,
            old(dest).range.start >= old(self)@.data.len() ==> *final(dest) == *old(dest),
            final(dest).range == old(dest).range,
    {
        let ghost before = self.png.png.data@;
        let mut buffer: Vec<u8> = Vec::new();
        src.read_to_end(self.png.png.data.as_slice(), &mut buffer);
        assert(buffer@ =~= src.payload(before));
        dest.write(&mut self.png.png.data, buffer.as_slice());
        let ghost written = self.png.png.data@;
        dest.set_filter_type(&mut self.png.png.data, src.filter_type());
        proof {
            let n = min(src.payload(before).len() as int, old(dest).payload(before).len() as int);
            let expected = Seq::new(
                before.len(),
                |j: int|
                    if old(dest).payload_start() <= j < old(dest).payload_start() + n {
                        src.payload(before)[j - old(dest).payload_start()]
                    } else {
                        before[j]
                    },
            );
            assert(written =~= expected);
        }
        assert(self.png.png.header == old(self).png.png.header);
        assert(self.png.png@.misc == old(self).png.png@.misc);
    }

    /// Hands the image back.
    pub fn finish(self) -> (r: PngGlitch)
        requires
            self.wf(),
        ensures
            r.wf(),
            r@ == self@,
    {
        self.png
    }
}

} // verus!
