use std::io::Write;

use png_glitch::{FilterType, PngError, PngGlitch, ScanLineEdit};

const SIGNATURE: [u8; 8] = [0x89, 0x50, 0x4E, 0x47, 0x0D, 0x0A, 0x1A, 0x0A];

fn chunk(tag: &[u8; 4], data: &[u8]) -> Vec<u8> {
    let mut out = Vec::new();
    out.extend_from_slice(&(data.len() as u32).to_be_bytes());
    out.extend_from_slice(tag);
    out.extend_from_slice(data);
    let mut tagged = tag.to_vec();
    tagged.extend_from_slice(data);
    out.extend_from_slice(&crc32fast::hash(&tagged).to_be_bytes());
    out
}

fn zlib(data: &[u8]) -> Vec<u8> {
    let mut encoder = flate2::write::ZlibEncoder::new(Vec::new(), flate2::Compression::default());
    encoder.write_all(data).unwrap();
    encoder.finish().unwrap()
}

fn ihdr(width: u32, height: u32, depth: u8, color: u8) -> Vec<u8> {
    let mut d = Vec::new();
    d.extend_from_slice(&width.to_be_bytes());
    d.extend_from_slice(&height.to_be_bytes());
    d.extend_from_slice(&[depth, color, 0, 0, 0]);
    chunk(b"IHDR", &d)
}

/// A grey 8-bit image of `height` scanlines of `width` pixels; scanline `k` is stored
/// with filter `filter` and payload bytes `k * 16 + i`.
fn grey(width: u32, height: u32, filter: u8) -> (Vec<u8>, Vec<u8>) {
    let mut raw = Vec::new();
    for k in 0..height {
        raw.push(filter);
        for i in 0..width {
            raw.push((k * 16 + i) as u8);
        }
    }
    let mut png = SIGNATURE.to_vec();
    png.extend(ihdr(width, height, 8, 0));
    png.extend(chunk(b"IDAT", &zlib(&raw)));
    png.extend(chunk(b"IEND", &[]));
    (png, raw)
}

fn line(data: &[u8], w: usize, k: usize) -> Vec<u8> {
    data[k * w..(k + 1) * w].to_vec()
}

#[test]
fn transpose_overwrites_destination_and_keeps_source() {
    let (bytes, raw) = grey(5, 10, 0);
    let mut png = PngGlitch::new(bytes).unwrap();
    let w = png.scan_line_width();
    assert_eq!(w, 6);
    png.transpose(2, 6, 3);
    let data = png.data();
    for k in [0usize, 1, 5, 9] {
        assert_eq!(line(data, w, k), line(&raw, w, k));
    }
    for k in 2..5usize {
        assert_eq!(line(data, w, k), line(&raw, w, k));
        assert_eq!(line(data, w, k + 4), line(&raw, w, k));
    }
}

#[test]
fn transpose_out_of_range_changes_nothing() {
    let (bytes, raw) = grey(5, 10, 0);
    let mut png = PngGlitch::new(bytes).unwrap();
    png.transpose(8, 0, 3);
    assert_eq!(png.data(), &raw[..]);
    png.transpose(0, usize::MAX, 1);
    assert_eq!(png.data(), &raw[..]);
}

#[test]
fn apply_after_remove_restores_the_stored_bytes() {
    let (bytes, raw) = grey(6, 4, 1);
    let mut png = PngGlitch::new(bytes).unwrap();
    png.remove_filter();
    assert_ne!(png.data(), &raw[..]);
    for k in 0..4 {
        assert_eq!(png.data()[k * 7], 0);
    }
    png.apply_filter(FilterType::Sub);
    assert_eq!(png.data(), &raw[..]);
}

#[test]
fn remove_filter_decodes_each_scanline() {
    // two scanlines of three grey pixels: Sub, then Up
    let raw: Vec<u8> = vec![1, 5, 1, 1, 2, 10, 10, 10];
    let mut bytes = SIGNATURE.to_vec();
    bytes.extend(ihdr(3, 2, 8, 0));
    bytes.extend(chunk(b"IDAT", &zlib(&raw)));
    bytes.extend(chunk(b"IEND", &[]));
    let mut png = PngGlitch::new(bytes).unwrap();
    png.remove_filter();
    assert_eq!(png.data(), &[0, 5, 6, 7, 0, 15, 16, 17]);
    png.apply_filter(FilterType::Up);
    assert_eq!(png.data(), &[2, 5, 6, 7, 2, 10, 10, 10]);
}

#[test]
fn foreach_scanline_edits_every_scanline() {
    let (bytes, raw) = grey(3, 3, 1);
    let mut png = PngGlitch::new(bytes).unwrap();
    png.foreach_scanline(ScanLineEdit::SetFilterType(FilterType::NoFilter));
    png.foreach_scanline(ScanLineEdit::Substitute { index: 1, value: 0 });
    png.foreach_scanline(ScanLineEdit::Substitute { index: 3, value: 99 });
    let mut expected = raw.clone();
    for k in 0..3 {
        expected[k * 4] = 0;
        expected[k * 4 + 2] = 0;
    }
    assert_eq!(png.data(), &expected[..]);
}

#[test]
fn scan_lines_skip_unknown_filter_bytes() {
    let (bytes, _) = grey(3, 3, 0);
    let png = PngGlitch::new(bytes).unwrap();
    let mut context = png.glitch();
    context.update(4, 7);
    assert_eq!(context.width(), 3);
    assert_eq!(context.height(), 3);
    assert_eq!(context.scan_line_width(), 4);
    let lines = context.scan_lines();
    assert_eq!(lines.len(), 2);
    assert_eq!(lines[0].range.start, 0);
    assert_eq!(lines[1].range.start, 8);
    let png = context.finish();
    assert_eq!(png.scan_lines_from(1, 5).len(), 1);
    assert_eq!(png.scan_lines().len(), 2);
}

#[test]
fn invalid_signature_is_refused() {
    let (mut bytes, _) = grey(2, 2, 0);
    bytes[1] = b'Q';
    assert!(matches!(PngGlitch::new(bytes), Err(PngError::InvalidSignature)));
    assert!(matches!(PngGlitch::new(vec![0x89, 0x50]), Err(PngError::InvalidSignature)));
}

#[test]
fn second_terminator_is_refused() {
    let (mut bytes, _) = grey(2, 2, 0);
    bytes.extend(chunk(b"tEXt", b"after"));
    bytes.extend(chunk(b"IEND", &[]));
    assert!(matches!(PngGlitch::new(bytes), Err(PngError::DuplicateIENDFound)));
}

#[test]
fn other_bytes_after_the_terminator_are_ignored() {
    let (mut bytes, raw) = grey(2, 2, 0);
    bytes.extend(chunk(b"IDAT", &[1, 2, 3]));
    bytes.extend_from_slice(&[1, 2, 3]);
    let png = PngGlitch::new(bytes).unwrap();
    assert_eq!(png.data(), &raw[..]);
}

#[test]
fn missing_and_duplicate_chunks() {
    let raw: Vec<u8> = vec![0, 1, 0, 2];
    let idat = chunk(b"IDAT", &zlib(&raw));
    let iend = chunk(b"IEND", &[]);
    let head = ihdr(1, 2, 8, 0);

    let mut no_header = SIGNATURE.to_vec();
    no_header.extend(idat.clone());
    no_header.extend(iend.clone());
    assert!(matches!(PngGlitch::new(no_header), Err(PngError::NoIHDRFound)));

    let mut no_end = SIGNATURE.to_vec();
    no_end.extend(head.clone());
    no_end.extend(idat.clone());
    assert!(matches!(PngGlitch::new(no_end), Err(PngError::NoIENDFound)));

    let mut no_data = SIGNATURE.to_vec();
    no_data.extend(head.clone());
    no_data.extend(iend.clone());
    assert!(matches!(PngGlitch::new(no_data), Err(PngError::NoIDATFound)));

    let mut two_headers = SIGNATURE.to_vec();
    two_headers.extend(head.clone());
    two_headers.extend(head.clone());
    two_headers.extend(idat.clone());
    two_headers.extend(iend.clone());
    assert!(matches!(PngGlitch::new(two_headers), Err(PngError::DuplicateIHDRFound)));
}

#[test]
fn split_pixel_data_is_concatenated() {
    let raw: Vec<u8> = vec![0, 1, 2, 0, 3, 4];
    let compressed = zlib(&raw);
    let (a, b) = compressed.split_at(compressed.len() / 2);
    let mut bytes = SIGNATURE.to_vec();
    bytes.extend(ihdr(2, 2, 8, 0));
    bytes.extend(chunk(b"IDAT", a));
    bytes.extend(chunk(b"tIME", &[1, 2, 3, 4, 5, 6, 7]));
    bytes.extend(chunk(b"IDAT", b));
    bytes.extend(chunk(b"IEND", &[]));
    let png = PngGlitch::new(bytes).unwrap();
    assert_eq!(png.data(), &raw[..]);
}

#[test]
fn malformed_contents_are_refused() {
    let raw: Vec<u8> = vec![0, 1];
    let mut truncated = SIGNATURE.to_vec();
    truncated.extend(ihdr(1, 1, 8, 0));
    let idat = chunk(b"IDAT", &zlib(&raw));
    truncated.extend_from_slice(&idat[..idat.len() - 2]);
    assert!(matches!(PngGlitch::new(truncated), Err(PngError::TooShortInput)));

    let mut bad_color = SIGNATURE.to_vec();
    bad_color.extend(ihdr(1, 1, 8, 5));
    bad_color.extend(chunk(b"IDAT", &zlib(&raw)));
    bad_color.extend(chunk(b"IEND", &[]));
    assert!(matches!(PngGlitch::new(bad_color), Err(PngError::InvalidColorType)));

    let mut short_header = SIGNATURE.to_vec();
    short_header.extend(chunk(b"IHDR", &[0, 0, 0, 1]));
    assert!(matches!(PngGlitch::new(short_header), Err(PngError::TooShortInput)));

    let mut bad_data = SIGNATURE.to_vec();
    bad_data.extend(ihdr(1, 1, 8, 0));
    bad_data.extend(chunk(b"IDAT", &[1, 2, 3, 4]));
    bad_data.extend(chunk(b"IEND", &[]));
    assert!(matches!(PngGlitch::new(bad_data), Err(PngError::InvalidImageData)));
}

#[test]
fn geometry_of_packed_and_wide_pixels() {
    // 10 pixels of 1-bit grey: 10 bits, two bytes, plus the filter byte
    let mut bytes = SIGNATURE.to_vec();
    bytes.extend(ihdr(10, 1, 1, 0));
    bytes.extend(chunk(b"IDAT", &zlib(&[0, 0, 0])));
    bytes.extend(chunk(b"IEND", &[]));
    let png = PngGlitch::new(bytes).unwrap();
    assert_eq!(png.scan_line_width(), 3);
    assert_eq!(png.header().bytes_per_pixel(), 1);

    // 2 pixels of 16-bit RGBA: 8 bytes a pixel
    let mut bytes = SIGNATURE.to_vec();
    bytes.extend(ihdr(2, 1, 16, 6));
    bytes.extend(chunk(b"IDAT", &zlib(&[0; 17])));
    bytes.extend(chunk(b"IEND", &[]));
    let png = PngGlitch::new(bytes).unwrap();
    assert_eq!(png.scan_line_width(), 17);
    assert_eq!(png.header().bytes_per_pixel(), 8);
}

#[test]
fn copy_scan_line_copies_payload_and_filter_type() {
    let (bytes, raw) = grey(3, 3, 0);
    let png = PngGlitch::new(bytes).unwrap();
    let mut context = png.glitch();
    context.update(0, 2);
    let mut lines = context.scan_lines();
    let src = lines[0];
    assert_eq!(src.filter_type(), FilterType::Up);
    context.copy_scan_line(&src, &mut lines[2]);
    assert_eq!(lines[2].filter_type(), FilterType::Up);
    let png = context.finish();
    let mut expected = raw.clone();
    expected[0] = 2;
    expected[8] = 2;
    expected[9] = raw[1];
    expected[10] = raw[2];
    expected[11] = raw[3];
    assert_eq!(png.data(), &expected[..]);
}

#[test]
fn remove_filter_keeps_scanlines_with_unknown_filter_bytes() {
    // three scanlines of two grey pixels: Sub, unknown (9), Up
    let raw: Vec<u8> = vec![1, 5, 1, 9, 7, 8, 2, 1, 1];
    let mut bytes = SIGNATURE.to_vec();
    bytes.extend(ihdr(2, 3, 8, 0));
    bytes.extend(chunk(b"IDAT", &zlib(&raw)));
    bytes.extend(chunk(b"IEND", &[]));
    let mut png = PngGlitch::new(bytes).unwrap();
    png.remove_filter();
    // the Up scanline adds the bytes above it as they stand
    assert_eq!(png.data(), &[0, 5, 6, 9, 7, 8, 0, 8, 9]);
}

#[test]
fn scan_lines_span_whole_scanlines() {
    // the decoded buffer holds one and a half scanlines of an image three scanlines high
    let raw: Vec<u8> = vec![0, 1, 2, 3, 0, 4];
    let mut bytes = SIGNATURE.to_vec();
    bytes.extend(ihdr(3, 3, 8, 0));
    bytes.extend(chunk(b"IDAT", &zlib(&raw)));
    bytes.extend(chunk(b"IEND", &[]));
    let png = PngGlitch::new(bytes).unwrap();
    let lines = png.scan_lines();
    assert_eq!(lines.len(), 2);
    assert_eq!(lines[1].range.start, 4);
    assert_eq!(lines[1].range.end, 8);
    assert_eq!(lines[1].size(), 3);
    assert_eq!(lines[1].index(png.data(), 0), Some(4));
    assert_eq!(lines[1].index(png.data(), 1), None);
}

#[test]
fn glitch_context_edits_through_handles() {
    let (bytes, raw) = grey(3, 2, 0);
    let png = PngGlitch::new(bytes).unwrap();
    let mut context = png.glitch();
    let mut lines = context.scan_lines();
    let mut second = lines.remove(1);
    context.set_filter_type(&mut second, FilterType::Average);
    assert_eq!(second.filter_type(), FilterType::Average);
    context.update_line(&second, 0, 200);
    context.update_line(&second, 3, 201);
    assert_eq!(context.write_line(&lines[0], &[7, 8, 9, 10]), 3);
    let png = context.finish();
    let mut expected = raw.clone();
    expected[1] = 7;
    expected[2] = 8;
    expected[3] = 9;
    expected[4] = 3;
    expected[5] = 200;
    assert_eq!(png.data(), &expected[..]);
}
