use std::io::Write;

use png_glitch::PngGlitch;

const SIGNATURE: [u8; 8] = [0x89, 0x50, 0x4E, 0x47, 0x0D, 0x0A, 0x1A, 0x0A];

fn chunk(tag: &[u8; 4], data: &[u8]) -> Vec<u8> {
    let mut out = Vec::new();
    out.extend_from_slice(&(data.len() as u32).to_be_bytes());
    out.extend_from_slice(tag);
    out.extend_from_slice(data);
    let mut tagged = tag.to_vec();
    tagged.extend_from_slice(data);
    out.extend_from_slice(&crc32fast::hash(&tagged).to_be_bytes());
    out
}

fn zlib(data: &[u8]) -> Vec<u8> {
    let mut encoder = flate2::write::ZlibEncoder::new(Vec::new(), flate2::Compression::default());
    encoder.write_all(data).unwrap();
    encoder.finish().unwrap()
}

/// A 4x3 true-colour image with an ancillary text chunk before its pixel data.
fn sample00() -> (Vec<u8>, Vec<u8>) {
    let mut ihdr = Vec::new();
    ihdr.extend_from_slice(&4u32.to_be_bytes());
    ihdr.extend_from_slice(&3u32.to_be_bytes());
    ihdr.extend_from_slice(&[8, 2, 0, 0, 0]);
    let mut raw = Vec::new();
    for row in 0..3u8 {
        raw.push(row % 2);
        for i in 0..12u8 {
            raw.push(row * 40 + i * 7);
        }
    }
    let mut png = SIGNATURE.to_vec();
    png.extend(chunk(b"IHDR", &ihdr));
    png.extend(chunk(b"tEXt", b"Comment\0sample"));
    png.extend(chunk(b"IDAT", &zlib(&raw)));
    png.extend(chunk(b"IEND", &[]));
    (png, raw)
}

#[test]
fn png_test_encode_ihdr() {
    let (bytes, _) = sample00();
    let png = PngGlitch::new(bytes).expect("the sample parses");
    let header = png.header();
    let mut buffer = vec![];
    header.inner.encode(&mut buffer);
    assert_eq!(&buffer[0..4], &(header.inner.length() as u32).to_be_bytes());
    assert_eq!(&buffer[4..8], b"IHDR");
    assert_eq!(&buffer[8..21], &header.inner.data[..]);
    assert_eq!(&buffer[21..25], &header.inner.crc);
}

#[test]
fn png_test_encode() {
    let (bytes, _) = sample00();
    let png = PngGlitch::new(bytes).expect("the sample parses");
    let mut buffer = vec![];
    png.encode(&mut buffer).expect("the image encodes");
    let another = PngGlitch::new(buffer).expect("the encoded image parses");
    let decoded_data_size = png.data().len();
    for i in 0..decoded_data_size {
        assert_eq!(png.data()[i], another.data()[i]);
    }
}

#[test]
fn encoder_test_encode_ihdr() {
    let (bytes, _) = sample00();
    let png = PngGlitch::new(bytes).expect("the sample parses");
    let header = png.header();
    let mut buffer = vec![];
    header.inner.encode(&mut buffer);
    assert_eq!(&buffer[0..4], &(header.inner.length() as u32).to_be_bytes());
    assert_eq!(&buffer[4..8], b"IHDR");
    assert_eq!(&buffer[8..21], &header.inner.data[..]);
    assert_eq!(&buffer[21..25], &header.inner.crc);
}

#[test]
fn encoder_test_encode() {
    let (bytes, _) = sample00();
    let png = PngGlitch::new(bytes).expect("the sample parses");
    let mut buffer = vec![];
    png.encode(&mut buffer).expect("the image encodes");
    let another = PngGlitch::new(buffer).expect("the encoded image parses");
    assert_eq!(png.data().len(), another.data().len());
    for i in 0..png.data().len() {
        assert_eq!(png.data()[i], another.data()[i]);
    }
}

#[test]
fn png_encoder_test_encode_ihdr() {
    let (bytes, _) = sample00();
    let png = PngGlitch::new(bytes).expect("the sample parses");
    let header = png.header();
    let mut buffer = vec![];
    header.inner.encode(&mut buffer);
    assert_eq!(&buffer[0..4], &(header.inner.length() as u32).to_be_bytes());
    assert_eq!(&buffer[4..8], b"IHDR");
    assert_eq!(&buffer[8..21], &header.inner.data[..]);
    assert_eq!(&buffer[21..25], &header.inner.crc);
}

#[test]
fn decoded_data_is_the_inflated_payload() {
    let (bytes, raw) = sample00();
    let png = PngGlitch::new(bytes).expect("the sample parses");
    assert_eq!(png.data(), &raw[..]);
    assert_eq!(png.width(), 4);
    assert_eq!(png.height(), 3);
    assert_eq!(png.scan_line_width(), 13);
}

#[test]
fn encoded_stream_layout() {
    let (bytes, raw) = sample00();
    let png = PngGlitch::new(bytes.clone()).expect("the sample parses");
    let mut buffer = vec![7u8];
    png.encode(&mut buffer).expect("the image encodes");
    assert_eq!(buffer[0], 7);
    let out = &buffer[1..];
    assert_eq!(&out[0..8], &SIGNATURE);
    // header chunk and text chunk are written byte for byte as they were read
    let header_and_text = 25 + 12 + 14;
    assert_eq!(&out[8..8 + header_and_text], &bytes[8..8 + header_and_text]);
    let idat_at = 8 + header_and_text;
    let len = u32::from_be_bytes([out[idat_at], out[idat_at + 1], out[idat_at + 2], out[idat_at + 3]]) as usize;
    assert_eq!(&out[idat_at + 4..idat_at + 8], b"IDAT");
    let compressed = &out[idat_at + 8..idat_at + 8 + len];
    assert_ne!(compressed, &raw[..]);
    let mut decoder = flate2::read::ZlibDecoder::new(compressed);
    let mut inflated = Vec::new();
    std::io::Read::read_to_end(&mut decoder, &mut inflated).unwrap();
    assert_eq!(inflated, raw);
    let mut tagged = b"IDAT".to_vec();
    tagged.extend_from_slice(compressed);
    let crc = &out[idat_at + 8 + len..idat_at + 12 + len];
    assert_eq!(crc, &crc32fast::hash(&tagged).to_be_bytes());
    assert_eq!(&out[idat_at + 12 + len..], &chunk(b"IEND", &[])[..]);
}
