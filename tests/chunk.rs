use png_glitch::chunk::{Chunk, ChunkType};
use png_glitch::header::{ColorType, Header};
use png_glitch::png::Terminator;
use png_glitch::PngError;

#[test]
fn chunk_parse_reads_four_fields() {
    let bytes: Vec<u8> = vec![0, 0, 0, 2, b't', b'E', b'X', b't', 7, 8, 1, 2, 3, 4, 99];
    let chunk = Chunk::parse(&bytes).unwrap();
    assert_eq!(chunk.chunk_type, ChunkType::Other(*b"tEXt"));
    assert_eq!(chunk.data, vec![7, 8]);
    assert_eq!(chunk.crc, [1, 2, 3, 4]);
    assert_eq!(chunk.consumed_size(), 14);
    let mut out = vec![];
    chunk.encode(&mut out);
    assert_eq!(&out[..], &bytes[..14]);
}

#[test]
fn chunk_parse_needs_every_field() {
    assert!(matches!(Chunk::parse(&[0, 0, 0]), Err(PngError::TooShortInput)));
    assert!(matches!(Chunk::parse(&[0, 0, 0, 1, b'I', b'D']), Err(PngError::TooShortInput)));
    assert!(matches!(Chunk::parse(&[0, 0, 0, 1, b'I', b'D', b'A', b'T', 5, 1, 2, 3]), Err(PngError::TooShortInput)));
}

#[test]
fn chunk_types_are_classified_by_tag() {
    assert_eq!(ChunkType::new(b"IHDR"), Ok(ChunkType::Start));
    assert_eq!(ChunkType::new(b"IDAT"), Ok(ChunkType::Data));
    assert_eq!(ChunkType::new(b"IEND"), Ok(ChunkType::End));
    assert_eq!(ChunkType::new(b"gAMA"), Ok(ChunkType::Other(*b"gAMA")));
    assert_eq!(ChunkType::new(b"IE"), Err(PngError::TooShortInput));
    assert_eq!(ChunkType::End.tag_bytes(), *b"IEND");
}

#[test]
fn header_and_terminator_need_their_kind() {
    let other = Chunk::new(ChunkType::Data, vec![0; 13], [0; 4]);
    assert!(matches!(Header::new(other), Err(PngError::InvalidChunkType)));
    let other = Chunk::new(ChunkType::Start, vec![], [0; 4]);
    assert!(matches!(Terminator::new(other), Err(PngError::InvalidChunkType)));
    let end = Chunk::new(ChunkType::End, vec![], [0; 4]);
    assert!(Terminator::new(end).is_ok());
}

#[test]
fn header_fields() {
    let data = vec![0, 0, 1, 0, 0, 0, 0, 3, 8, 2, 0, 0, 0];
    let header = Header::new(Chunk::new(ChunkType::Start, data, [0; 4])).unwrap();
    assert_eq!(header.width(), 256);
    assert_eq!(header.height(), 3);
    assert_eq!(header.bit_depth(), 8);
    assert_eq!(header.color_type(), ColorType::TrueColor);
    assert_eq!(header.scan_line_width(), 1 + 256 * 3);
    assert_eq!(header.bytes_per_pixel(), 3);
    assert_eq!(ColorType::GrayScaleAlpha.bit_per_pixel(16), 32);
    assert_eq!(ColorType::new(1), Err(PngError::InvalidColorType));
    assert_eq!(ColorType::new(3), Ok(ColorType::IndexColor));
}

#[test]
fn header_needs_the_start_kind_not_only_its_tag() {
    let data = vec![0, 0, 0, 1, 0, 0, 0, 1, 8, 0, 0, 0, 0];
    let forged = Chunk::new(ChunkType::Other(*b"IHDR"), data.clone(), [0; 4]);
    assert!(matches!(Header::new(forged), Err(PngError::InvalidChunkType)));
    let forged = Chunk::new(ChunkType::Other(*b"IEND"), vec![], [0; 4]);
    assert!(matches!(Terminator::new(forged), Err(PngError::InvalidChunkType)));
    assert!(Header::new(Chunk::new(ChunkType::Start, data, [0; 4])).is_ok());
}
