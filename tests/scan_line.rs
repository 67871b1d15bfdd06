use png_glitch::{FilterType, MemoryRange, ScanLine};

fn target() -> (Vec<u8>, ScanLine) {
    let buffer: Vec<u8> = vec![0, 1, 2, 3, 4, 5];
    let scan_line = ScanLine::new(FilterType::NoFilter, MemoryRange::new(0, buffer.len()));
    (buffer, scan_line)
}

#[test]
fn test_read() {
    let (data, scan_line) = target();
    let mut buffer = vec![0; scan_line.size()];
    let result = scan_line.read(&data, &mut buffer);
    assert_eq!(result, buffer.len());
    assert_eq!(scan_line.size(), buffer.len());
    assert_eq!(&data[1..], &buffer[..]);
}

#[test]
fn test_read_to_end() {
    let (data, scan_line) = target();
    let mut buffer = vec![];
    let size = scan_line.size();
    let result = scan_line.read_to_end(&data, &mut buffer);
    assert_eq!(result, size);
    assert_eq!(&data[1..], &buffer[0..size]);
}

#[test]
fn test_write() {
    let (mut data, scan_line) = target();
    let size = scan_line.size();
    let buffer = vec![10; size];
    let result = scan_line.write(&mut data, &buffer);
    assert_eq!(buffer.len(), result);
    assert_eq!(&buffer[..], &data[1..]);
}

#[test]
fn index_outside_the_scanline_is_none() {
    let data: Vec<u8> = vec![1, 10, 11, 12, 2, 20, 21, 22];
    let line = ScanLine::new(FilterType::Sub, MemoryRange::new(0, 4));
    assert_eq!(line.index(&data, 0), Some(10));
    assert_eq!(line.index(&data, 2), Some(12));
    assert_eq!(line.index(&data, 3), None);
    let mut copy = data.clone();
    line.update(&mut copy, 3, 99);
    assert_eq!(copy, data);
    line.update(&mut copy, 1, 99);
    assert_eq!(copy, vec![1, 10, 99, 12, 2, 20, 21, 22]);
}

#[test]
fn set_filter_type_writes_the_buffer() {
    let mut data: Vec<u8> = vec![0, 10, 11, 12];
    let mut line = ScanLine::from_range(MemoryRange::new(0, 4), &data).unwrap();
    assert_eq!(line.filter_type(), FilterType::NoFilter);
    line.set_filter_type(&mut data, FilterType::Paeth);
    assert_eq!(line.filter_type(), FilterType::Paeth);
    assert_eq!(data, vec![4, 10, 11, 12]);
}

#[test]
fn scanline_with_unknown_filter_byte_is_refused() {
    let data: Vec<u8> = vec![9, 10, 11, 12];
    assert_eq!(ScanLine::from_range(MemoryRange::new(0, 4), &data), Err(png_glitch::PngError::InvalidFilterType));
    assert_eq!(ScanLine::from_range(MemoryRange::new(4, 8), &data), Err(png_glitch::PngError::TooShortInput));
}

#[test]
fn short_read_and_write_stop_at_the_smaller() {
    let mut data: Vec<u8> = vec![0, 1, 2, 3, 4, 5];
    let line = ScanLine::new(FilterType::NoFilter, MemoryRange::new(0, 6));
    let mut small = vec![9, 9];
    assert_eq!(line.read(&data, &mut small), 2);
    assert_eq!(small, vec![1, 2]);
    assert_eq!(line.write(&mut data, &[7, 7, 7]), 3);
    assert_eq!(data, vec![0, 7, 7, 7, 4, 5]);
    let mut long = vec![9; 8];
    assert_eq!(line.read(&data, &mut long), 5);
    assert_eq!(long, vec![7, 7, 7, 4, 5, 9, 9, 9]);
}
