use png_glitch::filter::{add_without_overflow, apply, predict, remove, sub_without_overflow};
use png_glitch::FilterType;

#[test]
fn paeth_of_equal_neighbours() {
    for a in 0..=255u8 {
        assert_eq!(predict(a, a, a), a);
    }
}

#[test]
fn paeth_takes_the_nearest_neighbour() {
    // p = 5 + 10 - 5 = 10: above is nearest
    assert_eq!(predict(5, 10, 5), 10);
    // p = 10 + 5 - 5 = 10: left is nearest
    assert_eq!(predict(10, 5, 5), 10);
    // p = 3 + 3 - 3 = 3 ties: left wins
    assert_eq!(predict(3, 3, 3), 3);
    // p = 100 + 50 - 200 = -50: |p-a|=150, |p-b|=100, |p-c|=250
    assert_eq!(predict(100, 50, 200), 50);
    // p = 20 + 30 - 40 = 10: |p-a|=10, |p-b|=20, |p-c|=30
    assert_eq!(predict(20, 30, 40), 20);
    // p = 200 + 201 - 10 = 391: |p-a|=191, |p-b|=190, |p-c|=381
    assert_eq!(predict(200, 201, 10), 201);
}

#[test]
fn wrapping_byte_arithmetic() {
    assert_eq!(add_without_overflow(200, 100), 44);
    assert_eq!(sub_without_overflow(10, 20), 246);
    assert_eq!(sub_without_overflow(20, 10), 10);
}

#[test]
fn sub_filter_treats_left_edge_as_zero() {
    // filter byte, then one scanline of two 3-byte pixels
    let mut data: Vec<u8> = vec![1, 10, 20, 30, 1, 2, 3];
    remove(&mut data, FilterType::Sub, 1, 6, None, 3);
    assert_eq!(data, vec![1, 10, 20, 30, 11, 22, 33]);
    apply(&mut data, FilterType::Sub, 1, 6, None, 3);
    assert_eq!(data, vec![1, 10, 20, 30, 1, 2, 3]);
}

#[test]
fn sub_filter_wraps_modulo_256() {
    let mut data: Vec<u8> = vec![200, 100];
    remove(&mut data, FilterType::Sub, 0, 2, None, 1);
    assert_eq!(data, vec![200, 44]);
}

#[test]
fn up_filter_on_first_scanline_changes_nothing() {
    let mut data: Vec<u8> = vec![2, 5, 6, 7, 8];
    remove(&mut data, FilterType::Up, 1, 4, None, 1);
    assert_eq!(data, vec![2, 5, 6, 7, 8]);
    apply(&mut data, FilterType::Up, 1, 4, None, 1);
    assert_eq!(data, vec![2, 5, 6, 7, 8]);
}

#[test]
fn up_filter_adds_the_byte_above() {
    let mut data: Vec<u8> = vec![0, 10, 20, 2, 1, 250];
    remove(&mut data, FilterType::Up, 4, 2, Some(1), 1);
    assert_eq!(data, vec![0, 10, 20, 2, 11, 14]);
}

#[test]
fn average_filter_uses_left_and_above() {
    // above = [10, 20], stored = [1, 2], bpp = 1
    // raw[0] = 1 + (0 + 10) / 2 = 6; raw[1] = 2 + (6 + 20) / 2 = 15
    let mut data: Vec<u8> = vec![0, 10, 20, 3, 1, 2];
    remove(&mut data, FilterType::Average, 4, 2, Some(1), 1);
    assert_eq!(data, vec![0, 10, 20, 3, 6, 15]);
    apply(&mut data, FilterType::Average, 4, 2, Some(1), 1);
    assert_eq!(data, vec![0, 10, 20, 3, 1, 2]);
}

#[test]
fn paeth_filter_uses_three_neighbours() {
    // above = [10, 20], stored = [1, 2], bpp = 1
    // raw[0] = 1 + paeth(0, 10, 0) = 11; raw[1] = 2 + paeth(11, 20, 10) = 2 + 20 = 22
    let mut data: Vec<u8> = vec![0, 10, 20, 4, 1, 2];
    remove(&mut data, FilterType::Paeth, 4, 2, Some(1), 1);
    assert_eq!(data, vec![0, 10, 20, 4, 11, 22]);
    apply(&mut data, FilterType::Paeth, 4, 2, Some(1), 1);
    assert_eq!(data, vec![0, 10, 20, 4, 1, 2]);
}

#[test]
fn filter_type_bytes() {
    assert_eq!(FilterType::from_byte(3), Ok(FilterType::Average));
    assert_eq!(FilterType::from_byte(5), Err(png_glitch::PngError::InvalidFilterType));
    assert_eq!(FilterType::Paeth.as_byte(), 4);
    assert_eq!(FilterType::NoFilter.as_byte(), 0);
}
