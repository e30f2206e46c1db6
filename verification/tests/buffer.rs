use harmonizer::buffer::{GrayBuffer, PixelBuffer, Rgb};

#[test]
fn from_raw_takes_exactly_three_bytes_a_pixel() {
    let raw: Vec<u8> = vec![1, 2, 3, 4, 5, 6];
    assert!(PixelBuffer::from_raw(2, 1, &raw).is_some());
    assert!(PixelBuffer::from_raw(1, 2, &raw).is_some());
    assert!(PixelBuffer::from_raw(2, 2, &raw).is_none());
    assert!(PixelBuffer::from_raw(1, 1, &raw).is_none());
    assert!(PixelBuffer::from_raw(0, 0, &raw).is_none());
    assert!(PixelBuffer::from_raw(0, 7, &Vec::new()).is_some());
    assert!(PixelBuffer::from_raw(u32::MAX, u32::MAX, &raw).is_none());
}

#[test]
fn raw_bytes_round_trip() {
    let raw: Vec<u8> = (0..24).collect();
    let img = PixelBuffer::from_raw(4, 2, &raw).unwrap();
    assert_eq!(img.width(), 4);
    assert_eq!(img.height(), 2);
    assert_eq!(img.len(), 8);
    assert_eq!(img.to_raw(), raw);
}

#[test]
fn pixels_are_stored_row_by_row() {
    let raw: Vec<u8> = (0..24).collect();
    let img = PixelBuffer::from_raw(4, 2, &raw).unwrap();
    assert_eq!(img.get_pixel(0, 0), Rgb { r: 0, g: 1, b: 2 });
    assert_eq!(img.get_pixel(3, 0), Rgb { r: 9, g: 10, b: 11 });
    assert_eq!(img.get_pixel(0, 1), Rgb { r: 12, g: 13, b: 14 });
    assert_eq!(img.get_pixel(3, 1), Rgb { r: 21, g: 22, b: 23 });
    assert_eq!(img.index_of(3, 1), 7);
    assert_eq!(img.get(7), Rgb { r: 21, g: 22, b: 23 });
}

#[test]
fn put_pixel_changes_one_pixel() {
    let raw: Vec<u8> = (0..24).collect();
    let mut img = PixelBuffer::from_raw(4, 2, &raw).unwrap();
    img.put_pixel(2, 1, Rgb { r: 200, g: 201, b: 202 });
    let mut expected = raw.clone();
    expected[18] = 200;
    expected[19] = 201;
    expected[20] = 202;
    assert_eq!(img.to_raw(), expected);
    img.set(0, Rgb { r: 9, g: 9, b: 9 });
    expected[0] = 9;
    expected[1] = 9;
    expected[2] = 9;
    assert_eq!(img.to_raw(), expected);
}

#[test]
fn new_fills_the_buffer() {
    let img = PixelBuffer::new(3, 2, Rgb { r: 7, g: 8, b: 9 }).unwrap();
    assert_eq!(img.len(), 6);
    assert_eq!(img.to_raw(), vec![7, 8, 9, 7, 8, 9, 7, 8, 9, 7, 8, 9, 7, 8, 9, 7, 8, 9]);
    let empty = PixelBuffer::new(0, 5, Rgb { r: 7, g: 8, b: 9 }).unwrap();
    assert_eq!(empty.len(), 0);
    assert_eq!(empty.height(), 5);
}

#[test]
fn mask_takes_one_value_a_pixel() {
    assert!(GrayBuffer::from_raw(2, 2, vec![0, 0, 0]).is_none());
    assert!(GrayBuffer::from_raw(2, 2, vec![0, 0, 0, 0, 0]).is_none());
    let mask = GrayBuffer::from_raw(2, 2, vec![10, 20, 30, 40]).unwrap();
    assert_eq!(mask.width(), 2);
    assert_eq!(mask.height(), 2);
    assert_eq!(mask.len(), 4);
    assert_eq!(mask.get(2), 30);
    assert_eq!(mask.get_pixel(1, 0), 20);
    assert_eq!(mask.get_pixel(0, 1), 30);
    assert_eq!(mask.get_pixel(1, 1), 40);
}
