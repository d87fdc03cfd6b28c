use scanline_tracer::bitmap::Bitmap;
use scanline_tracer::rotation::{Axis, RotationOrder};

#[test]
fn new_bitmap_is_zeroed() {
    let b = Bitmap::new(3, 2);
    assert_eq!(b.width(), 3);
    assert_eq!(b.height(), 2);
    assert_eq!(b.get_pixels().len(), 24);
    assert!(b.get_pixels().iter().all(|&v| v == 0));
}

#[test]
fn empty_bitmap_has_no_bytes() {
    let b = Bitmap::new(0, 5);
    assert_eq!(b.get_pixels().len(), 0);
    assert_eq!(b.ppm_bytes(), b"P3\n0 5\n255\n".to_vec());
}

#[test]
fn fill_sets_every_pixel() {
    let mut b = Bitmap::new(2, 2);
    b.fill(1, 2, 3, 4);
    assert_eq!(b.get_pixels(), &vec![1, 2, 3, 4, 1, 2, 3, 4, 1, 2, 3, 4, 1, 2, 3, 4]);
}

#[test]
fn set_pixel_writes_one_opaque_pixel() {
    let mut b = Bitmap::new(3, 2);
    b.set_pixel(2, 1, 10, 20, 30);
    let p = b.get_pixels();
    let offset = (1 * 3 + 2) * 4;
    assert_eq!(&p[offset..offset + 4], &[10, 20, 30, 255]);
    assert_eq!(p.iter().filter(|&&v| v != 0).count(), 4);
}

#[test]
fn swap_red_and_blue_exchanges_channels() {
    let mut b = Bitmap::new(2, 1);
    b.set_pixel(0, 0, 1, 2, 3);
    b.set_pixel(1, 0, 7, 8, 9);
    b.swap_red_and_blue();
    assert_eq!(b.get_pixels(), &vec![3, 2, 1, 255, 9, 8, 7, 255]);
    b.swap_red_and_blue();
    assert_eq!(b.get_pixels(), &vec![1, 2, 3, 255, 7, 8, 9, 255]);
}

#[test]
fn set_scanline_replaces_one_row() {
    let mut b = Bitmap::new(2, 3);
    b.set_scanline(1, &vec![1, 2, 3, 4, 5, 6, 7, 8]);
    let p = b.get_pixels();
    assert_eq!(&p[0..8], &[0; 8]);
    assert_eq!(&p[8..16], &[1, 2, 3, 4, 5, 6, 7, 8]);
    assert_eq!(&p[16..24], &[0; 8]);
}

#[test]
fn ppm_text_pads_channels_to_three_columns() {
    let mut b = Bitmap::new(2, 1);
    b.set_pixel(0, 0, 5, 42, 255);
    b.set_pixel(1, 0, 100, 0, 9);
    let text = String::from_utf8(b.ppm_bytes()).unwrap();
    assert_eq!(text, "P3\n2 1\n255\n  5  42 255\n100   0   9\n");
}

#[test]
fn ppm_bgr_text_exchanges_first_and_third_channel() {
    let mut b = Bitmap::new(1, 1);
    b.set_pixel(0, 0, 5, 42, 255);
    let text = String::from_utf8(b.ppm_bytes_bgr()).unwrap();
    assert_eq!(text, "P3\n1 1\n255\n255  42   5\n");
}

#[test]
fn ppm_header_writes_multi_digit_sizes() {
    let b = Bitmap::new(1280, 10);
    let bytes = b.ppm_bytes();
    assert!(bytes.starts_with(b"P3\n1280 10\n255\n  0   0   0\n"));
    assert_eq!(bytes.len(), "P3\n1280 10\n255\n".len() + 1280 * 10 * 12);
}

#[test]
fn rotation_orders_name_each_axis_once() {
    assert_eq!(RotationOrder::XYZ.axes(), (Axis::X, Axis::Y, Axis::Z));
    assert_eq!(RotationOrder::XZY.axes(), (Axis::X, Axis::Z, Axis::Y));
    assert_eq!(RotationOrder::YZX.axes(), (Axis::Y, Axis::Z, Axis::X));
    assert_eq!(RotationOrder::YXZ.axes(), (Axis::Y, Axis::X, Axis::Z));
    assert_eq!(RotationOrder::ZXY.axes(), (Axis::Z, Axis::X, Axis::Y));
    assert_eq!(RotationOrder::ZYX.axes(), (Axis::Z, Axis::Y, Axis::X));
}
