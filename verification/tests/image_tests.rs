use raytracer::color::{linear_to_gamma, to_byte, ColorU8};
use raytracer::rtwimage::{RtwImage, MAGENTA};
use raytracer::scalar::{INFINITY, ONE};
use raytracer::vec3::Vec3;

#[test]
fn an_image_needs_three_bytes_for_each_pixel() {
    assert!(RtwImage::from_raw(2, 2, vec![0; 12]).is_some());
    assert!(RtwImage::from_raw(2, 2, vec![0; 11]).is_none());
    assert!(RtwImage::from_raw(2, 2, vec![0; 13]).is_none());
    assert!(RtwImage::from_raw(0, 5, vec![]).is_some());
    assert!(RtwImage::from_raw(u32::MAX, u32::MAX, vec![0; 3]).is_none());
}

#[test]
fn width_height_and_data() {
    let image = RtwImage::from_raw(3, 2, (0..18).collect()).unwrap();
    assert_eq!(image.width(), 3);
    assert_eq!(image.height(), 2);
    assert!(!image.no_data());
    let none = RtwImage::missing();
    assert_eq!(none.width(), 0);
    assert_eq!(none.height(), 0);
    assert!(none.no_data());
}

#[test]
fn pixels_lie_row_by_row() {
    let image = RtwImage::from_raw(3, 2, (0..18).collect()).unwrap();
    assert_eq!(image.pixel_data(0, 0), &[0, 1, 2]);
    assert_eq!(image.pixel_data(2, 0), &[6, 7, 8]);
    assert_eq!(image.pixel_data(0, 1), &[9, 10, 11]);
    assert_eq!(image.pixel_data(2, 1), &[15, 16, 17]);
}

#[test]
fn a_pixel_outside_the_image_is_magenta() {
    let image = RtwImage::from_raw(3, 2, (0..18).collect()).unwrap();
    assert_eq!(MAGENTA, [255, 0, 255]);
    assert_eq!(image.pixel_data(3, 0), &MAGENTA);
    assert_eq!(image.pixel_data(0, 2), &MAGENTA);
    assert_eq!(image.pixel_data(u32::MAX, u32::MAX), &MAGENTA);
    assert_eq!(RtwImage::missing().pixel_data(0, 0), &MAGENTA);
}

#[test]
fn gamma_is_the_square_root() {
    assert_eq!(linear_to_gamma(ONE / 4), ONE / 2);
    assert_eq!(linear_to_gamma(ONE), ONE);
    assert_eq!(linear_to_gamma(4 * ONE), 2 * ONE);
    assert_eq!(linear_to_gamma(0), 0);
    assert_eq!(linear_to_gamma(-ONE), 0);
}

#[test]
fn strengths_become_bytes() {
    assert_eq!(to_byte(0), 0);
    assert_eq!(to_byte(ONE), 255);
    assert_eq!(to_byte(ONE / 2), 127);
    assert_eq!(to_byte(-ONE), 0);
    assert_eq!(to_byte(7 * ONE), 255);
    assert_eq!(to_byte(INFINITY), 255);
    // 1 / 255.999 = 0.0039062652...: the first strength of the byte 1 is just above.
    assert_eq!(to_byte(3_906_266), 1);
    assert_eq!(to_byte(3_906_265), 0);
}

#[test]
fn colours_become_bytes_through_gamma() {
    let bytes: ColorU8 = ColorU8::from(Vec3::new(ONE / 4, ONE, 0));
    assert_eq!(bytes, Vec3::new(127, 255, 0));
    let bytes: ColorU8 = Vec3::new(-ONE, 9 * ONE, ONE / 100).into();
    assert_eq!(bytes, Vec3::new(0, 255, 25));
}
