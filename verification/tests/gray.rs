use image_match::error::SignatureError;
use image_match::gray::{grayscale_buffer, pixel_gray};

#[test]
fn opaque_pixel_keeps_its_channel_mean() {
    assert_eq!(pixel_gray(255, 255, 255, 255), 255);
    assert_eq!(pixel_gray(10, 20, 30, 255), 20);
    assert_eq!(pixel_gray(1, 1, 0, 255), 0);
    assert_eq!(pixel_gray(255, 0, 0, 255), 85);
    assert_eq!(pixel_gray(0, 0, 255, 255), 85);
}

#[test]
fn transparent_pixel_is_black() {
    assert_eq!(pixel_gray(255, 255, 255, 0), 0);
    assert_eq!(pixel_gray(12, 200, 99, 0), 0);
}

#[test]
fn alpha_attenuates_and_truncates() {
    // mean 100, alpha 128: 100 * 128 / 255 = 50.19..
    assert_eq!(pixel_gray(100, 100, 100, 128), 50);
    // mean 200, alpha 254: 199.2..
    assert_eq!(pixel_gray(200, 200, 200, 254), 199);
    // mean 5, alpha 51: exactly 1
    assert_eq!(pixel_gray(5, 5, 5, 51), 1);
    // mean 3, alpha 85: exactly 1
    assert_eq!(pixel_gray(3, 3, 3, 85), 1);
    // mean 254, alpha 1: 0.99..
    assert_eq!(pixel_gray(254, 254, 254, 1), 0);
    assert_eq!(pixel_gray(255, 255, 255, 1), 1);
}

#[test]
fn pixel_gray_is_the_exact_quotient_everywhere() {
    for mean in 0..=255u32 {
        for alpha in 0..=255u32 {
            let v = pixel_gray(mean as u8, mean as u8, mean as u8, alpha as u8);
            assert_eq!(v as u32, mean * alpha / 255);
        }
    }
}

#[test]
fn white_two_by_two_image_is_all_white() {
    let buffer: Vec<u8> = vec![255; 16];
    let gray = grayscale_buffer(&buffer, 2).unwrap();
    assert_eq!(gray, vec![vec![255u8, 255], vec![255, 255]]);
}

#[test]
fn grayscale_has_one_row_per_stride() {
    let buffer: Vec<u8> = vec![
        30, 60, 90, 255, 0, 0, 0, 255, 255, 255, 255, 0, //
        9, 9, 9, 255, 100, 100, 100, 128, 1, 2, 3, 255,
    ];
    let gray = grayscale_buffer(&buffer, 3).unwrap();
    assert_eq!(gray, vec![vec![60u8, 0, 0], vec![9, 50, 2]]);
    let wide = grayscale_buffer(&buffer, 6).unwrap();
    assert_eq!(wide, vec![vec![60u8, 0, 0, 9, 50, 2]]);
    let tall = grayscale_buffer(&buffer, 1).unwrap();
    assert_eq!(tall.len(), 6);
    assert_eq!(tall[4], vec![50u8]);
}

#[test]
fn zero_width_is_refused() {
    let buffer: Vec<u8> = vec![255; 16];
    assert_eq!(grayscale_buffer(&buffer, 0), Err(SignatureError::InvalidDimensions));
    let empty: Vec<u8> = Vec::new();
    assert_eq!(grayscale_buffer(&empty, 0), Err(SignatureError::InvalidDimensions));
}

#[test]
fn partial_rows_are_refused() {
    let buffer: Vec<u8> = vec![255; 16];
    assert_eq!(grayscale_buffer(&buffer, 3), Err(SignatureError::InvalidDimensions));
    assert_eq!(grayscale_buffer(&buffer, 5), Err(SignatureError::InvalidDimensions));
    assert_eq!(grayscale_buffer(&buffer[..15], 1), Err(SignatureError::InvalidDimensions));
    assert_eq!(grayscale_buffer(&buffer, usize::MAX), Err(SignatureError::InvalidDimensions));
    assert_eq!(grayscale_buffer(&buffer, usize::MAX / 4 + 1), Err(SignatureError::InvalidDimensions));
}

#[test]
fn empty_buffer_has_no_rows() {
    let empty: Vec<u8> = Vec::new();
    let gray = grayscale_buffer(&empty, 7).unwrap();
    assert_eq!(gray.len(), 0);
    let gray = grayscale_buffer(&empty, usize::MAX).unwrap();
    assert_eq!(gray.len(), 0);
}
