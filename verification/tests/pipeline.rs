use image_match::crop::{default_crop, Crop};
use image_match::error::SignatureError;
use image_match::gray::grayscale_buffer;
use image_match::similarity::Similarity;
use image_match::{
    compute_from_gray, cosine_similarity, get_buffer_signature, get_tuned_buffer_signature,
};

fn clamp(v: i64) -> u8 {
    if v < 0 {
        0
    } else if v > 255 {
        255
    } else {
        v as u8
    }
}

/// A ramp with two discs and a bar.
fn scene(x: i64, y: i64) -> u8 {
    let mut v: i64 = 40 + (x * 2 + y) % 97;
    if (x - 30) * (x - 30) + (y - 40) * (y - 40) < 400 {
        v += 90;
    }
    if (x - 70) * (x - 70) + (y - 65) * (y - 65) < 300 {
        v -= 30;
    }
    if 50 <= x && x < 60 && 10 <= y && y < 90 {
        v += 60;
    }
    clamp(v)
}

fn opaque_gray_image(width: i64, height: i64, level: fn(i64, i64) -> u8) -> Vec<u8> {
    let mut buffer: Vec<u8> = Vec::new();
    for y in 0..height {
        for x in 0..width {
            let v = level(x, y);
            buffer.extend_from_slice(&[v, v, v, 255]);
        }
    }
    buffer
}

fn solid(width: usize, height: usize, pixel: [u8; 4]) -> Vec<u8> {
    let mut buffer: Vec<u8> = Vec::new();
    for _ in 0..width * height {
        buffer.extend_from_slice(&pixel);
    }
    buffer
}

/// Every colour channel moved by at most five levels, alpha kept.
fn perturbed(source: &[u8]) -> Vec<u8> {
    let mut state: u64 = 7;
    let mut copy: Vec<u8> = Vec::new();
    for (i, v) in source.iter().enumerate() {
        if i % 4 == 3 {
            copy.push(*v);
        } else {
            state = (state * 1103515245 + 12345) % (1 << 31);
            let shift = (state % 11) as i64 - 5;
            copy.push(clamp(*v as i64 + shift));
        }
    }
    copy
}

fn bordered_scene(x: i64, y: i64) -> u8 {
    if x < 5 || y < 5 || x >= 105 || y >= 105 {
        200
    } else {
        scene(x - 5, y - 5)
    }
}

fn unrelated(x: i64, y: i64) -> u8 {
    ((x * x * 3 + y * y * 5 + x * y) % 256) as u8
}

fn noise(x: i64, y: i64) -> u8 {
    ((x * 37 + y * 91) % 256) as u8
}

fn count(signature: &[i8], label: i8) -> usize {
    signature.iter().filter(|l| **l == label).count()
}

fn scene_signature() -> Vec<i8> {
    vec![
        -1, -2, -2, 1, -1, -1, -2, -2, 1, 2, -2, -2, 1, -2, 2, -2, -1, 1, -2, -2, -2, -1, -2, 2,
        2, 2, -1, 2, -2, -1, -2, -1, -2, 1, -1, 1, -1, -2, 1, 1, -1, 2, 1, -2, -2, -2, 2, 2,
        2, 2, -1, 1, -1, 1, 2, 2, 2, 1, 2, 1, 2, 2, -1, 1, 2, -2, 2, -2, -2, -1, -1, 1,
        -2, -2, -2, -2, -2, -2, 2, 1, 2, 2, 2, 1, -1, 2, -2, 1, -1, -2, -1, -2, -1, -2, 2, 1,
        -1, 1, -1, 1, -1, 1, 2, 1, 1, 1, 2, 2, -1, -1, -1, -2, 2, 1, -1, 1, 2, 1, -1, 2,
        -1, -2, 2, -2, 2, -2, 2, 2, -2, 2, 2, -2, 1, 1, -1, -1, 1, 2, -1, -1, -1, -1, -2, -1,
        2, 1, 2, 1, 2, -1, -1, 2, -2, 1, -1, -2, -1, -2, -1, -2, 2, 1, -1, 1, 1, 1, -1, 2,
        -1, -2, -1, -2, 2, 1, -1, -1, -1, 1, 2, 1, 2, 1, 2, 1, 2, 2, -2, -2, -1, -2, -1, -2,
        -1, -1, -2, 1, 1, 1, -1, 1, -1, 1, 1, 2, 1, 1, 1, 0, 1, 0, 1, 1, 2, -1, 2, 1,
        -1, 2, -2, 1, -1, -2, -1, -2, 0, 2, 2, 1, 2, 1, 2, 1, 2, 2, -2, -2, -2, -2, -1, 1,
        -1, 2, 2, 2, -1, -2, 2, -2, 2, 2, 2, 2, -2, 1, -1, -2, -1, 1, -1, 1, 1, 1, 0, 1,
        1, 1, 1, 2, -1, -1, -1, -1, -1, 1, 2, -1, 0, 1, 2, 1, 2, 2, 1, 2, -2, 0, -1, -2,
        2, -2, 1, 2, -2, -2, 2, -2, 2, -1, 2, 2, -2, 1, -2, 2, 1, -2, -2, 1, 2, 2, -2, -2,
        -1, -1, -1, 2, 2, 2, -2, 1, -1, 1, 1, 2, 2, 2, -1, -1, -1, -1, 2, 2, 2, 2, -2, -2,
        -2, -2, -2, 1, -1, -2, 1, -1, 2, 2, 2, 2, 0, 2, -2, -1, 1, -2, 2, -2, 2, 2, -2, -2,
        -2, -2, -1, -2, -1, -1, -2, -1, 1, 1, -1, -2, -2, 2, 2, 2, -2, -2, -2, -2, -1, 1, -1, -2,
        -2, -2, -2, 1, -1, 1, -1, -2, -2, -2, -1, 1, -2, 1, -1, -2, -2, 1, -2, 2, -2, 1, -1, -2,
        2, 0, 2, 2, 2, 2, -1, 2, -2, -2, 2, -2, 2, -2, 2, 2, -2, 1, -1, -2, -1, 1, -1, -2,
        1, 1, 1, 1, -1, -2, -1, -1, -1, -1, -2, 1, -1, 1, -1, 1, -1, -2, 2, 1, -1, 1, -1, 1,
        -1, -2, 2, 1, -1, 1, -2, 1, -1, -2, 2, 1, -2, 2, -2, 1, -1, -2, 2, 1, 2, 2, 2, 2,
        0, 2, -2, -2, -1, -2, -1, -2, -1, -1, -2, 1, -1, 1, -1, 0, -1, -2, 2, 1, 1, 1, -2, 1,
        -1, -1, 1, 1, -1, 1, -1, 2, 1, -1, 1, -1, 2, 1, -1, 1, -2, 2, 1, -2, 2, -2, 2, 0,
        2, 2, 2, -2, 1, 0, -2, -1, 1, 1, -1, 1, -2, 2, 2, 2,
    ]
}

#[test]
fn signature_of_the_scene() {
    let buffer = opaque_gray_image(100, 100, scene);
    let signature = get_buffer_signature(&buffer, 100).unwrap();
    assert_eq!(signature.len(), 544);
    assert_eq!(signature, scene_signature());
}

#[test]
fn signature_of_a_coloured_translucent_image() {
    let mut buffer: Vec<u8> = Vec::new();
    for y in 0..64usize {
        for x in 0..64usize {
            buffer.extend_from_slice(&[
                ((x * 5) % 256) as u8,
                ((y * 3) % 256) as u8,
                ((x + y) % 256) as u8,
                (255 - (x % 4) * 20) as u8,
            ]);
        }
    }
    let signature = get_buffer_signature(&buffer, 64).unwrap();
    let expected: Vec<i8> = vec![
        -2, -1, -2, 2, -2, 0, -1, -2, 2, -2, 1, -1, -2, 2, -2, 1, -1, -2, 2, -2, 0, -1, -2, 2,
        -2, 0, -1, -2, 2, -2, 0, -1, -2, 2, -2, 1, -1, -2, 2, 0, -1, 1, 0, -2, -1, -2, 2, 1,
        -1, 2, -2, 0, -1, -2, 2, 1, -1, 2, -2, 1, -1, -2, 2, 1, 0, 2, -2, 1, -1, -2, 2, 1,
        0, 2, -2, 0, -1, -2, 2, 1, 0, 2, -2, 0, -1, -2, 2, 1, -1, 2, -2, 0, -1, -2, 2, 1,
        0, 2, -2, 1, -1, -2, 2, 1, 2, 0, -1, 1, 0, -2, -1, -2, 2, 1, -1, 2, -2, 1, -1, -2,
        2, 1, -1, 2, -2, 0, -1, -2, 2, 1, 0, 2, -2, 1, -1, -2, 2, 1, 0, 2, -2, 0, -1, -2,
        2, 1, 0, 2, -2, 0, -1, -2, 2, 1, -1, 2, -2, 0, -1, -2, 2, 1, 0, 2, -2, 1, -1, -2,
        2, 1, 2, 0, -1, 1, -1, -2, -1, -2, 2, 1, 0, 2, -2, 1, -1, -2, 2, 1, -1, 2, -2, 0,
        -1, -2, 2, 1, 0, 2, -2, 1, -1, -2, 2, 1, 0, 2, -2, 0, -1, -2, 2, 1, 0, 2, -2, 0,
        -1, -2, 2, 1, -1, 2, -2, 0, -1, -2, 2, 1, 0, 2, -1, 1, -1, -2, 2, 1, 1, 0, -1, 1,
        -1, -2, -1, -2, 2, 1, 0, 2, -2, 1, -1, -2, 2, 1, -1, 2, -2, 0, -1, -2, 2, 1, 0, 2,
        -2, 1, -1, -2, 2, 1, 0, 2, -2, 0, -1, -2, 2, 1, 0, 2, -2, 0, -1, -2, 2, 1, -1, 2,
        -2, 0, -1, -2, 2, 1, 0, 2, -1, 1, -1, -2, 2, 1, 1, 0, -1, 1, -1, -2, -1, -2, 2, 1,
        0, 2, -2, 1, -1, -2, 2, 1, -1, 2, -2, 1, -1, -2, 2, 1, 0, 2, -2, 1, -1, -2, 2, 1,
        0, 2, -2, 0, -1, -2, 2, 1, 0, 2, -1, 0, -1, -2, 2, 1, -1, 1, -2, 0, -1, -2, 2, 1,
        0, 2, -1, 1, -1, -2, 2, 1, 1, 0, -1, 1, -1, -2, -1, -2, 2, 1, -1, 2, -2, 0, -1, -2,
        2, 1, -1, 2, -2, 0, -1, -2, 2, 1, 0, 2, -2, 1, -1, -2, 2, 1, 0, 2, -1, 0, -1, -2,
        2, 1, 0, 1, -2, 0, -1, -2, 2, 1, -1, 2, -2, 0, -1, -2, 2, 1, 0, 2, -1, 1, -1, -2,
        2, 1, 1, 0, -1, 1, 0, -2, -1, -2, 2, 1, 0, 2, -2, 0, -1, -2, 2, 1, -1, 2, -2, 0,
        -1, -2, 2, 1, 0, 2, -2, 1, -1, -2, 2, 1, 0, 2, -1, 0, -1, -2, 2, 1, 0, 1, -2, 0,
        -1, -2, 2, 1, -1, 2, -2, 0, -1, -2, 2, 1, 0, 2, -1, 1, -1, -2, 2, 1, 1, 0, -1, 1,
        0, -2, 2, 1, 0, 2, -2, 2, 1, -1, 2, -2, 2, 1, 0, 2, -2, 2, 1, 0, 2, -1, 2, 1,
        0, 1, -2, 2, 1, -1, 2, -2, 2, 1, 0, 2, -1, 2, 1, 1,
    ];
    assert_eq!(signature, expected);
}

#[test]
fn same_input_same_signature() {
    let buffer = opaque_gray_image(100, 100, scene);
    let first = get_buffer_signature(&buffer, 100);
    let second = get_buffer_signature(&buffer, 100);
    assert_eq!(first, second);
    let copy = buffer.clone();
    assert_eq!(get_buffer_signature(&copy, 100), first);
    let short = solid(2, 2, [255, 255, 255, 255]);
    assert_eq!(get_buffer_signature(&short, 2), get_buffer_signature(&short, 2));
}

#[test]
fn default_signature_has_544_entries() {
    for side in [16i64, 20, 24, 30, 40, 64, 100, 129] {
        let buffer = opaque_gray_image(side, side, noise);
        let signature = get_buffer_signature(&buffer, side as usize).unwrap();
        assert_eq!(signature.len(), 544);
        for label in signature.iter() {
            assert!(-2 <= *label && *label <= 2);
        }
    }
    let wide = opaque_gray_image(200, 64, scene);
    assert_eq!(get_buffer_signature(&wide, 200).unwrap().len(), 544);
    let tall = opaque_gray_image(64, 200, scene);
    assert_eq!(get_buffer_signature(&tall, 64).unwrap().len(), 544);
}

#[test]
fn lightly_perturbed_copy_is_similar() {
    let source = opaque_gray_image(100, 100, scene);
    let copy = perturbed(&source);
    assert_ne!(source, copy);
    let a = get_buffer_signature(&source, 100).unwrap();
    let b = get_buffer_signature(&copy, 100).unwrap();
    let cosine = cosine_similarity(&a, &b).unwrap();
    assert_eq!(cosine, Similarity { dot: 1194, norm_a: 1354, norm_b: 1306 });
    assert!(cosine.is_similar());
    let value = cosine.dot as f64 / ((cosine.norm_a as f64).sqrt() * (cosine.norm_b as f64).sqrt());
    assert!(value >= 0.6);
}

#[test]
fn solid_red_and_solid_blue_are_not_similar() {
    let red = solid(64, 64, [255, 0, 0, 255]);
    let blue = solid(64, 64, [0, 0, 255, 255]);
    let a = get_buffer_signature(&red, 64).unwrap();
    let b = get_buffer_signature(&blue, 64).unwrap();
    assert_eq!(a, vec![0i8; 544]);
    assert_eq!(b, vec![0i8; 544]);
    let cosine = cosine_similarity(&a, &b).unwrap();
    assert_eq!(cosine, Similarity { dot: 0, norm_a: 0, norm_b: 0 });
    assert!(!cosine.is_similar());
    assert!(!cosine.is_one());
}

#[test]
fn unrelated_images_are_not_similar() {
    let a = get_buffer_signature(&opaque_gray_image(100, 100, scene), 100).unwrap();
    let b = get_buffer_signature(&opaque_gray_image(100, 100, unrelated), 100).unwrap();
    let cosine = cosine_similarity(&a, &b).unwrap();
    assert_eq!(cosine, Similarity { dot: -150, norm_a: 1354, norm_b: 1128 });
    assert!(!cosine.is_similar());
    let value = cosine.dot as f64 / ((cosine.norm_a as f64).sqrt() * (cosine.norm_b as f64).sqrt());
    assert!(value < 0.6);
}

#[test]
fn uniform_border_keeps_the_signature_similar() {
    let plain = opaque_gray_image(100, 100, scene);
    let framed = opaque_gray_image(110, 110, bordered_scene);
    let a = get_buffer_signature(&plain, 100).unwrap();
    let b = get_buffer_signature(&framed, 110).unwrap();
    let cosine = cosine_similarity(&a, &b).unwrap();
    assert_eq!(cosine, Similarity { dot: 978, norm_a: 1354, norm_b: 1346 });
    assert!(cosine.is_similar());
    let value = cosine.dot as f64 / ((cosine.norm_a as f64).sqrt() * (cosine.norm_b as f64).sqrt());
    assert!(value >= 0.6);
}

#[test]
fn much_lighter_and_much_darker_are_equally_many() {
    for picture in [scene as fn(i64, i64) -> u8, unrelated, noise, bordered_scene] {
        let signature = get_buffer_signature(&opaque_gray_image(120, 120, picture), 120).unwrap();
        assert_eq!(count(&signature, 2), count(&signature, -2));
        assert_eq!(count(&signature, 1), count(&signature, -1));
        assert!(count(&signature, 2) >= count(&signature, 1));
    }
    let signature = scene_signature();
    assert_eq!(count(&signature, 2), 137);
    assert_eq!(count(&signature, -2), 137);
    assert_eq!(count(&signature, 1), 129);
    assert_eq!(count(&signature, -1), 129);
    assert_eq!(count(&signature, 0), 12);
}

#[test]
fn white_two_by_two_image_reduces_and_crops_without_a_signature() {
    let buffer: Vec<u8> = vec![255; 16];
    let gray = grayscale_buffer(&buffer, 2).unwrap();
    assert_eq!(gray, vec![vec![255u8, 255], vec![255, 255]]);
    let bounds = image_match::crop::crop_boundaries(&gray, default_crop());
    assert_eq!(bounds.lower_x, 0);
    assert_eq!(bounds.lower_y, 0);
    assert_eq!(bounds.upper_x, 1);
    assert_eq!(bounds.upper_y, 1);
    // the sampling windows do not fit into so small an image
    assert_eq!(get_buffer_signature(&buffer, 2), Err(SignatureError::OutOfRange));
}

#[test]
fn invalid_dimensions_are_refused() {
    let buffer = opaque_gray_image(100, 100, scene);
    assert_eq!(get_buffer_signature(&buffer, 0), Err(SignatureError::InvalidDimensions));
    assert_eq!(get_buffer_signature(&buffer, 99), Err(SignatureError::InvalidDimensions));
    assert_eq!(get_buffer_signature(&buffer[..39999], 100), Err(SignatureError::InvalidDimensions));
    assert_eq!(get_buffer_signature(&buffer, 10001), Err(SignatureError::InvalidDimensions));
    let empty: Vec<u8> = Vec::new();
    assert_eq!(get_buffer_signature(&empty, 100), Err(SignatureError::InvalidDimensions));
    assert_eq!(get_buffer_signature(&empty, 0), Err(SignatureError::InvalidDimensions));
    let crop = default_crop();
    assert_eq!(
        get_tuned_buffer_signature(&buffer, 100, crop, 1),
        Err(SignatureError::InvalidDimensions)
    );
    assert_eq!(
        get_tuned_buffer_signature(&buffer, 100, crop, 0),
        Err(SignatureError::InvalidDimensions)
    );
}

#[test]
fn too_small_or_one_line_images_are_out_of_range() {
    for side in [2i64, 8, 10] {
        let buffer = opaque_gray_image(side, side, |_, _| 100);
        assert_eq!(get_buffer_signature(&buffer, side as usize), Err(SignatureError::OutOfRange));
    }
    let buffer = opaque_gray_image(8, 8, noise);
    assert_eq!(get_buffer_signature(&buffer, 8), Err(SignatureError::OutOfRange));
    // a single row of pixels
    let line = opaque_gray_image(400, 1, noise);
    assert_eq!(get_buffer_signature(&line, 400), Err(SignatureError::OutOfRange));
    // the cuts cross where half of the activity is cut from each side
    let buffer = opaque_gray_image(100, 100, scene);
    let half = Crop::new(1, 2).unwrap();
    assert_eq!(get_tuned_buffer_signature(&buffer, 100, half, 3), Err(SignatureError::OutOfRange));
}

#[test]
fn detail_in_a_single_row_leaves_nothing_to_sample() {
    // every other pixel of row 32 is white, all the rest is black: the cut
    // from the top stops below that row, the cut from the bottom above it
    let buffer = opaque_gray_image(64, 64, |x, y| if y == 32 && x % 2 == 1 { 255 } else { 0 });
    let gray = grayscale_buffer(&buffer, 64).unwrap();
    let bounds = image_match::crop::crop_boundaries(&gray, default_crop());
    assert_eq!(bounds.lower_y, 33);
    assert_eq!(bounds.upper_y, 31);
    assert_eq!(bounds.lower_x, 4);
    assert_eq!(bounds.upper_x, 60);
    assert_eq!(get_buffer_signature(&buffer, 64), Err(SignatureError::OutOfRange));
}

#[test]
fn flat_images_of_sufficient_size_have_zero_signatures() {
    for side in [21i64, 22, 25, 64] {
        let buffer = opaque_gray_image(side, side, |_, _| 100);
        assert_eq!(get_buffer_signature(&buffer, side as usize), Ok(vec![0i8; 544]));
    }
}

#[test]
fn default_tuning_is_one_twentieth_and_ten_cells() {
    let buffer = opaque_gray_image(100, 100, scene);
    let crop = Crop::new(1, 20).unwrap();
    assert_eq!(
        get_tuned_buffer_signature(&buffer, 100, crop, 10),
        get_buffer_signature(&buffer, 100)
    );
    let same_fraction = Crop::new(5, 100).unwrap();
    assert_eq!(
        get_tuned_buffer_signature(&buffer, 100, same_fraction, 10),
        get_buffer_signature(&buffer, 100)
    );
}

#[test]
fn tuned_signatures_change_with_crop_and_grid() {
    let buffer = opaque_gray_image(100, 100, scene);
    let uncropped = get_tuned_buffer_signature(&buffer, 100, Crop::new(0, 1).unwrap(), 10).unwrap();
    assert_eq!(uncropped.len(), 544);
    assert_eq!(&uncropped[..12], &[-1, -1, -2, 1, -1, 1, -1, -2, 1, -1, 1, -1]);
    let against_default = cosine_similarity(&scene_signature(), &uncropped).unwrap();
    assert_eq!(against_default, Similarity { dot: 846, norm_a: 1354, norm_b: 1328 });
    let eight = get_tuned_buffer_signature(&buffer, 100, Crop::new(1, 10).unwrap(), 8).unwrap();
    assert_eq!(eight.len(), 312);
    assert_eq!(&eight[..12], &[-2, -2, -2, 2, 2, 0, -1, 2, -2, 2, -2, -1]);
    let five = get_tuned_buffer_signature(&buffer, 100, Crop::new(1, 4).unwrap(), 5).unwrap();
    assert_eq!(five.len(), 84);
    assert_eq!(&five[..12], &[-2, -1, -2, 2, 1, 1, -1, -1, -1, 0, -2, -1]);
    let two = get_tuned_buffer_signature(&buffer, 100, default_crop(), 2).unwrap();
    assert_eq!(two.len(), 0);
    let twenty = get_tuned_buffer_signature(&buffer, 100, default_crop(), 20).unwrap();
    assert_eq!(twenty.len(), 2664);
    let thirty = get_tuned_buffer_signature(&buffer, 100, default_crop(), 30).unwrap();
    assert_eq!(thirty.len(), 6384);
}

#[test]
fn signature_from_a_grayscale_grid() {
    let buffer = opaque_gray_image(100, 100, scene);
    let gray = grayscale_buffer(&buffer, 100).unwrap();
    assert_eq!(compute_from_gray(gray, default_crop(), 10), Ok(scene_signature()));
    let grid: Vec<Vec<u8>> = (0..100).map(|y| (0..100).map(|x| scene(x, y)).collect()).collect();
    assert_eq!(compute_from_gray(grid, default_crop(), 10), Ok(scene_signature()));
}
