use denoiser::block_sums::{can_be_thresholded, corner_sums};
use denoiser::captcha::{despeckle, whiten_columns};
use denoiser::denoiser_app::DenoiserApp;
use denoiser::density::measure_density;
use denoiser::error::DenoiseError;
use denoiser::plane::Plane;
use image::{GrayImage, ImageFormat, Luma};
use std::io::Cursor;

fn png(image: &GrayImage) -> Vec<u8> {
    let mut file = Cursor::new(Vec::new());
    image.write_to(&mut file, ImageFormat::Png).unwrap();
    file.into_inner()
}

fn block_mean(plane: &Plane<u8>, x: i64, y: i64, radius: i64) -> i64 {
    let mut sum = 0;
    let mut count = 0;
    for j in (y - radius).max(0)..=(y + radius).min(plane.height as i64 - 1) {
        for i in (x - radius).max(0)..=(x + radius).min(plane.width as i64 - 1) {
            sum += plane.get(i as u32, j as u32) as i64;
            count += 1;
        }
    }
    sum / count
}

fn near(plane: &Plane<u8>, x: i64, y: i64, k: i64, black: bool) -> bool {
    let all = k >= (plane.width as i64 + plane.height as i64).min(255);
    all || (0..plane.height as i64).any(|j| {
        (0..plane.width as i64).any(|i| {
            (i - x).abs() <= k
                && (j - y).abs() <= k
                && (plane.get(i as u32, j as u32) == 0) == black
        })
    })
}

fn each(plane: &Plane<u8>, f: &dyn Fn(i64, i64) -> u8) -> Plane<u8> {
    let mut out = Plane::filled(plane.width, plane.height, 0u8);
    for y in 0..plane.height {
        for x in 0..plane.width {
            out.put(x, y, f(x as i64, y as i64));
        }
    }
    out
}

/// The stages written out from their definitions.
fn expected(plane: &Plane<u8>, block: u32, delta: i32, erase_k: u8, dilate_k: u8) -> Plane<u8> {
    let binary = each(plane, &|x, y| {
        let mean = block_mean(plane, x, y, block as i64);
        if plane.get(x as u32, y as u32) as i64 >= mean - delta as i64 { 255 } else { 0 }
    });
    let thin = each(&binary, &|x, y| if near(&binary, x, y, erase_k as i64, true) { 0 } else { 255 });
    each(&thin, &|x, y| if near(&thin, x, y, dilate_k as i64, false) { 255 } else { 0 })
}

fn noise(width: u32, height: u32, mut seed: u32) -> Plane<u8> {
    let mut plane = Plane::filled(width, height, 0u8);
    for y in 0..height {
        for x in 0..width {
            seed = seed.wrapping_mul(1664525).wrapping_add(1013904223);
            plane.put(x, y, (seed >> 24) as u8);
        }
    }
    plane
}

#[test]
fn sparse_columns_turn_white() {
    let mut plane = Plane { width: 3, height: 2, pixels: vec![1, 2, 3, 4, 5, 6] };
    whiten_columns(&mut plane, &[2, 1, 0], 2);
    assert_eq!(plane.pixels, vec![1, 255, 255, 4, 255, 255]);
}

#[test]
fn a_longer_density_map_is_accepted() {
    let mut plane = Plane { width: 1, height: 2, pixels: vec![1, 2] };
    whiten_columns(&mut plane, &[0, 9, 9], 1);
    assert_eq!(plane.pixels, vec![255, 255]);
}

#[test]
fn zero_threshold_wipes_nothing() {
    let mut plane = noise(5, 4, 1);
    let before = plane.pixels.clone();
    whiten_columns(&mut plane, &[0; 5], 0);
    assert_eq!(plane.pixels, before);
}

#[test]
fn wiping_twice_is_wiping_once() {
    let mut plane = noise(6, 6, 2);
    let counts = measure_density(&plane).bit_map;
    whiten_columns(&mut plane, &counts, 5);
    let once = plane.pixels.clone();
    whiten_columns(&mut plane, &counts, 5);
    assert_eq!(plane.pixels, once);
}

#[test]
fn sparse_columns_lose_their_dark_pixels() {
    let mut plane = noise(12, 9, 3);
    let before = measure_density(&plane).bit_map;
    whiten_columns(&mut plane, &before, 7);
    let after = measure_density(&plane).bit_map;
    for x in 0..12 {
        assert_eq!(after[x], if before[x] < 7 { 0 } else { before[x] });
    }
}

#[test]
fn sums_of_corners() {
    let plane = Plane { width: 2, height: 2, pixels: vec![255, 1, 2, 3] };
    let sums = corner_sums(&plane).unwrap();
    assert_eq!((sums.width, sums.height), (3, 3));
    assert_eq!(sums.pixels, vec![0, 0, 0, 0, 255, 256, 0, 257, 261]);
}

#[test]
fn a_bright_plane_with_a_block_that_covers_it() {
    // The pixels sum up to more than half of what 32 bits hold.
    let plane = Plane::filled(3000, 3000, 255u8);
    assert!(can_be_thresholded(&plane, 3000, 10));
    assert!(!can_be_thresholded(&plane, 8, 10));
    assert!(corner_sums(&Plane::filled(5000, 3400, 255u8)).is_none());
}

#[test]
fn the_smallest_deltas() {
    let black = Plane::filled(4, 4, 0u8);
    assert!(can_be_thresholded(&black, 1, -i32::MAX));
    assert!(!can_be_thresholded(&black, 1, i32::MIN));
    let gray = Plane::filled(4, 4, 7u8);
    assert!(!can_be_thresholded(&gray, 1, -i32::MAX));
    assert!(can_be_thresholded(&gray, 1, 7 - i32::MAX));
    assert!(despeckle(&black, 1, -i32::MAX, 0, 0).pixels.iter().all(|p| *p == 0));
}

#[test]
fn cleaning_without_reach_is_thresholding() {
    let plane = noise(19, 14, 8);
    let clean = despeckle(&plane, 2, 5, 0, 0);
    for y in 0..14 {
        for x in 0..19 {
            let mean = block_mean(&plane, x, y, 2);
            let white = plane.get(x as u32, y as u32) as i64 >= mean - 5;
            assert_eq!(clean.get(x as u32, y as u32), if white { 255 } else { 0 });
        }
    }
    let opened = despeckle(&plane, 2, 5, 2, 1);
    for (a, b) in opened.pixels.iter().zip(&clean.pixels) {
        assert!(*a == 0 || *b == 255);
    }
}

#[test]
fn a_side_that_cannot_be_doubled() {
    let width = (1 << 25) + 3;
    let mut file = format!("P5\n{width} 1\n255\n").into_bytes();
    file.resize(file.len() + width, 40);
    let counts = vec![1; width];
    let outcome = DenoiserApp::clean_captcha(&file, 8, 10, 3, 1, &counts, 1);
    assert_eq!(outcome, Err(DenoiseError::Geometry));
}

#[test]
fn more_erosion_only_removes_white() {
    let plane = noise(23, 17, 5);
    for (more, less) in [((3, 1), (2, 1)), ((2, 1), (2, 3)), ((4, 0), (1, 2)), ((50, 0), (1, 50))] {
        let fewer = despeckle(&plane, 3, 4, more.0, more.1);
        let others = despeckle(&plane, 3, 4, less.0, less.1);
        for (a, b) in fewer.pixels.iter().zip(&others.pixels) {
            assert!(*a == 0 || *b == 255);
        }
    }
}

#[test]
fn only_sparse_columns_matter() {
    let mut a = noise(6, 5, 9);
    let mut b = Plane { width: 6, height: 5, pixels: a.pixels.clone() };
    whiten_columns(&mut a, &[0, 5, 2, 9, 4, 3], 4);
    whiten_columns(&mut b, &[1, 20, 1, 20, 2, 1, 77], 2);
    assert_eq!(a.pixels, b.pixels);
    let image = png(&GrayImage::from_raw(6, 5, noise(6, 5, 9).pixels).unwrap());
    let first = DenoiserApp::clean_captcha(&image, 2, 3, 1, 1, &[0, 5, 2, 9, 4, 3], 4).unwrap();
    let second = DenoiserApp::clean_captcha(&image, 2, 3, 1, 1, &[1, 20, 1, 20, 2, 1, 77], 2);
    assert_eq!(Ok(first), second);
}

#[test]
fn wiping_beforehand_is_cleaning() {
    let plane = noise(9, 7, 3);
    let counts = [4, 0, 5, 1, 9, 2, 2, 8, 3];
    let mut wiped = Plane { width: 9, height: 7, pixels: plane.pixels.clone() };
    whiten_columns(&mut wiped, &counts, 3);
    let file = png(&GrayImage::from_raw(9, 7, plane.pixels).unwrap());
    let wiped_file = png(&GrayImage::from_raw(9, 7, wiped.pixels).unwrap());
    let cleaned = DenoiserApp::clean_captcha(&file, 2, 3, 1, 1, &counts, 3).unwrap();
    assert_eq!(DenoiserApp::clean_captcha(&wiped_file, 2, 3, 1, 1, &counts, 0), Ok(cleaned));
}

#[test]
fn despeckling_follows_its_definition() {
    for (w, h, block, delta, erase_k, dilate_k) in [
        (9, 7, 2, 0, 0, 0),
        (9, 7, 2, 10, 1, 0),
        (9, 7, 3, 20, 0, 1),
        (12, 12, 1, 60, 1, 1),
        (6, 5, 8, 10, 3, 1),
        (3, 2, 1, -20, 1, 2),
        (1, 1, 4, 0, 0, 0),
        (2, 2, 1, 300, 3, 0),
        (2, 2, 1, -300, 0, 3),
        (2, 2, 1, 300, 4, 0),
        (2, 2, 1, -300, 0, 4),
    ] {
        let plane = noise(w, h, w * 31 + h);
        let clean = despeckle(&plane, block, delta, erase_k, dilate_k);
        assert_eq!(clean.pixels, expected(&plane, block, delta, erase_k, dilate_k).pixels);
    }
}

#[test]
fn despeckling_with_the_longest_reach() {
    let plane = noise(300, 3, 5);
    let clean = despeckle(&plane, 2, 10, 254, 0);
    assert_eq!(clean.pixels, expected(&plane, 2, 10, 254, 0).pixels);
    assert!(despeckle(&plane, 2, 10, 255, 0).pixels.iter().all(|p| *p == 0));
    assert!(despeckle(&plane, 2, 10, 0, 255).pixels.iter().all(|p| *p == 255));
}

#[test]
fn cleaned_pixels_are_black_or_white() {
    let clean = despeckle(&noise(20, 20, 9), 2, 5, 1, 1);
    assert!(clean.pixels.iter().all(|p| *p == 0 || *p == 255));
    assert!(clean.pixels.len() == 400);
}

#[test]
fn a_white_speck_vanishes() {
    let mut plane = Plane::filled(9, 9, 10u8);
    plane.put(4, 4, 250);
    // With a negative delta only the speck is brighter than its surroundings.
    let binary = despeckle(&plane, 4, -1, 0, 0);
    assert_eq!(binary.get(4, 4), 255);
    assert_eq!(binary.pixels.iter().filter(|p| **p == 255).count(), 1);
    let clean = despeckle(&plane, 4, -1, 1, 1);
    assert!(clean.pixels.iter().all(|p| *p == 0));
}

#[test]
fn cleaning_adds_no_white() {
    let plane = noise(16, 11, 77);
    let binary = despeckle(&plane, 2, 30, 0, 0);
    let clean = despeckle(&plane, 2, 30, 2, 1);
    for i in 0..clean.pixels.len() {
        assert!(clean.pixels[i] == 0 || binary.pixels[i] == 255);
    }
}

#[test]
fn cleaning_a_file() {
    let mut image = GrayImage::from_pixel(30, 20, Luma([255]));
    for y in 4..16 {
        for x in 10..16 {
            image.put_pixel(x, y, Luma([0]));
        }
    }
    image.put_pixel(25, 10, Luma([0]));
    let mut counts = vec![0; 30];
    counts[10..16].fill(12);
    counts[25] = 1;
    let file = DenoiserApp::clean_captcha(&png(&image), 8, 10, 3, 1, &counts, 2).unwrap();
    let clean = image::load_from_memory(&file).unwrap().to_luma8();
    assert_eq!(clean.dimensions(), (60, 40));
    assert!(clean.pixels().all(|p| p.0[0] == 0 || p.0[0] == 255));
    // The bar is still there, and the single dot is not.
    assert_eq!(clean.get_pixel(26, 20).0[0], 0);
    assert_eq!(clean.get_pixel(50, 20).0[0], 255);
    assert_eq!(clean.get_pixel(2, 2).0[0], 255);
}

#[test]
fn cleaning_errors() {
    let image = png(&GrayImage::from_pixel(8, 8, Luma([40])));
    let clean = |file: &[u8], counts: &[u32]| DenoiserApp::clean_captcha(file, 8, 10, 3, 1, counts, 1);
    assert_eq!(clean(b"no picture", &[0; 8]), Err(DenoiseError::Undecodable));
    assert_eq!(clean(&image, &[0; 7]), Err(DenoiseError::Geometry));
    assert!(clean(&image, &[0; 8]).is_ok());
}
