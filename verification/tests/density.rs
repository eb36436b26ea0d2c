use denoiser::denoiser_app::DenoiserApp;
use denoiser::density::{
    density_threshold, draw_density, measure_density, report_density, BLACK, GREEN, RED, WHITE,
};
use denoiser::error::DenoiseError;
use denoiser::plane::Plane;
use image::{GrayImage, ImageFormat, Luma};
use std::io::Cursor;

fn gray_png(image: &GrayImage) -> Vec<u8> {
    let mut file = Cursor::new(Vec::new());
    image.write_to(&mut file, ImageFormat::Png).unwrap();
    file.into_inner()
}

/// Column `x` of 30 has `x` dark pixels at the top, in 40 rows.
fn stairs() -> Plane<u8> {
    let mut plane = Plane::filled(30, 40, 255u8);
    for x in 0..30 {
        for y in 0..x {
            plane.put(x, y, 0);
        }
    }
    plane
}

#[test]
fn plane_get_and_put() {
    let mut plane = Plane::filled(3, 2, 7u8);
    plane.put(2, 1, 9);
    assert_eq!(plane.get(2, 1), 9);
    assert_eq!(plane.get(1, 1), 7);
    assert_eq!(plane.pixels, vec![7, 7, 7, 7, 7, 9]);
}

#[test]
fn dark_limit_is_exclusive() {
    let plane = Plane { width: 3, height: 1, pixels: vec![199, 200, 201] };
    let stats = measure_density(&plane);
    assert_eq!(stats.bit_map, vec![1, 0, 0]);
}

#[test]
fn counts_of_stairs() {
    let stats = measure_density(&stairs());
    assert_eq!(stats.bit_map, (0..30).collect::<Vec<u32>>());
    assert_eq!(stats.threshold_accum, 29 * 30 / 2);
    assert_eq!(stats.min_density, 1);
    assert_eq!(stats.max_density, 29);
}

#[test]
fn counts_without_dark_pixels() {
    let stats = measure_density(&Plane::filled(4, 4, 255u8));
    assert_eq!(stats.bit_map, vec![0; 4]);
    assert_eq!(stats.threshold_accum, 0);
    assert_eq!(stats.min_density, 0);
    assert_eq!(stats.max_density, 0);
}

#[test]
fn a_single_dark_pixel_sets_no_maximum() {
    let mut plane = Plane::filled(4, 4, 255u8);
    plane.put(2, 3, 10);
    let stats = measure_density(&plane);
    assert_eq!(stats.min_density, 1);
    assert_eq!(stats.max_density, 0);
    plane.put(1, 3, 10);
    assert_eq!(measure_density(&plane).max_density, 1);
}

#[test]
fn threshold_is_half_a_ranked_count() {
    // Sorted, the count at 21 / 2 + 10 is the largest.
    let mut counts: Vec<u32> = (0..21).rev().collect();
    assert_eq!(density_threshold(&counts), 10);
    counts[5] = 101;
    assert_eq!(density_threshold(&counts), 50);
    // At 30 / 2 + 10.
    let counts: Vec<u32> = (0..30).collect();
    assert_eq!(density_threshold(&counts), 12);
}

#[test]
fn density_picture_of_three_columns() {
    let picture = draw_density(&vec![0, 2, 5], 6, 3, 4);
    let column = |x: u32| (0..6).map(|y| picture.get(x, y)).collect::<Vec<_>>();
    assert_eq!(column(0), vec![WHITE, WHITE, WHITE, RED, GREEN, WHITE]);
    assert_eq!(column(1), vec![BLACK, BLACK, WHITE, RED, GREEN, WHITE]);
    assert_eq!(column(2), vec![BLACK, BLACK, BLACK, RED, GREEN, WHITE]);
}

#[test]
fn green_covers_red() {
    let picture = draw_density(&vec![1], 3, 2, 2);
    assert_eq!(picture.pixels, vec![BLACK, WHITE, GREEN]);
}

#[test]
fn report_of_stairs() {
    let (counts, png, threshold, height, width) = report_density(&stairs(), 39);
    assert_eq!(counts, (0..30).collect::<Vec<u32>>());
    assert_eq!(threshold, 12);
    assert_eq!((width, height), (30, 40));
    let picture = image::load_from_memory(&png).unwrap().to_rgb8();
    assert_eq!(picture.dimensions(), (30, 40));
    assert_eq!(picture.get_pixel(20, 19).0, BLACK);
    assert_eq!(picture.get_pixel(20, 20).0, WHITE);
    assert_eq!(picture.get_pixel(20, 12).0, RED);
    assert_eq!(picture.get_pixel(20, 39).0, GREEN);
}

#[test]
fn analysis_of_a_file() {
    let plane = stairs();
    let image = GrayImage::from_raw(30, 40, plane.pixels.clone()).unwrap();
    let from_file = DenoiserApp::analyze_density(&gray_png(&image), 5).unwrap();
    assert_eq!(from_file, report_density(&plane, 5));
}

#[test]
fn analysis_of_a_colour_file() {
    let mut image = image::RgbImage::from_pixel(25, 10, image::Rgb([255, 255, 255]));
    image.put_pixel(3, 3, image::Rgb([10, 10, 10]));
    let mut file = Cursor::new(Vec::new());
    image.write_to(&mut file, ImageFormat::Png).unwrap();
    let report = DenoiserApp::analyze_density(&file.into_inner(), 0).unwrap();
    assert_eq!(report.0.iter().sum::<u32>(), 1);
    assert_eq!(report.0[3], 1);
}

#[test]
fn analysis_errors() {
    let undecodable = DenoiserApp::analyze_density(&[1, 2, 3], 0);
    assert_eq!(undecodable, Err(DenoiseError::Undecodable));
    let narrow = gray_png(&GrayImage::from_pixel(20, 40, Luma([0])));
    assert_eq!(DenoiserApp::analyze_density(&narrow, 0), Err(DenoiseError::Geometry));
    let wide_enough = gray_png(&GrayImage::from_pixel(21, 40, Luma([0])));
    assert!(DenoiserApp::analyze_density(&wide_enough, 39).is_ok());
    assert_eq!(DenoiserApp::analyze_density(&wide_enough, 40), Err(DenoiseError::Geometry));
}

#[test]
fn the_threshold_is_cut_to_a_byte() {
    // 600 dark rows: half of it is 300.
    let plane = Plane::filled(21, 600, 0u8);
    let (_, _, threshold, height, _) = report_density(&plane, 0);
    assert_eq!(threshold, (300u32 % 256) as u8);
    assert_eq!(height, 600);
}

#[test]
fn the_mark_changes_only_its_row() {
    let plane = stairs();
    let (counts1, png1, half1, h1, w1) = report_density(&plane, 3);
    let (counts2, png2, half2, h2, w2) = report_density(&plane, 30);
    assert_eq!((counts1, half1, h1, w1), (counts2, half2, h2, w2));
    let a = image::load_from_memory(&png1).unwrap().to_rgb8();
    let b = image::load_from_memory(&png2).unwrap().to_rgb8();
    for (x, y, pixel) in a.enumerate_pixels() {
        assert_eq!(pixel == b.get_pixel(x, y), y != 3 && y != 30);
    }
}

#[test]
fn columns_carry_their_counts() {
    let plane = stairs();
    let mut mixed = Plane::filled(30, 40, 255u8);
    for x in 0..30 {
        for y in 0..40 {
            mixed.put(x, y, plane.get((x * 7 + 3) % 30, y));
        }
    }
    let report = report_density(&plane, 1);
    let mixed_report = report_density(&mixed, 1);
    for x in 0..30 {
        assert_eq!(mixed_report.0[x], report.0[(x * 7 + 3) % 30]);
    }
    assert_eq!((mixed_report.2, mixed_report.3, mixed_report.4), (report.2, report.3, report.4));
}

#[test]
fn the_order_inside_columns_is_ignored() {
    let plane = stairs();
    let mut turned = Plane::filled(30, 40, 255u8);
    for x in 0..30 {
        for y in 0..40 {
            turned.put(x, y, plane.get(x, 39 - y));
        }
    }
    assert_eq!(report_density(&turned, 2), report_density(&plane, 2));
}
