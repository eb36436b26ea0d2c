use denoiser::denoiser_app::DenoiserApp;
use denoiser::error::DenoiseError;
use denoiser::plane::Plane;
use denoiser::white_lines::{rule_lines, OPAQUE_WHITE};
use image::{
    DynamicImage, GenericImageView, GrayImage, ImageFormat, Luma, Rgb, RgbImage, RgbaImage,
};
use std::io::Cursor;

fn encode(image: &DynamicImage, format: ImageFormat) -> Vec<u8> {
    let mut file = Cursor::new(Vec::new());
    image.write_to(&mut file, format).unwrap();
    file.into_inner()
}

fn red(width: u32, height: u32) -> Vec<u8> {
    let image = RgbImage::from_pixel(width, height, Rgb([200, 0, 0]));
    encode(&DynamicImage::ImageRgb8(image), ImageFormat::Png)
}

const DOT: [u8; 4] = [1, 2, 3, 4];

fn white_positions(plane: &Plane<[u8; 4]>) -> Vec<(u32, u32)> {
    let mut found = Vec::new();
    for y in 0..plane.height {
        for x in 0..plane.width {
            if plane.get(x, y) == OPAQUE_WHITE {
                found.push((x, y));
            } else {
                assert_eq!(plane.get(x, y), DOT);
            }
        }
    }
    found
}

fn expected(w: u32, h: u32, on: &dyn Fn(u32, u32) -> bool) -> Vec<(u32, u32)> {
    let mut found = Vec::new();
    for y in 0..h {
        for x in 0..w {
            if on(x, y) {
                found.push((x, y));
            }
        }
    }
    found
}

#[test]
fn lines_at_every_step() {
    let mut plane = Plane::filled(11, 9, DOT);
    rule_lines(&mut plane, 1, 4, 2, 5);
    assert_eq!(white_positions(&plane), expected(11, 9, &|x, y| y % 4 < 1 || x % 5 < 2));
}

#[test]
fn thick_lines_cover_everything() {
    let mut plane = Plane::filled(5, 5, DOT);
    rule_lines(&mut plane, 3, 2, 1, 5);
    assert_eq!(white_positions(&plane).len(), 25);
}

#[test]
fn a_line_is_cut_at_the_border() {
    let mut plane = Plane::filled(4, 4, DOT);
    rule_lines(&mut plane, 3, 10, 1, 10);
    assert_eq!(white_positions(&plane), expected(4, 4, &|x, y| y < 3 || x < 1));
}

#[test]
fn a_negative_step_gives_one_line() {
    let mut plane = Plane::filled(6, 6, DOT);
    rule_lines(&mut plane, 2, -1, 1, -7);
    assert_eq!(white_positions(&plane), expected(6, 6, &|x, y| y < 2 || x < 1));
}

#[test]
fn ruling_twice_is_ruling_once() {
    let mut plane = Plane::filled(13, 8, DOT);
    rule_lines(&mut plane, 2, 3, 1, 4);
    let once = plane.pixels.clone();
    rule_lines(&mut plane, 2, 3, 1, 4);
    assert_eq!(plane.pixels, once);
}

#[test]
fn an_empty_plane_stays_empty() {
    let mut plane: Plane<[u8; 4]> = Plane { width: 0, height: 0, pixels: vec![] };
    rule_lines(&mut plane, 0, 1, 0, 1);
    assert!(plane.pixels.is_empty());
}

#[test]
fn ruling_a_file() {
    let image = DenoiserApp::add_white_lines(&red(12, 7), 1, 3, 2, 6).unwrap();
    assert!(matches!(image, DynamicImage::ImageRgba8(_)));
    let pixels = image.to_rgba8();
    assert_eq!(pixels.dimensions(), (12, 7));
    for (x, y, pixel) in pixels.enumerate_pixels() {
        let white = y % 3 < 1 || x % 6 < 2;
        assert_eq!(pixel.0, if white { OPAQUE_WHITE } else { [200, 0, 0, 255] });
    }
}

#[test]
fn ruling_errors() {
    let file = red(12, 7);
    let undecodable = DenoiserApp::add_white_lines(&vec![0; 40], 1, 3, 2, 6);
    assert!(matches!(undecodable, Err(DenoiseError::Undecodable)));
    for (hl, vl) in [(0, 1), (1, 0), (u32::MAX, 1), (1, i32::MAX as u32 - 5)] {
        let outcome = DenoiserApp::add_white_lines(&file, hl, 3, vl, 6);
        assert!(matches!(outcome, Err(DenoiseError::Geometry)));
    }
    // The last vertical line starts at column 6.
    assert!(DenoiserApp::add_white_lines(&file, 1, 3, i32::MAX as u32 - 6, 6).is_ok());
}

fn rgba(plane: &Plane<[u8; 4]>) -> DynamicImage {
    let buffer = RgbaImage::from_raw(plane.width, plane.height, plane.pixels.concat()).unwrap();
    DynamicImage::ImageRgba8(buffer)
}

#[test]
fn written_pictures_read_back() {
    let mut plane = Plane::filled(3, 2, DOT);
    plane.put(1, 1, [9, 8, 7, 0]);
    let gray = GrayImage::from_fn(5, 4, |x, y| Luma([(x * 40 + y) as u8]));
    let rgb = RgbImage::from_fn(5, 4, |x, y| Rgb([x as u8, y as u8, 200]));
    for image in [rgba(&plane), DynamicImage::ImageLuma8(gray), DynamicImage::ImageRgb8(rgb)] {
        let file = DenoiserApp::img_to_bytes(&image).unwrap();
        assert_eq!(image::load_from_memory(&file).unwrap(), image);
    }
}

#[test]
fn pictures_that_cannot_be_written() {
    let empty = DynamicImage::ImageRgba8(RgbaImage::new(0, 4));
    assert_eq!(DenoiserApp::img_to_bytes(&empty), Err(DenoiseError::Unencodable));
    let padded = GrayImage::from_raw(2, 2, vec![7; 5]).unwrap();
    let outcome = DenoiserApp::img_to_bytes(&DynamicImage::ImageLuma8(padded));
    assert_eq!(outcome, Err(DenoiseError::Unencodable));
    let float = DynamicImage::ImageRgb8(RgbImage::new(2, 2)).to_rgb32f();
    let outcome = DenoiserApp::img_to_bytes(&DynamicImage::ImageRgb32F(float));
    assert_eq!(outcome, Err(DenoiseError::Unencodable));
}

#[test]
fn ruling_a_ruled_file_changes_nothing() {
    let image = DenoiserApp::add_white_lines(&red(31, 17), 2, 5, 1, 4).unwrap();
    let file = DenoiserApp::img_to_bytes(&image).unwrap();
    assert_eq!(DenoiserApp::add_white_lines(&file, 2, 5, 1, 4).unwrap(), image);
}

#[test]
fn a_square_stays_square() {
    let white = GrayImage::from_pixel(100, 100, Luma([255]));
    let file = DenoiserApp::img_to_bytes(&DynamicImage::ImageLuma8(white)).unwrap();
    let scaled = DenoiserApp::resize(&file, 400, 200).unwrap();
    assert_eq!(image::load_from_memory(&scaled).unwrap().dimensions(), (200, 200));
}

#[test]
fn the_other_side_is_proportional() {
    for (w, h, nw, nh, expected) in [
        (30, 20, 400, 200, (300, 200)),
        (7, 3, 100, 100, (100, 43)),
        (3, 7, 100, 100, (43, 100)),
        (1000, 2, 100, 100, (100, 1)),
        (400, 3, 40, 40, (40, 1)),
    ] {
        let scaled = DenoiserApp::resize(&red(w, h), nw, nh).unwrap();
        assert_eq!(image::load_from_memory(&scaled).unwrap().dimensions(), expected);
    }
}

#[test]
fn a_half_is_rounded_up_where_the_ratio_is_exact() {
    for (w, h, nw, expected) in [(2, 3, 1, 2), (4, 10, 1, 3), (4, 6, 3, 5), (8, 20, 5, 13)] {
        let scaled = DenoiserApp::resize(&red(w, h), nw, 1000).unwrap();
        assert_eq!(image::load_from_memory(&scaled).unwrap().dimensions(), (nw, expected));
    }
}

#[test]
fn sizes_are_rounded_to_the_nearest_integer() {
    for (w, h) in [(1, 1), (1, 9), (5, 3), (6, 11), (13, 2), (17, 16)] {
        let file = red(w, h);
        for (nw, nh) in [(1, 1), (2, 7), (10, 4), (9, 9), (31, 8), (12, 40)] {
            let scaled = DenoiserApp::resize(&file, nw, nh).unwrap();
            let (columns, rows) = image::load_from_memory(&scaled).unwrap().dimensions();
            let (side, product, along) = if nw * h <= nh * w {
                assert_eq!(columns, nw);
                (rows, h * nw, w)
            } else {
                assert_eq!(rows, nh);
                (columns, w * nh, h)
            };
            assert!(side == 1 || (side * along).abs_diff(product) * 2 <= along);
            assert!((side * along).abs_diff(product) < along);
        }
    }
}

#[test]
fn scaling_again_changes_nothing() {
    let once = DenoiserApp::resize(&red(37, 11), 60, 50).unwrap();
    assert_eq!(DenoiserApp::resize(&once, 60, 50), Ok(once));
}

#[test]
fn a_long_bound_does_not_matter() {
    let scaled = DenoiserApp::resize(&red(4, 4), u32::MAX, 200).unwrap();
    assert_eq!(image::load_from_memory(&scaled).unwrap().dimensions(), (200, 200));
}

fn farbfeld(width: u32, height: u32) -> Vec<u8> {
    [b"farbfeld".as_slice(), &width.to_be_bytes(), &height.to_be_bytes()].concat()
}

#[test]
fn an_empty_picture_becomes_a_blank_one() {
    for (w, h, expected) in [(0, 5, (1, 200)), (5, 0, (400, 1)), (0, 0, (1, 1))] {
        let scaled = DenoiserApp::resize(&farbfeld(w, h), 400, 200).unwrap();
        let image = image::load_from_memory(&scaled).unwrap();
        assert_eq!(image.dimensions(), expected);
        assert!(image.as_bytes().iter().all(|byte| *byte == 0));
    }
    let unscaled = DenoiserApp::resize(&farbfeld(0, 5), 0, 5);
    assert_eq!(unscaled, Err(DenoiseError::Unencodable));
}

#[test]
fn scaling_keeps_the_shape() {
    for ((w, h), (fit_w, fit_h)) in [
        ((100, 100), (200, 200)),
        ((800, 100), (400, 50)),
        ((10, 40), (50, 200)),
        ((1200, 300), (400, 100)),
        ((1, 1000), (1, 200)),
    ] {
        let file = DenoiserApp::resize(&red(w, h), 400, 200).unwrap();
        assert_eq!(image::load_from_memory(&file).unwrap().dimensions(), (fit_w, fit_h));
    }
}

#[test]
fn scaling_to_the_same_size_copies() {
    let mut image = GrayImage::from_pixel(40, 20, Luma([9]));
    image.put_pixel(3, 4, Luma([200]));
    let file = encode(&DynamicImage::ImageLuma8(image.clone()), ImageFormat::Png);
    let scaled = DenoiserApp::resize(&file, 40, 20).unwrap();
    assert_eq!(image::load_from_memory(&scaled).unwrap().to_luma8(), image);
}

#[test]
fn scaling_a_plain_colour_keeps_it() {
    let scaled = DenoiserApp::resize(&red(60, 30), 20, 20).unwrap();
    let back = image::load_from_memory(&scaled).unwrap().to_rgb8();
    assert_eq!(back.dimensions(), (20, 10));
    assert!(back.pixels().all(|p| *p == Rgb([200, 0, 0])));
}

#[test]
fn scaling_into_no_room_leaves_one_pixel() {
    let scaled = DenoiserApp::resize(&red(60, 30), 0, 20).unwrap();
    assert_eq!(image::load_from_memory(&scaled).unwrap().dimensions(), (1, 1));
}

#[test]
fn scaling_errors() {
    assert_eq!(DenoiserApp::resize(&[], 400, 200), Err(DenoiseError::Undecodable));
    // Buffers of this size have no address.
    let huge = DenoiserApp::resize(&red(4, 4), u32::MAX, u32::MAX);
    assert_eq!(huge, Err(DenoiseError::Geometry));
    // A PNG file cannot hold floating-point samples.
    let float = DynamicImage::ImageRgb8(RgbImage::from_pixel(4, 4, Rgb([1, 2, 3]))).to_rgb32f();
    let hdr = encode(&DynamicImage::ImageRgb32F(float), ImageFormat::Hdr);
    assert_eq!(DenoiserApp::resize(&hdr, 2, 2), Err(DenoiseError::Unencodable));
}

#[test]
fn ruling_a_written_plane() {
    let mut plane = Plane::filled(9, 8, DOT);
    plane.put(5, 3, [9, 8, 7, 0]);
    let file = DenoiserApp::img_to_bytes(&rgba(&plane)).unwrap();
    let from_file = DenoiserApp::add_white_lines(&file, 2, 4, 1, 3).unwrap();
    rule_lines(&mut plane, 2, 4, 1, 3);
    assert_eq!(from_file, rgba(&plane));
}
