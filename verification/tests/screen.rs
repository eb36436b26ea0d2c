use denoiser::denoiser_app::DenoiserApp;
use denoiser::error::DenoiseError;
use denoiser::lines::{fixed_aperture, horizontal_lines, LineSegment};
use denoiser::plane::Plane;
use denoiser::utils::{mat_to_color_image, plane_to_color_image};
use image::{DynamicImage, RgbaImage};

#[test]
fn colours_are_scaled_by_alpha() {
    for alpha in 0..=255u32 {
        let bytes: Vec<u8> = (0..=255u8).flat_map(|v| [v, 255 - v, 0, alpha as u8]).collect();
        let image = mat_to_color_image(16, 16, &bytes);
        assert_eq!(image.size, [16, 16]);
        for v in 0..=255u32 {
            let scaled = |c: u32| ((2 * c * alpha + 255) / 510) as u8;
            let pixel = image.pixels[v as usize];
            assert_eq!(pixel, [scaled(v), scaled(255 - v), 0, alpha as u8]);
        }
    }
}

#[test]
fn a_matrix_in_order() {
    let bytes = [1, 2, 3, 255, 4, 5, 6, 0, 200, 100, 50, 128];
    let image = mat_to_color_image(3, 1, &bytes);
    assert_eq!(image.pixels, vec![[1, 2, 3, 255], [0, 0, 0, 0], [100, 50, 25, 128]]);
}

#[test]
fn bytes_behind_the_last_pixel_are_ignored() {
    let image = mat_to_color_image(1, 1, &[7, 7, 7, 255, 9, 9]);
    assert_eq!(image.pixels, vec![[7, 7, 7, 255]]);
}

#[test]
fn a_plane_for_the_screen() {
    let plane = Plane { width: 1, height: 2, pixels: vec![[255, 255, 0, 128], [3, 4, 5, 255]] };
    let image = plane_to_color_image(&plane);
    assert_eq!(image.size, [1, 2]);
    assert_eq!(image.pixels, vec![[128, 128, 0, 128], [3, 4, 5, 255]]);
}

#[test]
fn a_file_for_the_screen() {
    let plane = Plane { width: 2, height: 1, pixels: vec![[255, 255, 0, 128], [3, 4, 5, 255]] };
    let buffer = RgbaImage::from_raw(2, 1, plane.pixels.concat()).unwrap();
    let file = DenoiserApp::img_to_bytes(&DynamicImage::ImageRgba8(buffer)).unwrap();
    let image = DenoiserApp::color_image_from_bytes(&file).ok().unwrap();
    assert_eq!(image.size, [2, 1]);
    assert_eq!(image.pixels, vec![[128, 128, 0, 128], [3, 4, 5, 255]]);
    let failed = DenoiserApp::color_image_from_bytes(&[0]);
    assert!(matches!(failed, Err(DenoiseError::Undecodable)));
}

#[test]
fn apertures() {
    for (aperture, fixed) in [(3, 3), (4, 5), (5, 5), (6, 7), (7, 7), (8, 7), (9, 9), (0, 1), (-2, -1), (-3, -3)] {
        assert_eq!(fixed_aperture(aperture), fixed);
    }
    assert_eq!(fixed_aperture(i32::MAX - 1), 7);
    assert_eq!(fixed_aperture(i32::MIN), i32::MIN + 1);
}

#[test]
fn flat_lines_are_kept_in_order() {
    let line = |n: i32| LineSegment { x1: n, y1: 0, x2: n + 5, y2: 1 };
    let lines = vec![line(0), line(1), line(2), line(3)];
    let kept = horizontal_lines(&lines, &vec![true, false, true, false]);
    assert_eq!(kept, vec![line(0), line(2)]);
    assert!(horizontal_lines(&lines, &vec![false; 4]).is_empty());
}

#[test]
fn extent_of_a_line() {
    let line = LineSegment { x1: 10, y1: 4, x2: 3, y2: 9 };
    assert_eq!(line.extent(), (-7, 5));
}
