//! Pictures in the form in which a viewer shows them.

use vstd::prelude::*;

use crate::denoiser_app::DenoiserApp;
use crate::error::DenoiseError;
use crate::picture::{load_from_memory, size_can_expand, to_rgba8};
use crate::plane::Plane;
#[allow(unused_imports)]
use crate::picture::{can_expand, expands_to, load_outcome, loads_as, Picture};
#[allow(unused_imports)]
use crate::plane::Grid;

verus! {

/// A picture for the screen: its width and height, and its pixels row by row from the top
/// left, each as red, green, blue and alpha with the colours scaled by the alpha.
pub struct ColorImage {
    pub size: [usize; 2],
    pub pixels: Vec<[u8; 4]>,
}

impl ColorImage {
    /// There is exactly one pixel for every position.
    pub open spec fn wf(&self) -> bool {
        self.pixels@.len() == self.size[0] * self.size[1]
    }
}

/// A colour value scaled by the alpha, to the nearest integer.
pub open spec fn scaled_by_alpha(value: u8, alpha: u8) -> u8 {
    ((2 * value * alpha + 255) / 510) as u8
}

/// A pixel whose colours are scaled by its alpha.
pub open spec fn premultiplied(r: u8, g: u8, b: u8, a: u8) -> [u8; 4] {
    [scaled_by_alpha(r, a), scaled_by_alpha(g, a), scaled_by_alpha(b, a), a]
}

/// Pixel `i` of a row of bytes, four to a pixel, with its colours scaled by its alpha.
pub open spec fn screen_pixel(rgba: Seq<u8>, i: int) -> [u8; 4] {
    premultiplied(rgba[4 * i], rgba[4 * i + 1], rgba[4 * i + 2], rgba[4 * i + 3])
}

/// Calls `egui::Color32::from_rgba_unmultiplied`. The product of a colour and an alpha over
/// 255 is never close to the middle between two integers, so that its rounding is exact.
#[verifier::external_body]
fn color32(r: u8, g: u8, b: u8, a: u8) -> (pixel: [u8; 4])
    ensures
        pixel == premultiplied(r, g, b, a),
{
    egui::Color32::from_rgba_unmultiplied(r, g, b, a).to_array()
}

/// Turns the bytes of a matrix with four channels, red first, into a picture for the screen.
/// Bytes behind the last whole pixel are ignored.
pub fn mat_to_color_image(width: usize, height: usize, rgba: &[u8]) -> (image: ColorImage)
    requires
        rgba@.len() / 4 == width * height,
    ensures
        image.wf(),
        image.size == [width, height],
        image.pixels@.len() == rgba@.len() / 4,
        forall|i: int|
            0 <= i < image.pixels@.len() ==> #[trigger] image.pixels@[i] == screen_pixel(rgba@, i),
{
    let count: usize = rgba.len() / 4;
    let mut pixels: Vec<[u8; 4]> = Vec::new();
    let mut i: usize = 0;
    while i < count
        invariant
            i <= count,
            count == rgba@.len() / 4,
            pixels@.len() == i,
            forall|k: int| 0 <= k < i ==> #[trigger] pixels@[k] == screen_pixel(rgba@, k),
        decreases count - i,
    {
        assert(4 * i + 3 < rgba.len());
        pixels.push(color32(rgba[4 * i], rgba[4 * i + 1], rgba[4 * i + 2], rgba[4 * i + 3]));
        i += 1;
    }
    ColorImage { size: [width, height], pixels }
}

/// A plane with four channels as a picture for the screen.
pub open spec fn shows(image: ColorImage, grid: Grid<[u8; 4]>) -> bool {
    &&& image.size@ == seq![grid.width as usize, grid.height as usize]
    &&& image.pixels@.len() == grid.cells.len()
    &&& forall|i: int|
        0 <= i < grid.cells.len() ==> #[trigger] image.pixels@[i] == premultiplied(
            grid.cells[i][0],
            grid.cells[i][1],
            grid.cells[i][2],
            grid.cells[i][3],
        )
}

/// Turns a plane with four channels into a picture for the screen.
pub fn plane_to_color_image(plane: &Plane<[u8; 4]>) -> (image: ColorImage)
    requires
        plane.wf(),
    ensures
        image.wf(),
        shows(image, plane@),
{
    let mut pixels: Vec<[u8; 4]> = Vec::new();
    let mut i: usize = 0;
    while i < plane.pixels.len()
        invariant
            i <= plane.pixels@.len(),
            pixels@.len() == i,
            forall|k: int|
                0 <= k < i ==> #[trigger] pixels@[k] == premultiplied(
                    plane.pixels@[k][0],
                    plane.pixels@[k][1],
                    plane.pixels@[k][2],
                    plane.pixels@[k][3],
                ),
        decreases plane.pixels@.len() - i,
    {
        let pixel: [u8; 4] = plane.pixels[i];
        pixels.push(color32(pixel[0], pixel[1], pixel[2], pixel[3]));
        i += 1;
    }
    ColorImage { size: [plane.width as usize, plane.height as usize], pixels }
}

/// What showing a file may come to.
pub open spec fn showing_outcome(
    bytes: Seq<u8>,
    outcome: Result<ColorImage, DenoiseError>,
) -> bool {
    match outcome {
        Ok(image) => exists|picture: Picture, grid: Grid<[u8; 4]>| #[trigger]
            loads_as(bytes, picture) && #[trigger] expands_to(picture, grid)
                && can_expand(picture.width, picture.height) && shows(image, grid),
        Err(DenoiseError::Undecodable) => load_outcome(bytes, None),
        Err(DenoiseError::Geometry) => exists|picture: Picture| #[trigger]
            loads_as(bytes, picture) && !can_expand(picture.width, picture.height),
        Err(DenoiseError::Unencodable) => false,
    }
}

impl DenoiserApp {
    /// Decodes a picture file for the screen. There is no result for a file that cannot be
    /// decoded or for a picture that is too large.
    pub fn color_image_from_bytes(bytes: &[u8]) -> (outcome: Result<ColorImage, DenoiseError>)
        ensures
            showing_outcome(bytes@, outcome),
            outcome matches Ok(image) ==> image.wf(),
    {
        let image = match load_from_memory(bytes) {
            Ok(image) => image,
            Err(_) => {
                return Err(DenoiseError::Undecodable);
            },
        };
        if !size_can_expand(&image) {
            return Err(DenoiseError::Geometry);
        }
        Ok(plane_to_color_image(&to_rgba8(&image)))
    }
}

} // verus!
