//! Adaptive thresholding, erosion, dilation and filled rectangles: the boundary to the
//! `imageproc` crate.

use image::{GrayImage, Rgba, RgbaImage};
use imageproc::distance_transform::Norm;
use imageproc::rect::Rect;
use vstd::prelude::*;

use crate::plane::{Grid, Plane};

verus! {

/// The smaller of two integers.
pub open spec fn smaller(a: int, b: int) -> int {
    if a < b {
        a
    } else {
        b
    }
}

/// The larger of two integers.
pub open spec fn larger(a: int, b: int) -> int {
    if a < b {
        b
    } else {
        a
    }
}

/// The sum of the cells of row `y` in the columns from `left` up to, not with, `right`.
pub open spec fn row_sum(grid: Grid<u8>, y: int, left: int, right: int) -> int
    decreases right - left,
{
    if right <= left {
        0
    } else {
        row_sum(grid, y, left, right - 1) + grid.at(right - 1, y)
    }
}

/// The sum of the cells in the rows from `top` up to, not with, `bottom`, and in the columns
/// from `left` up to, not with, `right`.
pub open spec fn block_sum(grid: Grid<u8>, left: int, top: int, right: int, bottom: int) -> int
    decreases bottom - top,
{
    if bottom <= top {
        0
    } else {
        block_sum(grid, left, top, right, bottom - 1) + row_sum(grid, bottom - 1, left, right)
    }
}

/// The block of a position: the columns and rows no further than `radius` from it that lie
/// inside the grid, as the first column and row of the block and those behind its last.
pub open spec fn block_around(grid: Grid<u8>, x: int, y: int, radius: int) -> (int, int, int, int) {
    (
        larger(0, x - radius),
        larger(0, y - radius),
        smaller(grid.width as int, x + radius + 1),
        smaller(grid.height as int, y + radius + 1),
    )
}

/// The number of cells in the block of a position.
pub open spec fn block_size(grid: Grid<u8>, x: int, y: int, radius: int) -> int {
    let (left, top, right, bottom) = block_around(grid, x, y, radius);
    (right - left) * (bottom - top)
}

/// The mean of the cells in the block of a position, rounded down.
pub open spec fn block_mean(grid: Grid<u8>, x: int, y: int, radius: int) -> int {
    let (left, top, right, bottom) = block_around(grid, x, y, radius);
    block_sum(grid, left, top, right, bottom) / block_size(grid, x, y, radius)
}

/// The sum of the cells above row `y` and left of column `x`.
pub open spec fn corner_sum(grid: Grid<u8>, x: int, y: int) -> int {
    block_sum(grid, 0, 0, x, y)
}

/// White where a cell is at least as bright as the mean around it less `delta`, black
/// elsewhere.
pub open spec fn thresholded(grid: Grid<u8>, radius: int, delta: int) -> Grid<u8> {
    Grid::tabulate(
        grid.width,
        grid.height,
        |x: int, y: int|
            if grid.at(x, y) >= block_mean(grid, x, y, radius) - delta {
                255u8
            } else {
                0u8
            },
    )
}

/// Some cell no further than `k` columns and rows from a position is black, if `black`, or
/// is not black, otherwise.
pub open spec fn found_near(grid: Grid<u8>, x: int, y: int, k: int, black: bool) -> bool {
    exists|i: int, j: int|
        #![trigger grid.at(i, j)]
        grid.has(i, j) && x - k <= i <= x + k && y - k <= j <= y + k && (grid.at(i, j) == 0)
            == black
}

/// The reach `k` is at least the largest distance that is told apart on a grid of this size:
/// every cell then counts as near.
pub open spec fn reaches_all(grid: Grid<u8>, k: int) -> bool {
    k >= smaller((grid.width + grid.height) as int, 255)
}

/// Black within `k` columns and rows of a black cell, white elsewhere.
pub open spec fn eroded(grid: Grid<u8>, k: int) -> Grid<u8> {
    Grid::tabulate(
        grid.width,
        grid.height,
        |x: int, y: int|
            if reaches_all(grid, k) || found_near(grid, x, y, k, true) {
                0u8
            } else {
                255u8
            },
    )
}

/// White within `k` columns and rows of a cell that is not black, black elsewhere.
pub open spec fn dilated(grid: Grid<u8>, k: int) -> Grid<u8> {
    Grid::tabulate(
        grid.width,
        grid.height,
        |x: int, y: int|
            if reaches_all(grid, k) || found_near(grid, x, y, k, false) {
                255u8
            } else {
                0u8
            },
    )
}

/// The numbers that thresholding needs at a position stay within 32 bits: the size of the
/// block, the two sums that are added for it, and the threshold.
pub open spec fn can_threshold_at(grid: Grid<u8>, x: int, y: int, radius: int, delta: int) -> bool {
    let (left, top, right, bottom) = block_around(grid, x, y, radius);
    &&& block_size(grid, x, y, radius) <= u32::MAX
    &&& corner_sum(grid, right, bottom) + corner_sum(grid, left, top) <= u32::MAX
    &&& block_mean(grid, x, y, radius) - delta <= i32::MAX
}

/// The numbers that thresholding a plane needs stay within 32 bits, and its buffers have an
/// address.
pub open spec fn can_threshold(grid: Grid<u8>, radius: int, delta: int) -> bool {
    &&& grid.width <= i32::MAX
    &&& grid.height <= i32::MAX
    &&& 4 * (grid.width + 1) * (grid.height + 1) <= isize::MAX
    &&& corner_sum(grid, grid.width as int, grid.height as int) <= u32::MAX
    &&& forall|x: int, y: int|
        grid.has(x, y) ==> #[trigger] can_threshold_at(grid, x, y, radius, delta)
}

/// Calls `imageproc::contrast::adaptive_threshold`. The mean that it compares with is taken
/// over the part of the block that lies inside the plane, and is rounded down.
#[verifier::external_body]
pub(crate) fn adaptive_threshold(plane: &Plane<u8>, radius: u32, delta: i32) -> (black_white: Plane<u8>)
    requires
        plane.wf(),
        0 < radius <= i32::MAX,
        can_threshold(plane@, radius as int, delta as int),
    ensures
        black_white.wf(),
        black_white@ == thresholded(plane@, radius as int, delta as int),
{
    let buffer = GrayImage::from_raw(plane.width, plane.height, plane.pixels.clone()).unwrap();
    let out = imageproc::contrast::adaptive_threshold(&buffer, radius, delta);
    Plane { width: plane.width, height: plane.height, pixels: out.into_raw() }
}

/// Calls `imageproc::morphology::erode` with `Norm::LInf`: black spreads by `k` columns and
/// rows. Distances are counted up to 255, and up to the sum of the sides on a small plane,
/// so a reach of that size turns everything black.
#[verifier::external_body]
pub(crate) fn erode(plane: &Plane<u8>, k: u8) -> (out: Plane<u8>)
    requires
        plane.wf(),
        plane.width + plane.height <= u32::MAX,
    ensures
        out.wf(),
        out@ == eroded(plane@, k as int),
{
    let buffer = GrayImage::from_raw(plane.width, plane.height, plane.pixels.clone()).unwrap();
    let out = imageproc::morphology::erode(&buffer, Norm::LInf, k);
    Plane { width: plane.width, height: plane.height, pixels: out.into_raw() }
}

/// Calls `imageproc::morphology::dilate` with `Norm::LInf`: white spreads by `k` columns and
/// rows. Distances are counted up to 255, and up to the sum of the sides on a small plane,
/// so a reach of that size turns everything white.
#[verifier::external_body]
pub(crate) fn dilate(plane: &Plane<u8>, k: u8) -> (out: Plane<u8>)
    requires
        plane.wf(),
        plane.width + plane.height <= u32::MAX,
    ensures
        out.wf(),
        out@ == dilated(plane@, k as int),
{
    let buffer = GrayImage::from_raw(plane.width, plane.height, plane.pixels.clone()).unwrap();
    let out = imageproc::morphology::dilate(&buffer, Norm::LInf, k);
    Plane { width: plane.width, height: plane.height, pixels: out.into_raw() }
}

/// Calls `imageproc::drawing::draw_filled_rect_mut`: the pixels of the rectangle that lie
/// inside the plane take the colour, and every other pixel stays as it was.
#[verifier::external_body]
pub(crate) fn fill_rect(
    plane: &mut Plane<[u8; 4]>,
    left: i32,
    top: i32,
    width: u32,
    height: u32,
    color: [u8; 4],
)
    requires
        old(plane).wf(),
        old(plane).width <= i32::MAX,
        old(plane).height <= i32::MAX,
        0 < width,
        0 < height,
        left + width <= i32::MAX,
        top + height <= i32::MAX,
        width <= i32::MAX,
        height <= i32::MAX,
    ensures
        final(plane).wf(),
        final(plane).width == old(plane).width,
        final(plane).height == old(plane).height,
        forall|x: int, y: int|
            old(plane)@.has(x, y) ==> #[trigger] final(plane)@.at(x, y) == (if left <= x < left
                + width && top <= y < top + height {
                color
            } else {
                old(plane)@.at(x, y)
            }),
{
    let flat = plane.pixels.concat();
    let mut canvas = RgbaImage::from_raw(plane.width, plane.height, flat).unwrap();
    let rect = Rect::at(left, top).of_size(width, height);
    imageproc::drawing::draw_filled_rect_mut(&mut canvas, rect, Rgba(color));
    plane.pixels = canvas.pixels().map(|pixel| pixel.0).collect();
}

} // verus!
