//! Scaling a picture into a window and ruling white lines across it.

use image::DynamicImage;
use vstd::prelude::*;

use crate::denoiser_app::DenoiserApp;
use crate::error::DenoiseError;
use crate::morphology::fill_rect;
use crate::picture::{
    fit, image_height, image_to_png, image_width, is_exact, load_from_memory, rgba_image,
    size_can_expand, to_rgba8, LONG_SIDE, SHORT_SIDE,
};
use crate::plane::Plane;
#[allow(unused_imports)]
use crate::picture::{
    at_least_one, can_expand, can_fit, can_sample, contents, encodes, expands_to, fit_bounds,
    fit_outcome, fitted, lemma_inside_fit_bounds, load_outcome, loads_as, rgba_picture,
    rounded_up, Picture,
};
#[allow(unused_imports)]
use crate::plane::{lemma_same_cells, lemma_tabulate, Grid};

verus! {

/// The colour of the lines.
pub const OPAQUE_WHITE: [u8; 4] = [255, 255, 255, 255];

/// The distance between the starts of two lines on a side of `len` pixels. A negative step
/// leads past the end: then there is one line.
pub open spec fn stride(step: i32, len: nat) -> int {
    if step > 0 {
        step as int
    } else {
        len as int
    }
}

/// Whether a row or column lies on a line, where lines start at every multiple of the stride
/// and are `thickness` wide.
pub open spec fn on_line(position: int, step: i32, len: nat, thickness: u32) -> bool {
    position % stride(step, len) < thickness
}

/// The start of the last line.
pub open spec fn last_line(step: i32, len: nat) -> int {
    ((len - 1) / stride(step, len)) * stride(step, len)
}

/// A grid with horizontal and vertical white lines across it.
pub open spec fn ruled(
    grid: Grid<[u8; 4]>,
    hl_thickness: u32,
    hl_step: i32,
    vl_thickness: u32,
    vl_step: i32,
) -> Grid<[u8; 4]> {
    Grid::tabulate(
        grid.width,
        grid.height,
        |x: int, y: int|
            if on_line(y, hl_step, grid.height, hl_thickness) || on_line(
                x,
                vl_step,
                grid.width,
                vl_thickness,
            ) {
                OPAQUE_WHITE
            } else {
                grid.at(x, y)
            },
    )
}

/// Lines of this thickness can be ruled along a side of `len` pixels: every line ends within
/// the positive 32-bit integers.
pub open spec fn can_rule_side(len: nat, thickness: u32, step: i32) -> bool {
    &&& 0 < len <= i32::MAX
    &&& thickness > 0
    &&& last_line(step, len) + thickness <= i32::MAX
}

/// Lines can be ruled across a picture of this size. There is nothing to do on one without
/// rows and columns.
pub open spec fn can_rule(
    width: nat,
    height: nat,
    hl_thickness: u32,
    hl_step: i32,
    vl_thickness: u32,
    vl_step: i32,
) -> bool {
    ||| width == 0 && height == 0
    ||| can_rule_side(height, hl_thickness, hl_step) && can_rule_side(width, vl_thickness, vl_step)
}

/// Whether the lines that start before `next` cover a position.
spec fn covered(position: int, next: int, stride: int, thickness: u32) -> bool {
    if position < next {
        position % stride < thickness
    } else {
        next > 0 && position < next - stride + thickness
    }
}

/// One more line, at `k` strides, covers what the lines up to it cover.
proof fn lemma_covered(position: int, k: int, stride: int, thickness: u32)
    requires
        0 <= position,
        0 <= k,
        0 < stride,
    ensures
        covered(position, k * stride + stride, stride, thickness) == (covered(
            position,
            k * stride,
            stride,
            thickness,
        ) || k * stride <= position < k * stride + thickness),
{
    let next = k * stride;
    assert(next >= 0) by (nonlinear_arith)
        requires
            next == k * stride,
            0 <= k,
            0 < stride,
    ;
    if next <= position < next + stride {
        vstd::arithmetic::div_mod::lemma_fundamental_div_mod_converse(
            position,
            stride,
            k,
            position - next,
        );
    }
}

/// A multiple of the stride below the length is no further than the last line.
proof fn lemma_last_line(k: int, stride: int, len: int)
    requires
        0 <= k,
        0 < stride,
        k * stride < len,
    ensures
        k * stride <= ((len - 1) / stride) * stride,
{
    assert(k <= (len - 1) / stride) by (nonlinear_arith)
        requires
            0 < stride,
            k * stride <= len - 1,
    ;
    assert(k * stride <= ((len - 1) / stride) * stride) by (nonlinear_arith)
        requires
            k <= (len - 1) / stride,
            0 < stride,
    ;
}

/// Rules horizontal lines across a plane.
fn rule_rows(plane: &mut Plane<[u8; 4]>, thickness: u32, step: i32)
    requires
        old(plane).wf(),
        0 < old(plane).width <= i32::MAX,
        can_rule_side(old(plane)@.height, thickness, step),
    ensures
        final(plane).wf(),
        final(plane).width == old(plane).width,
        final(plane).height == old(plane).height,
        forall|x: int, y: int|
            old(plane)@.has(x, y) ==> #[trigger] final(plane)@.at(x, y) == (if on_line(
                y,
                step,
                old(plane)@.height,
                thickness,
            ) {
                OPAQUE_WHITE
            } else {
                old(plane)@.at(x, y)
            }),
{
    let ghost before = plane@;
    let width: u32 = plane.width;
    let height: u32 = plane.height;
    let gap: u32 = if step > 0 {
        step as u32
    } else {
        height
    };
    let mut y: u32 = 0;
    let ghost mut k: int = 0;
    assert forall|i: int, j: int| before.has(i, j) implies !covered(j, 0, gap as int, thickness) by {
        assert(j >= 0);
    }
    while y < height
        invariant
            plane.wf(),
            plane@.width == before.width,
            plane@.height == before.height,
            width == plane.width,
            height == plane.height,
            0 < width <= i32::MAX,
            gap == stride(step, before.height),
            0 < gap <= i32::MAX,
            can_rule_side(before.height, thickness, step),
            0 <= k,
            y == k * gap,
            y < height + gap,
            forall|i: int, j: int|
                before.has(i, j) ==> #[trigger] plane@.at(i, j) == (if covered(
                    j,
                    y as int,
                    gap as int,
                    thickness,
                ) {
                    OPAQUE_WHITE
                } else {
                    before.at(i, j)
                }),
        decreases height + gap - y,
    {
        proof {
            lemma_last_line(k, gap as int, height as int);
        }
        fill_rect(plane, 0, y as i32, width, thickness, OPAQUE_WHITE);
        proof {
            assert forall|i: int, j: int| before.has(i, j) implies #[trigger] plane@.at(i, j) == (
            if covered(j, y + gap, gap as int, thickness) {
                OPAQUE_WHITE
            } else {
                before.at(i, j)
            }) by {
                lemma_covered(j, k, gap as int, thickness);
            }
            assert(k * gap + gap == (k + 1) * gap) by (nonlinear_arith);
            k = k + 1;
        }
        y += gap;
    }
}

/// Rules vertical lines across a plane.
fn rule_columns(plane: &mut Plane<[u8; 4]>, thickness: u32, step: i32)
    requires
        old(plane).wf(),
        0 < old(plane).height <= i32::MAX,
        can_rule_side(old(plane)@.width, thickness, step),
    ensures
        final(plane).wf(),
        final(plane).width == old(plane).width,
        final(plane).height == old(plane).height,
        forall|x: int, y: int|
            old(plane)@.has(x, y) ==> #[trigger] final(plane)@.at(x, y) == (if on_line(
                x,
                step,
                old(plane)@.width,
                thickness,
            ) {
                OPAQUE_WHITE
            } else {
                old(plane)@.at(x, y)
            }),
{
    let ghost before = plane@;
    let width: u32 = plane.width;
    let height: u32 = plane.height;
    let gap: u32 = if step > 0 {
        step as u32
    } else {
        width
    };
    let mut x: u32 = 0;
    let ghost mut k: int = 0;
    assert forall|i: int, j: int| before.has(i, j) implies !covered(i, 0, gap as int, thickness) by {
        assert(i >= 0);
    }
    while x < width
        invariant
            plane.wf(),
            plane@.width == before.width,
            plane@.height == before.height,
            width == plane.width,
            height == plane.height,
            0 < height <= i32::MAX,
            gap == stride(step, before.width),
            0 < gap <= i32::MAX,
            can_rule_side(before.width, thickness, step),
            0 <= k,
            x == k * gap,
            x < width + gap,
            forall|i: int, j: int|
                before.has(i, j) ==> #[trigger] plane@.at(i, j) == (if covered(
                    i,
                    x as int,
                    gap as int,
                    thickness,
                ) {
                    OPAQUE_WHITE
                } else {
                    before.at(i, j)
                }),
        decreases width + gap - x,
    {
        proof {
            lemma_last_line(k, gap as int, width as int);
        }
        fill_rect(plane, x as i32, 0, thickness, height, OPAQUE_WHITE);
        proof {
            assert forall|i: int, j: int| before.has(i, j) implies #[trigger] plane@.at(i, j) == (
            if covered(i, x + gap, gap as int, thickness) {
                OPAQUE_WHITE
            } else {
                before.at(i, j)
            }) by {
                lemma_covered(i, k, gap as int, thickness);
            }
            assert(k * gap + gap == (k + 1) * gap) by (nonlinear_arith);
            k = k + 1;
        }
        x += gap;
    }
}

/// Rules white lines across a plane.
pub fn rule_lines(
    plane: &mut Plane<[u8; 4]>,
    hl_thickness: u32,
    hl_step: i32,
    vl_thickness: u32,
    vl_step: i32,
)
    requires
        old(plane).wf(),
        hl_step != 0,
        vl_step != 0,
        can_rule(
            old(plane)@.width,
            old(plane)@.height,
            hl_thickness,
            hl_step,
            vl_thickness,
            vl_step,
        ),
    ensures
        final(plane).wf(),
        final(plane)@ == ruled(old(plane)@, hl_thickness, hl_step, vl_thickness, vl_step),
{
    let ghost before = plane@;
    if plane.width > 0 {
        rule_rows(plane, hl_thickness, hl_step);
        rule_columns(plane, vl_thickness, vl_step);
    }
    proof {
        lemma_tabulate(
            before.width,
            before.height,
            |x: int, y: int|
                if on_line(y, hl_step, before.height, hl_thickness) || on_line(
                    x,
                    vl_step,
                    before.width,
                    vl_thickness,
                ) {
                    OPAQUE_WHITE
                } else {
                    before.at(x, y)
                },
        );
        lemma_same_cells(plane@, ruled(before, hl_thickness, hl_step, vl_thickness, vl_step));
    }
}

/// Whether lines of this thickness can be ruled along a side.
fn side_can_be_ruled(len: u32, thickness: u32, step: i32) -> (possible: bool)
    requires
        step != 0,
    ensures
        possible == can_rule_side(len as nat, thickness, step),
{
    if len == 0 || len > i32::MAX as u32 || thickness == 0 {
        return false;
    }
    let gap: u32 = if step > 0 {
        step as u32
    } else {
        len
    };
    let lines: u32 = (len - 1) / gap;
    proof {
        assert(lines * gap <= len - 1) by (nonlinear_arith)
            requires
                lines == (len - 1) / (gap as int),
                0 < gap,
        ;
        assert(lines * gap >= 0) by (nonlinear_arith)
            requires
                0 <= lines,
                0 <= gap,
        ;
    }
    (lines * gap) as u64 + thickness as u64 <= i32::MAX as u64
}

/// The file is the PNG file of `scaled`, which is `picture` scaled into the window.
pub open spec fn resized_as(
    picture: Picture,
    new_width: u32,
    new_height: u32,
    scaled: Picture,
    file: Seq<u8>,
) -> bool {
    &&& can_fit(picture.width, picture.height, new_width, new_height)
    &&& !picture.kind.is_float()
    &&& scaled.nonempty()
    &&& fitted(picture, new_width, new_height, scaled)
    &&& encodes(file, scaled)
}

/// What scaling a file into a window may come to.
pub open spec fn resize_outcome(
    bytes: Seq<u8>,
    new_width: u32,
    new_height: u32,
    outcome: Result<Vec<u8>, DenoiseError>,
) -> bool {
    match outcome {
        Ok(file) => exists|picture: Picture, scaled: Picture|
            {
                &&& #[trigger] loads_as(bytes, picture)
                &&& #[trigger] fit_outcome(picture, new_width, new_height, scaled)
                &&& resized_as(picture, new_width, new_height, scaled, file@)
            },
        Err(DenoiseError::Undecodable) => load_outcome(bytes, None),
        Err(DenoiseError::Geometry) => exists|picture: Picture| #[trigger]
            loads_as(bytes, picture) && !can_fit(
                picture.width,
                picture.height,
                new_width,
                new_height,
            ),
        Err(DenoiseError::Unencodable) => exists|picture: Picture| #[trigger]
            loads_as(bytes, picture) && can_fit(
                picture.width,
                picture.height,
                new_width,
                new_height,
            ) && (picture.kind.is_float() || (!picture.nonempty() && picture.width == new_width
                && picture.height == new_height)),
    }
}

/// What ruling lines across a file may come to.
pub open spec fn ruling_outcome(
    bytes: Seq<u8>,
    hl_thickness: u32,
    hl_step: i32,
    vl_thickness: u32,
    vl_step: i32,
    outcome: Result<DynamicImage, DenoiseError>,
) -> bool {
    match outcome {
        Ok(image) => exists|picture: Picture, grid: Grid<[u8; 4]>|
            {
                &&& #[trigger] loads_as(bytes, picture)
                &&& #[trigger] expands_to(picture, grid)
                &&& can_expand(picture.width, picture.height)
                &&& can_rule(
                    picture.width,
                    picture.height,
                    hl_thickness,
                    hl_step,
                    vl_thickness,
                    vl_step,
                )
                &&& contents(image) == rgba_picture(
                    ruled(grid, hl_thickness, hl_step, vl_thickness, vl_step),
                )
            },
        Err(DenoiseError::Undecodable) => load_outcome(bytes, None),
        Err(DenoiseError::Geometry) => exists|picture: Picture| #[trigger]
            loads_as(bytes, picture) && !(can_expand(picture.width, picture.height) && can_rule(
                picture.width,
                picture.height,
                hl_thickness,
                hl_step,
                vl_thickness,
                vl_step,
            )),
        Err(DenoiseError::Unencodable) => false,
    }
}

/// A picture that a PNG file can hold: it is not empty, its samples are no floating-point
/// numbers, and there is no padding behind them.
pub open spec fn can_write(picture: Picture) -> bool {
    picture.nonempty() && !picture.kind.is_float() && picture.exact()
}

/// What writing a picture comes to: its PNG file, if there is one that can hold it.
pub open spec fn writing_outcome(
    picture: Picture,
    outcome: Result<Vec<u8>, DenoiseError>,
) -> bool {
    match outcome {
        Ok(file) => can_write(picture) && encodes(file@, picture),
        Err(error) => error is Unencodable && !can_write(picture),
    }
}

/// The quotient of two integers, rounded up.
fn divided_up(a: u64, b: u64) -> (quotient: u64)
    requires
        0 < b,
        a + b - 1 <= u64::MAX,
    ensures
        quotient == rounded_up(a as int, b as int),
{
    (a + (b - 1)) / b
}

/// The largest size that a picture can have when it was scaled into bounds.
fn largest_fit(width: u32, height: u32, new_width: u32, new_height: u32) -> (size: (u64, u64))
    ensures
        (size.0 as int, size.1 as int) == fit_bounds(
            width as nat,
            height as nat,
            new_width,
            new_height,
        ),
        size.0 <= at_least_one(new_width),
        size.1 <= at_least_one(new_height),
{
    let columns: u64 = if new_width == 0 {
        1
    } else {
        new_width as u64
    };
    let rows: u64 = if new_height == 0 {
        1
    } else {
        new_height as u64
    };
    if width == 0 || height == 0 {
        return (
            if width == 0 {
                1
            } else {
                columns
            },
            if height == 0 {
                1
            } else {
                rows
            },
        );
    }
    if new_width == 0 || new_height == 0 {
        return (1, 1);
    }
    proof {
        assert(new_width * height <= 0xffff_ffff * 0xffff_ffff) by (nonlinear_arith)
            requires
                0 <= new_width <= 0xffff_ffff,
                0 <= height <= 0xffff_ffff,
        ;
        assert(new_height * width <= 0xffff_ffff * 0xffff_ffff) by (nonlinear_arith)
            requires
                0 <= new_height <= 0xffff_ffff,
                0 <= width <= 0xffff_ffff,
        ;
        assert(new_width * height == height * new_width) by (nonlinear_arith);
        assert(new_height * width == width * new_height) by (nonlinear_arith);
    }
    let across: u64 = new_width as u64 * height as u64;
    let down: u64 = new_height as u64 * width as u64;
    if across <= down {
        proof {
            assert((across + width - 1) / (width as int) <= new_height) by (nonlinear_arith)
                requires
                    across <= new_height * width,
                    0 < width,
                    0 <= across,
            ;
        }
        (new_width as u64, divided_up(across, width as u64))
    } else {
        proof {
            assert((down + height - 1) / (height as int) <= new_width) by (nonlinear_arith)
                requires
                    down < new_width * height,
                    0 < height,
                    0 <= down,
            ;
        }
        (divided_up(down, height as u64), new_height as u64)
    }
}

/// Tells whether a side can be scaled.
fn side_can_be_sampled(len: u32, new_len: u64, grows: bool) -> (suits: bool)
    ensures
        suits == can_sample(len as int, new_len as int, grows),
{
    (grows && len <= LONG_SIDE) || new_len <= SHORT_SIDE as u64
}

/// Tells whether a picture can be scaled into bounds.
fn size_can_fit(width: u32, height: u32, new_width: u32, new_height: u32) -> (suits: bool)
    ensures
        suits == can_fit(width as nat, height as nat, new_width, new_height),
{
    let (columns, rows): (u64, u64) = largest_fit(width, height, new_width, new_height);
    if width == new_width && height == new_height {
        return true;
    }
    if columns == width as u64 && rows == height as u64 {
        return true;
    }
    proof {
        assert(columns * rows <= 0xffff_ffff * 0xffff_ffff) by (nonlinear_arith)
            requires
                0 <= columns <= 0xffff_ffff,
                0 <= rows <= 0xffff_ffff,
        ;
        assert(width * rows <= 0xffff_ffff * 0xffff_ffff) by (nonlinear_arith)
            requires
                0 <= width <= 0xffff_ffff,
                0 <= rows <= 0xffff_ffff,
        ;
        assert(16 * columns * rows == 16 * (columns * rows)) by (nonlinear_arith);
        assert(16 * width * rows == 16 * (width * rows)) by (nonlinear_arith);
    }
    if 16 * (columns as u128 * rows as u128) > isize::MAX as u128 || 16 * (width as u128
        * rows as u128) > isize::MAX as u128 {
        return false;
    }
    let grows = width <= new_width && height <= new_height;
    width == 0 || height == 0 || (side_can_be_sampled(width, columns, grows)
        && side_can_be_sampled(height, rows, grows))
}

impl DenoiserApp {
    /// Scales a picture file to the largest size of the same shape that fits into a window
    /// of `new_width` by `new_height` pixels. The result is a PNG file. An empty picture
    /// becomes a blank one.
    ///
    /// There is no result for a file that cannot be decoded, where the sides are too long to
    /// be scaled, or for a picture that a PNG file cannot hold.
    pub fn resize(bytes: &[u8], new_width: u32, new_height: u32) -> (outcome: Result<
        Vec<u8>,
        DenoiseError,
    >)
        ensures
            resize_outcome(bytes@, new_width, new_height, outcome),
    {
        let image = match load_from_memory(bytes) {
            Ok(image) => image,
            Err(_) => {
                return Err(DenoiseError::Undecodable);
            },
        };
        let width: u32 = image_width(&image);
        let height: u32 = image_height(&image);
        if !size_can_fit(width, height, new_width, new_height) {
            return Err(DenoiseError::Geometry);
        }
        let resized = fit(&image, new_width, new_height);
        proof {
            if !(width == new_width && height == new_height) {
                lemma_inside_fit_bounds(
                    contents(image),
                    new_width,
                    new_height,
                    contents(resized),
                );
            }
        }
        match image_to_png(&resized) {
            Ok(file) => Ok(file),
            Err(_) => Err(DenoiseError::Unencodable),
        }
    }

    /// Rules white lines across a picture file: horizontal ones `hl_step` rows apart and
    /// `hl_thickness` rows thick, and vertical ones likewise. A negative step gives one line.
    ///
    /// There is no result for a file that cannot be decoded, for a picture that is too large,
    /// or where a line of the wanted thickness cannot be drawn on a picture of its size.
    pub fn add_white_lines(
        bytes: &Vec<u8>,
        hl_thickness: u32,
        hl_step: i32,
        vl_thickness: u32,
        vl_step: i32,
    ) -> (outcome: Result<DynamicImage, DenoiseError>)
        requires
            hl_step != 0,
            vl_step != 0,
        ensures
            ruling_outcome(bytes@, hl_thickness, hl_step, vl_thickness, vl_step, outcome),
            outcome matches Ok(image) ==> contents(image).exact(),
    {
        let image = match load_from_memory(bytes.as_slice()) {
            Ok(image) => image,
            Err(_) => {
                return Err(DenoiseError::Undecodable);
            },
        };
        if !size_can_expand(&image) {
            return Err(DenoiseError::Geometry);
        }
        let mut plane = to_rgba8(&image);
        if (plane.width != 0 || plane.height != 0) && !(side_can_be_ruled(
            plane.height,
            hl_thickness,
            hl_step,
        ) && side_can_be_ruled(plane.width, vl_thickness, vl_step)) {
            return Err(DenoiseError::Geometry);
        }
        rule_lines(&mut plane, hl_thickness, hl_step, vl_thickness, vl_step);
        assert(rgba_picture(plane@).exact());
        Ok(rgba_image(&plane))
    }

    /// Writes a picture as a PNG file. There is none for a picture that is empty, whose
    /// samples are floating-point numbers, or that has padding behind them.
    pub fn img_to_bytes(img: &DynamicImage) -> (outcome: Result<Vec<u8>, DenoiseError>)
        ensures
            writing_outcome(contents(*img), outcome),
    {
        if !is_exact(img) {
            return Err(DenoiseError::Unencodable);
        }
        match image_to_png(img) {
            Ok(file) => Ok(file),
            Err(_) => Err(DenoiseError::Unencodable),
        }
    }
}

} // verus!
