//! What holds of ruling lines, scaling, writing and asking for lines.

use image::DynamicImage;
use vstd::prelude::*;

use crate::denoiser_app::{
    can_search, preparing_outcome, requests, scaling_outcome, LineRequest,
};
use crate::denoiser_params::DenoiserParams;
use crate::error::DenoiseError;
use crate::laws::lemma_ruled;
use crate::lines::{flat_lines, odd_aperture, spans, LineSegment};
use crate::picture::{
    can_expand, can_fit, contents, encodes, expands_to, fit_bounds, fit_outcome, fitted,
    gray_picture, load_outcome, loads_as, png_file, reads_back, rgb_picture, rgba_picture,
    rounded_up, Picture,
};
use crate::plane::{lemma_index, lemma_same_cells, Grid};
use crate::white_lines::{
    can_rule, can_rule_side, last_line, resize_outcome, resized_as, ruled, ruling_outcome, stride,
    writing_outcome,
};

verus! {

/// Whether a row or column lies on a line: lines start at the multiples of a positive step,
/// and a negative step has one line, at the start.
pub open spec fn is_ruled(position: int, step: i32, thickness: u32) -> bool {
    if step > 0 {
        position % (step as int) < thickness
    } else {
        position < thickness
    }
}

/// A plane with white lines across it: every pixel on a line is opaque white, and every other
/// pixel is as it was.
pub open spec fn has_lines(
    grid: Grid<[u8; 4]>,
    hl_thickness: u32,
    hl_step: i32,
    vl_thickness: u32,
    vl_step: i32,
    after: Grid<[u8; 4]>,
) -> bool {
    &&& after.wf()
    &&& after.width == grid.width
    &&& after.height == grid.height
    &&& forall|x: int, y: int|
        grid.has(x, y) ==> #[trigger] after.at(x, y) == (if is_ruled(y, hl_step, hl_thickness)
            || is_ruled(x, vl_step, vl_thickness) {
            [255u8, 255, 255, 255]
        } else {
            grid.at(x, y)
        })
}

/// Ruling makes every pixel on a line opaque white, wherever on the plane it lies, and leaves
/// every other pixel as it was.
pub proof fn law_lines_are_white(
    grid: Grid<[u8; 4]>,
    hl_thickness: u32,
    hl_step: i32,
    vl_thickness: u32,
    vl_step: i32,
)
    ensures
        has_lines(
            grid,
            hl_thickness,
            hl_step,
            vl_thickness,
            vl_step,
            ruled(grid, hl_thickness, hl_step, vl_thickness, vl_step),
        ),
{
    lemma_ruled(grid, hl_thickness, hl_step, vl_thickness, vl_step);
    let after = ruled(grid, hl_thickness, hl_step, vl_thickness, vl_step);
    assert forall|x: int, y: int| grid.has(x, y) implies #[trigger] after.at(x, y) == (
    if is_ruled(y, hl_step, hl_thickness) || is_ruled(x, vl_step, vl_thickness) {
        [255u8, 255, 255, 255]
    } else {
        grid.at(x, y)
    }) by {
        vstd::arithmetic::div_mod::lemma_small_mod(y as nat, grid.height);
        vstd::arithmetic::div_mod::lemma_small_mod(x as nat, grid.width);
    }
}

/// With positive steps, a pixel is opaque white where its row is less than a thickness behind a
/// multiple of the step, or its column is.
pub proof fn law_every_line_is_drawn(
    grid: Grid<[u8; 4]>,
    hl_thickness: u32,
    hl_step: i32,
    vl_thickness: u32,
    vl_step: i32,
    x: int,
    y: int,
)
    requires
        hl_step > 0,
        vl_step > 0,
        grid.has(x, y),
    ensures
        y % (hl_step as int) < hl_thickness || x % (vl_step as int) < vl_thickness ==> ruled(
            grid,
            hl_thickness,
            hl_step,
            vl_thickness,
            vl_step,
        ).at(x, y) == [255u8, 255, 255, 255],
        y % (hl_step as int) >= hl_thickness && x % (vl_step as int) >= vl_thickness ==> ruled(
            grid,
            hl_thickness,
            hl_step,
            vl_thickness,
            vl_step,
        ).at(x, y) == grid.at(x, y),
{
    law_lines_are_white(grid, hl_thickness, hl_step, vl_thickness, vl_step);
}

/// Whether every line along a side of `len` pixels ends within the positive 32-bit integers,
/// and is a line at all.
pub open spec fn lines_end_in_time(len: nat, thickness: u32, step: i32) -> bool {
    &&& 0 < len <= 0x7fff_ffff
    &&& thickness > 0
    &&& step > 0 ==> forall|k: int|
        #![trigger k * step]
        0 <= k && k * step < len ==> k * step + thickness <= 0x7fff_ffff
    &&& step < 0 ==> thickness <= 0x7fff_ffff
}

/// A side can be ruled exactly where every line along it ends in time.
pub proof fn law_sides_that_are_ruled(len: nat, thickness: u32, step: i32)
    requires
        step != 0,
    ensures
        can_rule_side(len, thickness, step) == lines_end_in_time(len, thickness, step),
{
    let s = stride(step, len);
    if 0 < len {
        let n = len - 1;
        if step > 0 {
            assert(0 <= n / s && (n / s) * s <= n) by (nonlinear_arith)
                requires
                    0 <= n,
                    0 < s,
            ;
            assert forall|k: int|
                #![trigger k * step]
                0 <= k && k * step < len implies k * step <= last_line(step, len) by {
                assert(k <= n / s) by (nonlinear_arith)
                    requires
                        0 < s,
                        k * s <= n,
                ;
                assert(k * s <= (n / s) * s) by (nonlinear_arith)
                    requires
                        k <= n / s,
                        0 < s,
                ;
            }
            assert((n / s) * step == last_line(step, len));
        } else {
            vstd::arithmetic::div_mod::lemma_small_mod(n as nat, len);
            vstd::arithmetic::div_mod::lemma_fundamental_div_mod(n, s);
            assert(n / s == 0) by (nonlinear_arith)
                requires
                    0 <= n < s,
            ;
            assert(last_line(step, len) == 0);
        }
    }
}

/// What ruling a file gives: the picture with four channels and the lines across it, at its
/// own size. A file is refused exactly where it cannot be decoded, or has too many pixels, or
/// has an empty side or a line that does not end in time.
pub proof fn law_ruled_file_has_lines(
    bytes: Seq<u8>,
    hl_thickness: u32,
    hl_step: i32,
    vl_thickness: u32,
    vl_step: i32,
    outcome: Result<DynamicImage, DenoiseError>,
)
    requires
        hl_step != 0,
        vl_step != 0,
        ruling_outcome(bytes, hl_thickness, hl_step, vl_thickness, vl_step, outcome),
    ensures
        (match outcome {
            Ok(image) => exists|picture: Picture, grid: Grid<[u8; 4]>, after: Grid<[u8; 4]>|
                {
                    &&& #[trigger] loads_as(bytes, picture)
                    &&& #[trigger] expands_to(picture, grid)
                    &&& contents(image) == #[trigger] rgba_picture(after)
                    &&& has_lines(grid, hl_thickness, hl_step, vl_thickness, vl_step, after)
                },
            Err(DenoiseError::Undecodable) => load_outcome(bytes, None),
            Err(DenoiseError::Geometry) => exists|picture: Picture|
                {
                    &&& #[trigger] loads_as(bytes, picture)
                    &&& 4 * picture.width * picture.height > isize::MAX || ((picture.width > 0
                        || picture.height > 0) && !(lines_end_in_time(
                        picture.height,
                        hl_thickness,
                        hl_step,
                    ) && lines_end_in_time(picture.width, vl_thickness, vl_step)))
                },
            Err(DenoiseError::Unencodable) => false,
        }),
{
    match outcome {
        Ok(image) => {
            let (picture, grid) = choose|picture: Picture, grid: Grid<[u8; 4]>|
                {
                    &&& #[trigger] loads_as(bytes, picture)
                    &&& #[trigger] expands_to(picture, grid)
                    &&& can_expand(picture.width, picture.height)
                    &&& can_rule(
                        picture.width,
                        picture.height,
                        hl_thickness,
                        hl_step,
                        vl_thickness,
                        vl_step,
                    )
                    &&& contents(image) == rgba_picture(
                        ruled(grid, hl_thickness, hl_step, vl_thickness, vl_step),
                    )
                };
            law_lines_are_white(grid, hl_thickness, hl_step, vl_thickness, vl_step);
            let after = ruled(grid, hl_thickness, hl_step, vl_thickness, vl_step);
            assert(contents(image) == rgba_picture(after));
        },
        Err(DenoiseError::Geometry) => {
            let picture = choose|picture: Picture| #[trigger]
                loads_as(bytes, picture) && !(can_expand(picture.width, picture.height)
                    && can_rule(
                    picture.width,
                    picture.height,
                    hl_thickness,
                    hl_step,
                    vl_thickness,
                    vl_step,
                ));
            law_sides_that_are_ruled(picture.height, hl_thickness, hl_step);
            law_sides_that_are_ruled(picture.width, vl_thickness, vl_step);
        },
        Err(_) => {},
    }
}

/// The pixels of a grey plane are the samples of its picture, row by row from the top, and each
/// row from the left.
pub proof fn law_gray_picture_holds_its_pixels(grid: Grid<u8>, x: int, y: int)
    requires
        grid.wf(),
        grid.has(x, y),
    ensures
        gray_picture(grid).kind is Luma8,
        gray_picture(grid).width == grid.width,
        gray_picture(grid).height == grid.height,
        gray_picture(grid).samples.len() == grid.width * grid.height,
        gray_picture(grid).samples[y * grid.width + x] == grid.at(x, y),
{
    lemma_index(grid.width as int, grid.height as int, x, y);
}

/// The pixels of a plane with three channels are the samples of its picture, row by row from the
/// top, each row from the left, and channel by channel.
pub proof fn law_rgb_picture_holds_its_pixels(
    grid: Grid<[u8; 3]>,
    x: int,
    y: int,
    channel: int,
)
    requires
        grid.wf(),
        grid.has(x, y),
        0 <= channel < 3,
    ensures
        rgb_picture(grid).kind is Rgb8,
        rgb_picture(grid).width == grid.width,
        rgb_picture(grid).height == grid.height,
        rgb_picture(grid).samples.len() == 3 * (grid.width * grid.height),
        rgb_picture(grid).samples[3 * (y * grid.width + x) + channel] == grid.at(x, y)[channel],
{
    let i = y * grid.width + x;
    lemma_index(grid.width as int, grid.height as int, x, y);
    assert((3 * i + channel) / 3 == i && (3 * i + channel) % 3 == channel);
}

/// The pixels of a plane with four channels are the samples of its picture, row by row from the
/// top, each row from the left, and channel by channel.
pub proof fn law_rgba_picture_holds_its_pixels(
    grid: Grid<[u8; 4]>,
    x: int,
    y: int,
    channel: int,
)
    requires
        grid.wf(),
        grid.has(x, y),
        0 <= channel < 4,
    ensures
        rgba_picture(grid).kind is Rgba8,
        rgba_picture(grid).width == grid.width,
        rgba_picture(grid).height == grid.height,
        rgba_picture(grid).samples.len() == 4 * (grid.width * grid.height),
        rgba_picture(grid).samples[4 * (y * grid.width + x) + channel] == grid.at(x, y)[channel],
{
    let i = y * grid.width + x;
    lemma_index(grid.width as int, grid.height as int, x, y);
    assert((4 * i + channel) / 4 == i && (4 * i + channel) % 4 == channel);
}

/// A picture is written exactly where it has rows and columns, its samples are whole numbers,
/// and there are as many of them as pixels and channels ask for. The file is its PNG file, and
/// loads as the picture again and as nothing else, unless it is too large to be loaded.
pub proof fn law_written_picture_loads_again(
    picture: Picture,
    outcome: Result<Vec<u8>, DenoiseError>,
)
    requires
        writing_outcome(picture, outcome),
    ensures
        outcome is Ok <==> {
            &&& picture.width > 0
            &&& picture.height > 0
            &&& !(picture.kind is Rgb32F)
            &&& !(picture.kind is Rgba32F)
            &&& picture.samples.len() == picture.width * picture.height * picture.kind.channels()
        },
        (match outcome {
            Ok(file) => {
                &&& file@ == png_file(picture)
                &&& picture.byte_size() <= 0x2000_0000 ==> forall|loaded: Option<Picture>|
                    #[trigger] load_outcome(file@, loaded) ==> loaded == Some(picture)
            },
            Err(error) => error is Unencodable,
        }),
{
}

/// Whether the sides of a picture and of a window let it be scaled: the window is no longer
/// than 0x20_0000 pixels, or has room for the picture, which is no longer than 0x100_0000.
pub open spec fn sides_suit(width: nat, height: nat, new_width: u32, new_height: u32) -> bool {
    ||| new_width <= 0x20_0000 && new_height <= 0x20_0000
    ||| {
        &&& width <= new_width
        &&& height <= new_height
        &&& width <= 0x100_0000
        &&& height <= 0x100_0000
    }
}

/// A picture with rows and columns can be scaled into every window with rows and columns where
/// the sides suit and the buffers have an address. One of the size of the window always can.
pub proof fn law_pictures_fit_into_windows(
    width: nat,
    height: nat,
    new_width: u32,
    new_height: u32,
)
    requires
        0 < width,
        0 < height,
        0 < new_width,
        0 < new_height,
        (width == new_width && height == new_height) || {
            &&& sides_suit(width, height, new_width, new_height)
            &&& 16 * (new_width * new_height) <= isize::MAX
            &&& 16 * (width * new_height) <= isize::MAX
        },
    ensures
        can_fit(width, height, new_width, new_height),
{
    let w = width as int;
    let h = height as int;
    let nw = new_width as int;
    let nh = new_height as int;
    let (columns, rows) = fit_bounds(width, height, new_width, new_height);
    if nw * h <= nh * w {
        assert(0 <= rounded_up(h * nw, w) <= nh) by (nonlinear_arith)
            requires
                rounded_up(h * nw, w) == (h * nw + w - 1) / w,
                nw * h <= nh * w,
                0 < w,
                0 < h,
                0 < nw,
        ;
    } else {
        assert(0 <= rounded_up(w * nh, h) <= nw) by (nonlinear_arith)
            requires
                rounded_up(w * nh, h) == (w * nh + h - 1) / h,
                nw * h > nh * w,
                0 < w,
                0 < h,
                0 < nh,
        ;
    }
    assert(16 * columns * rows <= 16 * (nw * nh)) by (nonlinear_arith)
        requires
            0 <= columns <= nw,
            0 <= rows <= nh,
    ;
    assert(16 * w * rows <= 16 * (w * nh)) by (nonlinear_arith)
        requires
            0 < w,
            0 <= rows <= nh,
    ;
}

/// What scaling a file gives: the PNG file of what the picture may become in the window, which
/// has its kind of pixel, keeps to the window and reaches one of its sides. A picture whose
/// size is that of the window, or stays as it is, is left as it is.
pub proof fn law_scaled_file_fills_the_window(
    bytes: Seq<u8>,
    width: u32,
    height: u32,
    outcome: Result<Vec<u8>, DenoiseError>,
)
    requires
        width > 0,
        height > 0,
        forall|picture: Picture| #[trigger]
            loads_as(bytes, picture) ==> picture.width > 0 && picture.height > 0,
        resize_outcome(bytes, width, height, outcome),
    ensures
        (match outcome {
            Ok(file) => exists|picture: Picture, scaled: Picture|
                {
                    &&& #[trigger] loads_as(bytes, picture)
                    &&& #[trigger] fit_outcome(picture, width, height, scaled)
                    &&& file@ == png_file(scaled)
                    &&& scaled.byte_size() <= 0x2000_0000 ==> reads_back(file@, scaled)
                    &&& scaled.kind == picture.kind
                    &&& 1 <= scaled.width <= width
                    &&& 1 <= scaled.height <= height
                    &&& scaled.width == width || scaled.height == height
                    &&& scaled.width == picture.width && scaled.height == picture.height
                        ==> scaled == picture
                },
            Err(DenoiseError::Undecodable) => load_outcome(bytes, None),
            Err(DenoiseError::Geometry) => exists|picture: Picture|
                {
                    &&& #[trigger] loads_as(bytes, picture)
                    &&& picture.width != width || picture.height != height
                    &&& !sides_suit(picture.width, picture.height, width, height) || 16 * (width
                        * height) > isize::MAX || 16 * (picture.width * height) > isize::MAX
                },
            Err(DenoiseError::Unencodable) => exists|picture: Picture| #[trigger]
                loads_as(bytes, picture) && (picture.kind is Rgb32F || picture.kind is Rgba32F),
        }),
{
    match outcome {
        Ok(file) => {
            let (picture, scaled) = choose|picture: Picture, scaled: Picture|
                {
                    &&& #[trigger] loads_as(bytes, picture)
                    &&& #[trigger] fit_outcome(picture, width, height, scaled)
                    &&& resized_as(picture, width, height, scaled, file@)
                };
            crate::laws::law_scaled_picture_fits(picture, width, height, scaled);
        },
        Err(DenoiseError::Geometry) => {
            let picture = choose|picture: Picture| #[trigger]
                loads_as(bytes, picture) && !can_fit(
                    picture.width,
                    picture.height,
                    width,
                    height,
                );
            if (picture.width == width && picture.height == height) || (sides_suit(
                picture.width,
                picture.height,
                width,
                height,
            ) && 16 * (width * height) <= isize::MAX && 16 * (picture.width * height)
                <= isize::MAX) {
                law_pictures_fit_into_windows(picture.width, picture.height, width, height);
            }
        },
        Err(_) => {},
    }
}

/// A run scales its picture into a window of 400 by 200 pixels.
pub proof fn law_runs_scale_into_the_window(
    bytes: Seq<u8>,
    outcome: Result<Vec<u8>, DenoiseError>,
)
    ensures
        scaling_outcome(bytes, outcome) == resize_outcome(bytes, 400, 200, outcome),
{
}

/// An odd aperture is left alone. An even one grows by one, but to no more than seven.
pub proof fn law_even_apertures_grow_by_one(aperture: int)
    ensures
        aperture % 2 == 1 ==> odd_aperture(aperture) == aperture,
        aperture % 2 == 0 && aperture <= 6 ==> odd_aperture(aperture) == aperture + 1,
        aperture % 2 == 0 && aperture >= 6 ==> odd_aperture(aperture) == 7,
{
}

/// What the line detector is asked is what the settings say: the threshold and the kind of
/// gradient as they are, the aperture made odd, and the picture with the lines of the settings
/// across it.
pub proof fn law_requests_follow_the_settings(
    bytes: Seq<u8>,
    params: DenoiserParams,
    request: LineRequest,
)
    requires
        preparing_outcome(bytes, params, Ok(request)),
    ensures
        request.line_threshold == params.line_threshold,
        request.l2_gradient == params.l2_gradient,
        params.aperture as int % 2 == 1 ==> request.aperture == params.aperture,
        params.aperture as int % 2 == 0 && params.aperture <= 6 ==> request.aperture
            == params.aperture + 1,
        params.aperture as int % 2 == 0 && params.aperture >= 6 ==> request.aperture == 7,
        exists|picture: Picture, grid: Grid<[u8; 4]>, after: Grid<[u8; 4]>|
            {
                &&& #[trigger] loads_as(bytes, picture)
                &&& #[trigger] expands_to(picture, grid)
                &&& picture.width > 0
                &&& picture.height > 0
                &&& #[trigger] encodes(request.png@, rgba_picture(after))
                &&& has_lines(
                    grid,
                    params.hl_thickness,
                    params.hl_step,
                    params.vl_thickness,
                    params.vl_step,
                    after,
                )
            },
{
    let (picture, grid) = choose|picture: Picture, grid: Grid<[u8; 4]>|
        {
            &&& #[trigger] loads_as(bytes, picture)
            &&& #[trigger] expands_to(picture, grid)
            &&& picture.nonempty()
            &&& can_search(picture.width, picture.height, params)
            &&& requests(request, grid, params)
        };
    let after = ruled(
        grid,
        params.hl_thickness,
        params.hl_step,
        params.vl_thickness,
        params.vl_step,
    );
    law_even_apertures_grow_by_one(params.aperture as int);
    law_lines_are_white(
        grid,
        params.hl_thickness,
        params.hl_step,
        params.vl_thickness,
        params.vl_step,
    );
    assert(encodes(request.png@, rgba_picture(after)));
}

/// Two runs whose settings differ in the threshold of the lines, in the kind of gradient or in
/// odd apertures ask different things, whatever the pictures.
pub proof fn law_different_settings_ask_differently(
    bytes1: Seq<u8>,
    bytes2: Seq<u8>,
    params1: DenoiserParams,
    params2: DenoiserParams,
    request1: LineRequest,
    request2: LineRequest,
)
    requires
        preparing_outcome(bytes1, params1, Ok(request1)),
        preparing_outcome(bytes2, params2, Ok(request2)),
    ensures
        params1.line_threshold != params2.line_threshold ==> request1.line_threshold
            != request2.line_threshold,
        params1.l2_gradient != params2.l2_gradient ==> request1.l2_gradient
            != request2.l2_gradient,
        params1.aperture as int % 2 == 1 && params2.aperture as int % 2 == 1 && params1.aperture
            != params2.aperture ==> request1.aperture != request2.aperture,
{
    law_requests_follow_the_settings(bytes1, params1, request1);
    law_requests_follow_the_settings(bytes2, params2, request2);
}

/// Nothing is asked exactly where the file cannot be decoded, its picture is too large or has a
/// line that does not end in time, or has no rows and columns.
pub proof fn law_refused_preparations(
    bytes: Seq<u8>,
    params: DenoiserParams,
    error: DenoiseError,
)
    requires
        params.hl_step != 0,
        params.vl_step != 0,
        preparing_outcome(bytes, params, Err(error)),
    ensures
        (match error {
            DenoiseError::Undecodable => load_outcome(bytes, None),
            DenoiseError::Geometry => exists|picture: Picture|
                {
                    &&& #[trigger] loads_as(bytes, picture)
                    &&& 4 * picture.width * picture.height > isize::MAX || ((picture.width > 0
                        || picture.height > 0) && !(lines_end_in_time(
                        picture.height,
                        params.hl_thickness,
                        params.hl_step,
                    ) && lines_end_in_time(
                        picture.width,
                        params.vl_thickness,
                        params.vl_step,
                    )))
                },
            DenoiseError::Unencodable => exists|picture: Picture| #[trigger]
                loads_as(bytes, picture) && picture.width == 0 && picture.height == 0,
        }),
{
    match error {
        DenoiseError::Geometry => {
            let picture = choose|picture: Picture| #[trigger]
                loads_as(bytes, picture) && !can_search(picture.width, picture.height, params);
            law_sides_that_are_ruled(picture.height, params.hl_thickness, params.hl_step);
            law_sides_that_are_ruled(picture.width, params.vl_thickness, params.vl_step);
        },
        _ => {},
    }
}

/// Keeping the flat ones of some lines and then of some more is keeping those of all, in their
/// order and each as often as it was found. One line is kept exactly if it is flat.
pub proof fn law_lines_are_kept_in_parts(
    a: Seq<LineSegment>,
    b: Seq<LineSegment>,
    flat: Seq<bool>,
    line: LineSegment,
)
    requires
        a.len() + b.len() <= flat.len(),
    ensures
        flat_lines(a + b, flat) == flat_lines(a, flat) + flat_lines(b, flat.skip(a.len() as int)),
        flat_lines(seq![line], seq![true]) == seq![line],
        flat_lines(seq![line], seq![false]) == Seq::<LineSegment>::empty(),
    decreases b.len(),
{
    reveal_with_fuel(flat_lines, 2);
    assert(seq![line].drop_last() =~= Seq::<LineSegment>::empty());
    assert(flat_lines(seq![line], seq![true]) =~= seq![line]);
    let tail = flat.skip(a.len() as int);
    if b.len() == 0 {
        assert(a + b =~= a);
        assert(flat_lines(a, flat) + flat_lines(b, tail) =~= flat_lines(a, flat));
    } else {
        let rest = b.drop_last();
        law_lines_are_kept_in_parts(a, rest, flat, line);
        assert((a + b).drop_last() =~= a + rest);
        assert((a + b).last() == b.last());
        assert(flat[(a + b).len() - 1] == tail[b.len() - 1]);
        assert(flat_lines(a + b, flat) =~= flat_lines(a, flat) + flat_lines(b, tail));
    }
}

/// A line leads from its first point by its extent to its second, and the line back by the
/// opposite extent.
pub proof fn law_extent_leads_to_the_end(
    line: LineSegment,
    extent: (i32, i32),
    back: LineSegment,
    back_extent: (i32, i32),
)
    requires
        spans(line, extent),
        spans(back, back_extent),
        back.x1 == line.x2,
        back.y1 == line.y2,
        back.x2 == line.x1,
        back.y2 == line.y1,
    ensures
        line.x1 + extent.0 == line.x2,
        line.y1 + extent.1 == line.y2,
        back_extent.0 == -extent.0,
        back_extent.1 == -extent.1,
{
}

/// A position lies inside a grid exactly where its column and its row do, and two grids of one
/// size are equal where all cells inside are.
pub proof fn law_grids_are_their_cells<T>(a: Grid<T>, b: Grid<T>)
    requires
        a.wf(),
        b.wf(),
        a.width == b.width,
        a.height == b.height,
        forall|x: int, y: int|
            0 <= x < a.width && 0 <= y < a.height ==> #[trigger] a.at(x, y) == b.at(x, y),
    ensures
        forall|x: int, y: int| #[trigger]
            a.has(x, y) <==> 0 <= x < a.width && 0 <= y < a.height,
        a == b,
{
    lemma_same_cells(a, b);
}

/// A quotient that is rounded up is the least that is not too small.
pub proof fn law_quotients_are_rounded_up(a: int, b: int, q: int)
    requires
        0 < b,
        (q - 1) * b < a <= q * b,
    ensures
        rounded_up(a, b) == q,
{
    let r = a + b - 1 - q * b;
    assert((q - 1) * b == q * b - b) by (nonlinear_arith);
    vstd::arithmetic::div_mod::lemma_fundamental_div_mod_converse(a + b - 1, b, q, r);
}

/// Whether `columns` and `rows` are the largest size of a picture with rows and columns in a
/// window with rows and columns: it reaches the side of the window that leaves less room, and
/// the other side is the proportional one, rounded up.
pub open spec fn is_largest_size(
    width: nat,
    height: nat,
    new_width: u32,
    new_height: u32,
    columns: int,
    rows: int,
) -> bool {
    if new_width * height <= new_height * width {
        columns == new_width && (rows - 1) * width < height * new_width <= rows * width
    } else {
        rows == new_height && (columns - 1) * height < width * new_height <= columns * height
    }
}

/// Whether a picture can be scaled into a window where its largest size is `columns` by `rows`:
/// it stays as it is, or the buffers have an address and every side is short when it is scaled,
/// or not too long where the window has room for the picture.
pub open spec fn can_become(
    width: nat,
    height: nat,
    new_width: u32,
    new_height: u32,
    columns: int,
    rows: int,
) -> bool {
    let roomy = width <= new_width && height <= new_height;
    ||| width == new_width && height == new_height
    ||| width == columns && height == rows
    ||| {
        &&& 16 * (columns * rows) <= isize::MAX
        &&& 16 * (width * rows) <= isize::MAX
        &&& width > 0 && height > 0 ==> {
            &&& (roomy && width <= 0x100_0000) || columns <= 0x20_0000
            &&& (roomy && height <= 0x100_0000) || rows <= 0x20_0000
        }
    }
}

/// A picture with rows and columns can be scaled into a window with rows and columns exactly
/// where it can become its largest size there.
pub proof fn law_pictures_that_are_scaled(
    width: nat,
    height: nat,
    new_width: u32,
    new_height: u32,
    columns: int,
    rows: int,
)
    requires
        0 < width,
        0 < height,
        0 < new_width,
        0 < new_height,
        is_largest_size(width, height, new_width, new_height, columns, rows),
    ensures
        can_fit(width, height, new_width, new_height) == can_become(
            width,
            height,
            new_width,
            new_height,
            columns,
            rows,
        ),
{
    if new_width * height <= new_height * width {
        law_quotients_are_rounded_up(height * new_width, width as int, rows);
    } else {
        law_quotients_are_rounded_up(width * new_height, height as int, columns);
    }
    assert(16 * columns * rows == 16 * (columns * rows)) by (nonlinear_arith);
    assert(16 * width * rows == 16 * (width * rows)) by (nonlinear_arith);
}

/// A picture or a window without rows or columns has a largest size too: a side of the picture
/// that is zero becomes one pixel, the other becomes that of the window, but no less than one
/// pixel, and a window without rows or columns leaves a picture with both one pixel.
pub proof fn law_empty_pictures_that_are_scaled(
    width: nat,
    height: nat,
    new_width: u32,
    new_height: u32,
    columns: int,
    rows: int,
)
    requires
        width == 0 || height == 0 || new_width == 0 || new_height == 0,
        width > 0 && height > 0 ==> columns == 1 && rows == 1,
        width == 0 || height == 0 ==> columns == (if width == 0 || new_width == 0 {
            1
        } else {
            new_width as int
        }),
        width == 0 || height == 0 ==> rows == (if height == 0 || new_height == 0 {
            1
        } else {
            new_height as int
        }),
    ensures
        can_fit(width, height, new_width, new_height) == can_become(
            width,
            height,
            new_width,
            new_height,
            columns,
            rows,
        ),
{
    assert(16 * columns * rows == 16 * (columns * rows)) by (nonlinear_arith);
    assert(16 * width * rows == 16 * (width * rows)) by (nonlinear_arith);
}

/// A file is scaled exactly into the window that is asked for, with nothing lost on the way:
/// whatever comes out is the file of what the picture may become in that window. A file is
/// refused for its size only where its picture cannot be scaled into the window, and for want
/// of a file to write only where its samples are no whole numbers or it is empty and stays so.
pub proof fn law_scaling_keeps_to_the_request(
    bytes: Seq<u8>,
    width: u32,
    height: u32,
    outcome: Result<Vec<u8>, DenoiseError>,
)
    requires
        resize_outcome(bytes, width, height, outcome),
    ensures
        (match outcome {
            Ok(file) => exists|picture: Picture, scaled: Picture|
                {
                    &&& #[trigger] loads_as(bytes, picture)
                    &&& #[trigger] fit_outcome(picture, width, height, scaled)
                    &&& fitted(picture, width, height, scaled)
                    &&& encodes(file@, scaled)
                    &&& scaled.width > 0
                    &&& scaled.height > 0
                },
            Err(DenoiseError::Undecodable) => load_outcome(bytes, None),
            Err(DenoiseError::Geometry) => exists|picture: Picture| #[trigger]
                loads_as(bytes, picture) && !can_fit(
                    picture.width,
                    picture.height,
                    width,
                    height,
                ),
            Err(DenoiseError::Unencodable) => exists|picture: Picture|
                {
                    &&& #[trigger] loads_as(bytes, picture)
                    &&& picture.kind is Rgb32F || picture.kind is Rgba32F || ((picture.width == 0
                        || picture.height == 0) && picture.width == width && picture.height
                        == height)
                },
        }),
{
}

/// A file whose picture has no rows or no columns becomes a blank picture.
pub proof fn law_empty_file_becomes_blank(
    bytes: Seq<u8>,
    width: u32,
    height: u32,
    file: Vec<u8>,
)
    requires
        forall|picture: Picture| #[trigger]
            loads_as(bytes, picture) ==> picture.width == 0 || picture.height == 0,
        resize_outcome(bytes, width, height, Ok(file)),
    ensures
        exists|picture: Picture, scaled: Picture|
            {
                &&& #[trigger] loads_as(bytes, picture)
                &&& #[trigger] encodes(file@, scaled)
                &&& scaled.kind == picture.kind
                &&& scaled.width == (if picture.width == 0 || width == 0 {
                    1
                } else {
                    width as int
                })
                &&& scaled.height == (if picture.height == 0 || height == 0 {
                    1
                } else {
                    height as int
                })
                &&& forall|i: int|
                    0 <= i < scaled.samples.len() ==> #[trigger] scaled.samples[i] == 0
            },
{
    let (picture, scaled) = choose|picture: Picture, scaled: Picture|
        {
            &&& #[trigger] loads_as(bytes, picture)
            &&& #[trigger] fit_outcome(picture, width, height, scaled)
            &&& resized_as(picture, width, height, scaled, file@)
        };
    assert(encodes(file@, scaled));
}

} // verus!
