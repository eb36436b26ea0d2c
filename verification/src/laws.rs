//! What holds of the pipeline as a whole.

use image::DynamicImage;
use vstd::prelude::*;

use crate::captcha::can_despeckle;
use crate::denoiser_app::{
    advanced, can_search, preparing_outcome, requests, AppState, LineRequest, WINDOW_HEIGHT,
    WINDOW_WIDTH,
};
use crate::denoiser_params::{DenoiserParams, APERTURE_MAX, APERTURE_MIN};
use crate::error::DenoiseError;
use crate::lines::{flat_lines, odd_aperture, LineSegment};
use crate::picture::{
    can_expand, can_fit, contents, expands_to, fit_bounds, fit_outcome, fitted,
    lemma_inside_fit_bounds, load_outcome, loads_as, proportional, reads_back, rgba_picture,
    Picture, LOAD_LIMIT,
};
use crate::plane::{lemma_same_cells, lemma_tabulate, Grid};
use crate::utils::{shows, showing_outcome, ColorImage};
use crate::white_lines::{
    can_rule, last_line, on_line, resize_outcome, resized_as, ruled, ruling_outcome, stride,
    writing_outcome, OPAQUE_WHITE,
};

verus! {

/// The cells of a ruled grid.
pub proof fn lemma_ruled(
    grid: Grid<[u8; 4]>,
    hl_thickness: u32,
    hl_step: i32,
    vl_thickness: u32,
    vl_step: i32,
)
    ensures
        ruled(grid, hl_thickness, hl_step, vl_thickness, vl_step).wf(),
        forall|x: int, y: int|
            grid.has(x, y) ==> #[trigger] ruled(
                grid,
                hl_thickness,
                hl_step,
                vl_thickness,
                vl_step,
            ).at(x, y) == (if on_line(y, hl_step, grid.height, hl_thickness) || on_line(
                x,
                vl_step,
                grid.width,
                vl_thickness,
            ) {
                OPAQUE_WHITE
            } else {
                grid.at(x, y)
            }),
{
    lemma_tabulate(
        grid.width,
        grid.height,
        |x: int, y: int|
            if on_line(y, hl_step, grid.height, hl_thickness) || on_line(
                x,
                vl_step,
                grid.width,
                vl_thickness,
            ) {
                OPAQUE_WHITE
            } else {
                grid.at(x, y)
            },
    );
}

/// Ruling the same lines twice is ruling them once.
pub proof fn law_ruling_is_idempotent(
    grid: Grid<[u8; 4]>,
    hl_thickness: u32,
    hl_step: i32,
    vl_thickness: u32,
    vl_step: i32,
)
    ensures
        ruled(
            ruled(grid, hl_thickness, hl_step, vl_thickness, vl_step),
            hl_thickness,
            hl_step,
            vl_thickness,
            vl_step,
        ) == ruled(grid, hl_thickness, hl_step, vl_thickness, vl_step),
{
    let once = ruled(grid, hl_thickness, hl_step, vl_thickness, vl_step);
    lemma_ruled(grid, hl_thickness, hl_step, vl_thickness, vl_step);
    lemma_ruled(once, hl_thickness, hl_step, vl_thickness, vl_step);
    lemma_same_cells(ruled(once, hl_thickness, hl_step, vl_thickness, vl_step), once);
}

/// Lines start at the first row and the first column; a pixel off the lines keeps its
/// colour.
pub proof fn law_ruling_keeps_the_rest(
    grid: Grid<[u8; 4]>,
    hl_thickness: u32,
    hl_step: i32,
    vl_thickness: u32,
    vl_step: i32,
    x: int,
    y: int,
)
    requires
        grid.has(x, y),
        hl_thickness > 0,
        vl_thickness > 0,
    ensures
        ({
            let after = ruled(grid, hl_thickness, hl_step, vl_thickness, vl_step);
            &&& x == 0 || y == 0 ==> after.at(x, y) == OPAQUE_WHITE
            &&& after.at(x, y) == OPAQUE_WHITE || after.at(x, y) == grid.at(x, y)
            &&& hl_step > 0 && vl_step > 0 && y % hl_step as int >= hl_thickness && x
                % vl_step as int >= vl_thickness ==> after.at(x, y) == grid.at(x, y)
        }),
{
    lemma_ruled(grid, hl_thickness, hl_step, vl_thickness, vl_step);
    assert(0int % stride(hl_step, grid.height) == 0);
    assert(0int % stride(vl_step, grid.width) == 0);
}

/// The aperture that the edge detector gets is odd, an odd one is left alone, and none of
/// the panel's range leaves that range.
pub proof fn law_aperture_is_odd(aperture: int)
    ensures
        odd_aperture(aperture) % 2 == 1,
        odd_aperture(odd_aperture(aperture)) == odd_aperture(aperture),
        APERTURE_MIN <= aperture <= APERTURE_MAX ==> aperture <= odd_aperture(aperture)
            <= APERTURE_MAX,
{
}

/// Whether a line is among those that were found and are flat.
pub open spec fn is_flat_line(lines: Seq<LineSegment>, flat: Seq<bool>, line: LineSegment) -> bool {
    exists|i: int| 0 <= i < lines.len() && flat[i] && #[trigger] lines[i] == line
}

/// The kept lines are lines that were found and are flat, and every flat line is kept.
pub proof fn law_kept_lines_are_the_flat_ones(lines: Seq<LineSegment>, flat: Seq<bool>)
    ensures
        flat_lines(lines, flat).len() <= lines.len(),
        forall|k: int|
            0 <= k < flat_lines(lines, flat).len() ==> is_flat_line(
                lines,
                flat,
                #[trigger] flat_lines(lines, flat)[k],
            ),
        forall|i: int|
            0 <= i < lines.len() && flat[i] ==> flat_lines(lines, flat).contains(
                #[trigger] lines[i],
            ),
    decreases lines.len(),
{
    if lines.len() > 0 {
        let rest = lines.drop_last();
        let kept = flat_lines(lines, flat);
        let before = flat_lines(rest, flat);
        law_kept_lines_are_the_flat_ones(rest, flat);
        assert forall|k: int| 0 <= k < kept.len() implies is_flat_line(
            lines,
            flat,
            #[trigger] kept[k],
        ) by {
            if k < before.len() {
                assert(is_flat_line(rest, flat, before[k]));
                let i = choose|i: int|
                    0 <= i < rest.len() && flat[i] && #[trigger] rest[i] == before[k];
                assert(lines[i] == kept[k]);
            } else {
                assert(lines[lines.len() - 1] == kept[k]);
            }
        }
        assert forall|i: int| 0 <= i < lines.len() && flat[i] implies kept.contains(
            #[trigger] lines[i],
        ) by {
            if i < rest.len() {
                assert(before.contains(rest[i]));
                let k = choose|k: int| 0 <= k < before.len() && before[k] == rest[i];
                assert(kept[k] == lines[i]);
            } else {
                assert(kept[kept.len() - 1] == lines[i]);
            }
        }
    }
}

/// The settings at the start lie in the ranges of the panel.
pub proof fn law_initial_settings_are_offered(params: DenoiserParams, path: Seq<char>)
    requires
        params.initial(path),
    ensures
        params.within_panel(),
        can_despeckle(params.block),
{
}

/// A multiple of a stride that does not pass the end of a side stays on the side.
proof fn lemma_last_line_inside(step: i32, len: nat)
    requires
        len > 0,
    ensures
        0 <= last_line(step, len) < len,
{
    let s = stride(step, len);
    let n = len - 1;
    assert(0 <= (n / s) * s <= n) by (nonlinear_arith)
        requires
            0 <= n,
            0 < s,
    ;
}

/// With settings from the panel, every picture that fits into the window can be ruled and
/// searched for lines.
pub proof fn law_panel_settings_are_accepted(params: DenoiserParams, width: nat, height: nat)
    requires
        params.within_panel(),
        0 < width <= WINDOW_WIDTH,
        0 < height <= WINDOW_HEIGHT,
    ensures
        params.hl_step != 0,
        params.vl_step != 0,
        can_search(width, height, params),
        params.block > 0 ==> can_despeckle(params.block),
{
    lemma_last_line_inside(params.hl_step, height);
    lemma_last_line_inside(params.vl_step, width);
    assert(4 * width * height <= 4 * WINDOW_WIDTH * WINDOW_HEIGHT) by (nonlinear_arith)
        requires
            0 < width <= WINDOW_WIDTH,
            0 < height <= WINDOW_HEIGHT,
    ;
}

/// A side that is proportional to a length of which it is a multiple is that multiple.
proof fn lemma_exact_proportion(side: int, len: int, bound: int)
    requires
        proportional(side, len, bound, bound),
        0 < bound,
    ensures
        side == len,
{
    assert(side == len) by (nonlinear_arith)
        requires
            -bound < side * bound - len * bound < bound,
            0 < bound,
    ;
}

/// The largest size in the bounds is that of the picture, where it reaches one of them and
/// keeps to the other.
proof fn lemma_fits_already(width: nat, height: nat, new_width: u32, new_height: u32)
    requires
        0 < width <= new_width,
        0 < height <= new_height,
        width == new_width || height == new_height,
    ensures
        fit_bounds(width, height, new_width, new_height) == (width as int, height as int),
{
    let w = width as int;
    let h = height as int;
    let nw = new_width as int;
    let nh = new_height as int;
    assert(nw == w ==> nw * h <= nh * w) by (nonlinear_arith)
        requires
            0 < w <= nw,
            0 < h <= nh,
    ;
    assert(nw != w && nh == h ==> nw * h > nh * w) by (nonlinear_arith)
        requires
            0 < w <= nw,
            0 < h <= nh,
    ;
    assert((h * w + w - 1) / w == h) by (nonlinear_arith)
        requires
            0 < w,
            0 < h,
    ;
    assert((w * h + h - 1) / h == w) by (nonlinear_arith)
        requires
            0 < w,
            0 < h,
    ;
}

/// A picture that was scaled into bounds is not empty, keeps to them, and reaches one of
/// them.
pub proof fn law_scaled_picture_fits(picture: Picture, width: u32, height: u32, scaled: Picture)
    requires
        fitted(picture, width, height, scaled),
        picture.width > 0 || picture.height > 0,
        width > 0,
        height > 0,
    ensures
        1 <= scaled.width <= width,
        1 <= scaled.height <= height,
        scaled.width == width || scaled.height == height,
{
    if !(picture.width == width && picture.height == height) {
        lemma_inside_fit_bounds(picture, width, height, scaled);
    }
}

/// A square picture stays square: it is scaled to the shorter bound.
pub proof fn law_square_stays_square(picture: Picture, width: u32, height: u32, scaled: Picture)
    requires
        fitted(picture, width, height, scaled),
        picture.nonempty(),
        picture.width == picture.height,
        width > 0,
        height > 0,
    ensures
        scaled.width == scaled.height,
        scaled.width == (if width <= height {
            width
        } else {
            height
        }),
{
    let side = picture.width as int;
    let w = width as int;
    let h = height as int;
    assert((w * side <= h * side) == (w <= h)) by (nonlinear_arith)
        requires
            0 < side,
    ;
    if !(picture.width == width && picture.height == height) {
        if w <= h {
            lemma_square(scaled.height as int, side, w);
        } else {
            lemma_square(scaled.width as int, side, h);
        }
    }
}

/// A side that is proportional to one of two equal lengths is the bound of the other.
proof fn lemma_square(side: int, len: int, bound: int)
    requires
        proportional(side, len, bound, len),
        0 < len,
    ensures
        side == bound,
{
    assert(side == bound) by (nonlinear_arith)
        requires
            -len < side * len - len * bound < len,
            0 < len,
    ;
}

/// Scaling a scaled picture into the same bounds again leaves it as it is. A picture without
/// rows and columns is left out: it becomes a single pixel, which has a shape to keep.
pub proof fn law_scaling_again_changes_nothing(
    picture: Picture,
    width: u32,
    height: u32,
    scaled: Picture,
    again: Picture,
)
    requires
        fitted(picture, width, height, scaled),
        fitted(scaled, width, height, again),
        picture.width > 0 || picture.height > 0,
        width > 0,
        height > 0,
    ensures
        again == scaled,
{
    law_scaled_picture_fits(picture, width, height, scaled);
    let w = scaled.width as int;
    let h = scaled.height as int;
    let nw = width as int;
    let nh = height as int;
    if !(w == nw && h == nh) {
        if w == nw {
            assert(nw * h <= nh * w) by (nonlinear_arith)
                requires
                    w == nw,
                    0 < w,
                    h <= nh,
            ;
            lemma_exact_proportion(again.height as int, h, nw);
        } else {
            assert(nw * h > nh * w) by (nonlinear_arith)
                requires
                    h == nh,
                    0 < h,
                    w < nw,
            ;
            lemma_exact_proportion(again.width as int, w, nh);
        }
    }
}

/// Scaling a file that came out of scaling into the same window again gives the same file, as
/// long as the file is not too large to be loaded. A picture without rows and columns is left
/// out.
pub proof fn law_scaling_a_scaled_file_changes_nothing(
    bytes: Seq<u8>,
    width: u32,
    height: u32,
    file: Vec<u8>,
    outcome: Result<Vec<u8>, DenoiseError>,
)
    requires
        width > 0,
        height > 0,
        forall|picture: Picture| #[trigger]
            loads_as(bytes, picture) ==> picture.width > 0 || picture.height > 0,
        forall|picture: Picture, scaled: Picture|
            #![trigger loads_as(bytes, picture), fitted(picture, width, height, scaled)]
            loads_as(bytes, picture) && fitted(picture, width, height, scaled)
                ==> scaled.byte_size() <= LOAD_LIMIT,
        resize_outcome(bytes, width, height, Ok(file)),
        resize_outcome(file@, width, height, outcome),
    ensures
        outcome matches Ok(again) && again@ == file@,
{
    let (picture, scaled) = choose|picture: Picture, scaled: Picture|
        {
            &&& #[trigger] loads_as(bytes, picture)
            &&& #[trigger] fit_outcome(picture, width, height, scaled)
            &&& resized_as(picture, width, height, scaled, file@)
        };
    law_scaled_picture_fits(picture, width, height, scaled);
    assert(reads_back(file@, scaled));
    lemma_fits_already(scaled.width, scaled.height, width, height);
    assert(can_fit(scaled.width, scaled.height, width, height));
    assert(!load_outcome(file@, None));
    assert(forall|p: Picture| #[trigger] loads_as(file@, p) ==> Some(p) == Some(scaled));
    match outcome {
        Ok(again) => {
            let (p, q) = choose|p: Picture, q: Picture|
                {
                    &&& #[trigger] loads_as(file@, p)
                    &&& #[trigger] fit_outcome(p, width, height, q)
                    &&& resized_as(p, width, height, q, again@)
                };
            assert(Some(p) == Some(scaled));
            law_scaling_again_changes_nothing(picture, width, height, scaled, q);
        },
        Err(_) => {},
    }
}

/// Once a picture was scaled into the window, nothing that follows up to the search for lines
/// fails, and what is searched is the scaled picture with the lines across it.
pub proof fn law_scaled_picture_is_searched(
    bytes: Seq<u8>,
    params: DenoiserParams,
    resized: Vec<u8>,
    outcome: Result<LineRequest, DenoiseError>,
)
    requires
        params.within_panel(),
        resize_outcome(bytes, WINDOW_WIDTH, WINDOW_HEIGHT, Ok(resized)),
        preparing_outcome(resized@, params, outcome),
    ensures
        outcome is Ok,
        exists|picture: Picture, scaled: Picture, grid: Grid<[u8; 4]>|
            {
                &&& #[trigger] loads_as(bytes, picture)
                &&& #[trigger] fit_outcome(picture, WINDOW_WIDTH, WINDOW_HEIGHT, scaled)
                &&& #[trigger] expands_to(scaled, grid)
                &&& fitted(picture, WINDOW_WIDTH, WINDOW_HEIGHT, scaled)
                &&& requests(outcome->Ok_0, grid, params)
            },
{
    let (picture, scaled) = choose|picture: Picture, scaled: Picture|
        {
            &&& #[trigger] loads_as(bytes, picture)
            &&& #[trigger] fit_outcome(picture, WINDOW_WIDTH, WINDOW_HEIGHT, scaled)
            &&& resized_as(picture, WINDOW_WIDTH, WINDOW_HEIGHT, scaled, resized@)
        };
    if !(picture.width == WINDOW_WIDTH && picture.height == WINDOW_HEIGHT) {
        lemma_inside_fit_bounds(picture, WINDOW_WIDTH, WINDOW_HEIGHT, scaled);
    }
    let w = scaled.width as int;
    let h = scaled.height as int;
    let b = scaled.kind.bytes() as int;
    assert(w * h * b <= 400 * 200 * 8) by (nonlinear_arith)
        requires
            1 <= w <= 400,
            1 <= h <= 200,
            1 <= b <= 8,
    ;
    assert(reads_back(resized@, scaled));
    law_panel_settings_are_accepted(params, scaled.width, scaled.height);
    assert(!load_outcome(resized@, None));
    assert(forall|p: Picture| #[trigger] loads_as(resized@, p) ==> Some(p) == Some(scaled));
    match outcome {
        Ok(request) => {
            let (loaded, grid) = choose|loaded: Picture, grid: Grid<[u8; 4]>|
                {
                    &&& #[trigger] loads_as(resized@, loaded)
                    &&& #[trigger] expands_to(loaded, grid)
                    &&& loaded.nonempty()
                    &&& can_search(loaded.width, loaded.height, params)
                    &&& requests(request, grid, params)
                };
            assert(Some(loaded) == Some(scaled));
            assert(expands_to(scaled, grid));
        },
        Err(_) => {},
    }
}

/// Every picture that loads can be given four channels of eight bits, unless it has as many
/// pixels as loading allows bytes.
pub proof fn law_loaded_pictures_expand(bytes: Seq<u8>, picture: Picture)
    requires
        loads_as(bytes, picture),
        picture.width * picture.height < LOAD_LIMIT,
    ensures
        can_expand(picture.width, picture.height),
{
    let w = picture.width as int;
    let h = picture.height as int;
    assert(4 * w * h == 4 * (w * h)) by (nonlinear_arith);
}

/// Whether two settings agree in everything that a run looks at.
pub open spec fn same_for_a_run(a: DenoiserParams, b: DenoiserParams) -> bool {
    &&& a.path@ == b.path@
    &&& a.line_threshold == b.line_threshold
    &&& a.aperture == b.aperture
    &&& a.l2_gradient == b.l2_gradient
    &&& a.hl_thickness == b.hl_thickness
    &&& a.hl_step == b.hl_step
    &&& a.vl_thickness == b.vl_thickness
    &&& a.vl_step == b.vl_step
}

/// The block, the delta, the two reaches and the threshold of wiping have no influence on a
/// run: what it asks the line detector may be the same with any of them. Scaling looks at no
/// setting at all.
pub proof fn law_cleaning_settings_do_not_matter_to_a_run(
    bytes: Seq<u8>,
    a: DenoiserParams,
    b: DenoiserParams,
    outcome: Result<LineRequest, DenoiseError>,
)
    requires
        same_for_a_run(a, b),
    ensures
        preparing_outcome(bytes, a, outcome) == preparing_outcome(bytes, b, outcome),
{
    assert(forall|width: nat, height: nat| #[trigger]
        can_search(width, height, a) == can_search(width, height, b));
    assert(forall|request: LineRequest, grid: Grid<[u8; 4]>| #[trigger]
        requests(request, grid, a) == requests(request, grid, b));
}

/// A picture with four channels shows one plane only.
proof fn lemma_rgba_plane(a: Grid<[u8; 4]>, b: Grid<[u8; 4]>)
    requires
        rgba_picture(a) == rgba_picture(b),
    ensures
        a == b,
{
    let p = rgba_picture(a);
    let q = rgba_picture(b);
    assert(p.samples.len() == 4 * a.cells.len() && q.samples.len() == 4 * b.cells.len());
    assert forall|i: int| 0 <= i < a.cells.len() implies a.cells[i] == b.cells[i] by {
        assert forall|c: int| 0 <= c < 4 implies a.cells[i]@[c] == b.cells[i]@[c] by {
            assert((4 * i + c) / 4 == i && (4 * i + c) % 4 == c);
            assert(p.samples[4 * i + c] == a.cells[i]@[c] as u32);
            assert(q.samples[4 * i + c] == b.cells[i]@[c] as u32);
        }
        assert(a.cells[i]@ =~= b.cells[i]@);
    }
    assert(a.cells =~= b.cells);
}

/// What ruling the file of a plane gives is the plane itself with the lines across it, and
/// there is a result exactly where the size and the lines suit.
pub proof fn law_written_plane_is_ruled(
    grid: Grid<[u8; 4]>,
    file: Seq<u8>,
    hl_thickness: u32,
    hl_step: i32,
    vl_thickness: u32,
    vl_step: i32,
    outcome: Result<DynamicImage, DenoiseError>,
)
    requires
        grid.wf(),
        reads_back(file, rgba_picture(grid)),
        ruling_outcome(file, hl_thickness, hl_step, vl_thickness, vl_step, outcome),
    ensures
        outcome is Ok <==> can_expand(grid.width, grid.height) && can_rule(
            grid.width,
            grid.height,
            hl_thickness,
            hl_step,
            vl_thickness,
            vl_step,
        ),
        (match outcome {
            Ok(image) => contents(image) == rgba_picture(
                ruled(grid, hl_thickness, hl_step, vl_thickness, vl_step),
            ),
            Err(error) => error is Geometry,
        }),
{
    let shown = rgba_picture(grid);
    assert(shown.exact());
    match outcome {
        Ok(image) => {
            let (picture, loaded) = choose|picture: Picture, loaded: Grid<[u8; 4]>|
                {
                    &&& #[trigger] loads_as(file, picture)
                    &&& #[trigger] expands_to(picture, loaded)
                    &&& can_expand(picture.width, picture.height)
                    &&& can_rule(
                        picture.width,
                        picture.height,
                        hl_thickness,
                        hl_step,
                        vl_thickness,
                        vl_step,
                    )
                    &&& contents(image) == rgba_picture(
                        ruled(loaded, hl_thickness, hl_step, vl_thickness, vl_step),
                    )
                };
            assert(Some(picture) == Some(shown));
            lemma_rgba_plane(loaded, grid);
        },
        Err(error) => {
            assert(!load_outcome(file, None));
            assert(forall|picture: Picture| #[trigger]
                loads_as(file, picture) ==> Some(picture) == Some(shown));
        },
    }
}

/// Ruling a picture that was ruled and written again changes nothing, as long as the file is
/// not too large to be loaded.
pub proof fn law_ruling_a_ruled_file_changes_nothing(
    bytes: Seq<u8>,
    hl_thickness: u32,
    hl_step: i32,
    vl_thickness: u32,
    vl_step: i32,
    image: DynamicImage,
    file: Vec<u8>,
    outcome: Result<DynamicImage, DenoiseError>,
)
    requires
        ruling_outcome(bytes, hl_thickness, hl_step, vl_thickness, vl_step, Ok(image)),
        writing_outcome(contents(image), Ok(file)),
        contents(image).byte_size() <= LOAD_LIMIT,
        ruling_outcome(file@, hl_thickness, hl_step, vl_thickness, vl_step, outcome),
    ensures
        outcome matches Ok(again) && contents(again) == contents(image),
{
    let (picture, grid) = choose|picture: Picture, grid: Grid<[u8; 4]>|
        {
            &&& #[trigger] loads_as(bytes, picture)
            &&& #[trigger] expands_to(picture, grid)
            &&& can_expand(picture.width, picture.height)
            &&& can_rule(
                picture.width,
                picture.height,
                hl_thickness,
                hl_step,
                vl_thickness,
                vl_step,
            )
            &&& contents(image) == rgba_picture(
                ruled(grid, hl_thickness, hl_step, vl_thickness, vl_step),
            )
        };
    let once = ruled(grid, hl_thickness, hl_step, vl_thickness, vl_step);
    lemma_ruled(grid, hl_thickness, hl_step, vl_thickness, vl_step);
    law_written_plane_is_ruled(
        once,
        file@,
        hl_thickness,
        hl_step,
        vl_thickness,
        vl_step,
        outcome,
    );
    law_ruling_is_idempotent(grid, hl_thickness, hl_step, vl_thickness, vl_step);
}

/// The file of a plane shows the plane on the screen, unless it is too large.
pub proof fn law_written_plane_is_shown(
    grid: Grid<[u8; 4]>,
    file: Seq<u8>,
    outcome: Result<ColorImage, DenoiseError>,
)
    requires
        grid.wf(),
        reads_back(file, rgba_picture(grid)),
        showing_outcome(file, outcome),
    ensures
        (match outcome {
            Ok(image) => can_expand(grid.width, grid.height) && shows(image, grid),
            Err(error) => error is Geometry && !can_expand(grid.width, grid.height),
        }),
{
    let shown = rgba_picture(grid);
    assert(shown.exact());
    match outcome {
        Ok(image) => {
            let (picture, loaded) = choose|picture: Picture, loaded: Grid<[u8; 4]>| #[trigger]
                loads_as(file, picture) && #[trigger] expands_to(picture, loaded) && can_expand(
                    picture.width,
                    picture.height,
                ) && shows(image, loaded);
            assert(Some(picture) == Some(shown));
            lemma_rgba_plane(loaded, grid);
        },
        Err(_) => {
            assert(!load_outcome(file, None));
            assert(forall|picture: Picture| #[trigger]
                loads_as(file, picture) ==> Some(picture) == Some(shown));
        },
    }
}

/// A run that has ended is what a text is asked for next, whatever ran before.
pub proof fn law_latest_result_is_read(
    state: AppState,
    mask: ColorImage,
    inpainted: Seq<u8>,
    ruled: Seq<u8>,
)
    ensures
        state.delivered(mask, inpainted, ruled).asked_for_text().worker
            == state.worker.submitted(inpainted),
        AppState::initial().asked_for_text() == AppState::initial(),
{
}

/// The state after `count` frames.
pub open spec fn after_frames(state: AppState, count: nat) -> AppState
    decreases count,
{
    if count == 0 {
        state
    } else {
        after_frames(state, (count - 1) as nat).shown()
    }
}

/// The rest of a queue from a position, or nothing.
pub open spec fn rest<T>(queue: Seq<T>, count: nat) -> Seq<T> {
    if count <= queue.len() {
        queue.skip(count as int)
    } else {
        Seq::empty()
    }
}

/// Frames show what waits in the order in which it came, one of each kind at a time, and
/// leave what was found last and the worker alone.
pub proof fn law_frames_show_in_order(state: AppState, count: nat)
    ensures
        after_frames(state, count).orig == rest(state.orig, count),
        after_frames(state, count).denoised == rest(state.denoised, count),
        after_frames(state, count).density == rest(state.density, count),
        after_frames(state, count).lines == rest(state.lines, count),
        after_frames(state, count).result == state.result,
        after_frames(state, count).worker == state.worker,
    decreases count,
{
    if count > 0 {
        law_frames_show_in_order(state, (count - 1) as nat);
        let before = after_frames(state, (count - 1) as nat);
        let after = after_frames(state, count);
        assert(after == before.shown());
        assert(after.orig =~= rest(state.orig, count));
        assert(after.denoised =~= rest(state.denoised, count));
        assert(after.density =~= rest(state.density, count));
        assert(after.lines =~= rest(state.lines, count));
    } else {
        assert(state.orig =~= rest(state.orig, 0));
        assert(state.denoised =~= rest(state.denoised, 0));
        assert(state.density =~= rest(state.density, 0));
        assert(state.lines =~= rest(state.lines, 0));
    }
}

/// What can happen to the state of the viewer.
pub ghost enum AppEvent {
    /// A scaled picture is ready.
    Scaled(Seq<u8>),
    /// A run has ended with the picture of the lines, the picture without them and the
    /// picture in which they were looked for.
    Delivered(ColorImage, Seq<u8>, Seq<u8>),
    /// One value of each kind is shown.
    Shown,
    /// The text of the latest result is asked for.
    Asked,
}

/// The state after one event.
pub open spec fn app_step(state: AppState, event: AppEvent) -> AppState {
    match event {
        AppEvent::Scaled(file) => state.scaled(file),
        AppEvent::Delivered(mask, inpainted, ruled) => state.delivered(mask, inpainted, ruled),
        AppEvent::Shown => state.shown(),
        AppEvent::Asked => state.asked_for_text(),
    }
}

/// The state after some events, one after the other.
pub open spec fn app_after(events: Seq<AppEvent>) -> AppState
    decreases events.len(),
{
    if events.len() == 0 {
        AppState::initial()
    } else {
        app_step(app_after(events.drop_last()), events.last())
    }
}

/// Before a result is there, nothing but scaled pictures waits to be shown: who is shown the
/// lines, the picture without them or the picture that was searched finds a result stored.
pub proof fn law_shown_run_has_a_result(events: Seq<AppEvent>)
    ensures
        app_after(events).result is None ==> {
            &&& app_after(events).lines.len() == 0
            &&& app_after(events).denoised.len() == 0
            &&& app_after(events).density.len() == 0
        },
    decreases events.len(),
{
    if events.len() > 0 {
        law_shown_run_has_a_result(events.drop_last());
    }
}

/// Whether nothing but showing and asking happens in some events.
pub open spec fn no_run(events: Seq<AppEvent>) -> bool {
    forall|i: int|
        0 <= i < events.len() ==> (#[trigger] events[i] is Shown || events[i] is Asked)
}

/// A queue that holds `value`, or nothing any more.
pub open spec fn at_most<T>(queue: Seq<T>, value: T) -> bool {
    queue.len() == 0 || queue == seq![value]
}

/// In the only run of a viewer the scaled picture comes first, then the lines, the picture
/// without them and the picture that was searched, and from then on the stored result is the
/// picture without the lines: until the scaled picture comes nothing waits, until the run
/// ends nothing else does and there is no result.
pub proof fn law_only_run_delivers_in_order(
    before: Seq<AppEvent>,
    scaled: Seq<u8>,
    between: Seq<AppEvent>,
    mask: ColorImage,
    inpainted: Seq<u8>,
    ruled: Seq<u8>,
    after: Seq<AppEvent>,
)
    requires
        no_run(before),
        no_run(between),
        no_run(after),
    ensures
        app_after(before) == AppState::initial(),
        ({
            let running = app_after(before.push(AppEvent::Scaled(scaled)) + between);
            &&& at_most(running.orig, scaled)
            &&& running.lines.len() == 0
            &&& running.denoised.len() == 0
            &&& running.density.len() == 0
            &&& running.result is None
        }),
        ({
            let ended = app_after(
                (before.push(AppEvent::Scaled(scaled)) + between).push(
                    AppEvent::Delivered(mask, inpainted, ruled),
                ) + after,
            );
            &&& at_most(ended.orig, scaled)
            &&& at_most(ended.lines, mask)
            &&& at_most(ended.denoised, inpainted)
            &&& at_most(ended.density, ruled)
            &&& ended.result == Some(inpainted)
        }),
{
    let first = before.push(AppEvent::Scaled(scaled));
    let second = (first + between).push(AppEvent::Delivered(mask, inpainted, ruled));
    lemma_nothing_happens(before);
    assert(first.drop_last() =~= before);
    assert(app_after(first).orig =~= seq![scaled]);
    lemma_showing(first, between);
    assert(second.drop_last() =~= first + between);
    let running = app_after(first + between);
    let ended = app_after(second);
    assert(ended == running.delivered(mask, inpainted, ruled));
    assert(ended.lines =~= seq![mask]);
    assert(ended.denoised =~= seq![inpainted]);
    assert(ended.density =~= seq![ruled]);
    lemma_showing(second, after);
    let end = app_after(second + after);
    lemma_at_most(app_after(first).orig, running.orig, scaled);
    lemma_at_most(ended.orig, end.orig, scaled);
    lemma_at_most(ended.lines, end.lines, mask);
    lemma_at_most(ended.denoised, end.denoised, inpainted);
    lemma_at_most(ended.density, end.density, ruled);
}

/// A queue of at most one value stays one when it is shortened.
proof fn lemma_at_most<T>(before: Seq<T>, after: Seq<T>, value: T)
    requires
        at_most(before, value),
        shortened(before, after),
    ensures
        at_most(after, value),
{
    let n = choose|n: int| 0 <= n <= before.len() && after == #[trigger] before.skip(n);
    if n == 0 {
        assert(after =~= before);
    }
}

/// Showing and asking leave the state at the start as it is.
proof fn lemma_nothing_happens(events: Seq<AppEvent>)
    requires
        no_run(events),
    ensures
        app_after(events) == AppState::initial(),
    decreases events.len(),
{
    if events.len() > 0 {
        let rest = events.drop_last();
        assert forall|i: int| 0 <= i < rest.len() implies (#[trigger] rest[i] is Shown
            || rest[i] is Asked) by {
            assert(events[i] is Shown || events[i] is Asked);
        }
        lemma_nothing_happens(rest);
        let last = events[events.len() - 1];
        assert(last is Shown || last is Asked);
        assert(app_after(events) =~= AppState::initial());
    }
}

/// A queue after some events of showing and asking: as it was, or shorter from the front.
pub open spec fn shortened<T>(before: Seq<T>, after: Seq<T>) -> bool {
    exists|n: int| 0 <= n <= before.len() && after == #[trigger] before.skip(n)
}

/// A queue that is shortened once more is still shortened.
proof fn lemma_shortened<T>(before: Seq<T>, after: Seq<T>)
    requires
        shortened(before, after),
    ensures
        shortened(before, advanced(after)),
{
    let n = choose|n: int| 0 <= n <= before.len() && after == #[trigger] before.skip(n);
    if after.len() > 0 {
        assert(after.drop_first() =~= before.skip(n + 1));
    }
}

/// Showing and asking shorten the queues and keep the result.
proof fn lemma_showing(events: Seq<AppEvent>, more: Seq<AppEvent>)
    requires
        no_run(more),
    ensures
        shortened(app_after(events).orig, app_after(events + more).orig),
        shortened(app_after(events).lines, app_after(events + more).lines),
        shortened(app_after(events).denoised, app_after(events + more).denoised),
        shortened(app_after(events).density, app_after(events + more).density),
        app_after(events + more).result == app_after(events).result,
    decreases more.len(),
{
    let start = app_after(events);
    if more.len() == 0 {
        assert(events + more =~= events);
        assert(start.orig.skip(0) =~= start.orig);
        assert(start.lines.skip(0) =~= start.lines);
        assert(start.denoised.skip(0) =~= start.denoised);
        assert(start.density.skip(0) =~= start.density);
    } else {
        let rest = more.drop_last();
        assert forall|i: int| 0 <= i < rest.len() implies (#[trigger] rest[i] is Shown
            || rest[i] is Asked) by {
            assert(more[i] is Shown || more[i] is Asked);
        }
        lemma_showing(events, rest);
        assert((events + more).drop_last() =~= events + rest);
        let last = more[more.len() - 1];
        assert(last is Shown || last is Asked);
        assert((events + more).last() == last);
        let state = app_after(events + rest);
        lemma_shortened(start.orig, state.orig);
        lemma_shortened(start.lines, state.lines);
        lemma_shortened(start.denoised, state.denoised);
        lemma_shortened(start.density, state.density);
    }
}

} // verus!
