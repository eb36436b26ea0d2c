//! What holds of cleaning a picture.

use vstd::prelude::*;

use crate::captcha::{
    can_enlarge, cleaning_outcome, despeckled, enlarged_from, whitened, WHITE_LEVEL,
};
use crate::density::{column, dark, dark_count, density_map, lemma_dark_count};
use crate::density_laws::lemma_gray_plane;
use crate::error::DenoiseError;
use crate::morphology::{
    block_around, block_mean, block_sum, can_threshold, can_threshold_at, corner_sum, dilated,
    eroded, found_near, reaches_all, row_sum, thresholded,
};
use crate::picture::{
    can_double, encodes, gray_picture, grays_to, load_outcome, loads_as, reads_back,
    scale_outcome, Picture,
};
use crate::plane::{lemma_same_cells, lemma_tabulate, Grid};

verus! {

/// The cells of a grid whose sparse columns were wiped.
proof fn lemma_whitened(grid: Grid<u8>, counts: Seq<u32>, threshold: u8)
    ensures
        whitened(grid, counts, threshold).wf(),
        forall|x: int, y: int|
            grid.has(x, y) ==> #[trigger] whitened(grid, counts, threshold).at(x, y) == (
            if counts[x] < threshold {
                WHITE_LEVEL
            } else {
                grid.at(x, y)
            }),
{
    lemma_tabulate(
        grid.width,
        grid.height,
        |x: int, y: int|
            if counts[x] < threshold {
                WHITE_LEVEL
            } else {
                grid.at(x, y)
            },
    );
}

/// A threshold of zero wipes nothing.
pub proof fn law_zero_threshold_wipes_nothing(grid: Grid<u8>, counts: Seq<u32>)
    requires
        grid.wf(),
    ensures
        whitened(grid, counts, 0) == grid,
{
    lemma_whitened(grid, counts, 0);
    lemma_same_cells(whitened(grid, counts, 0), grid);
}

/// Wiping twice is wiping once.
pub proof fn law_wiping_is_idempotent(grid: Grid<u8>, counts: Seq<u32>, threshold: u8)
    ensures
        whitened(whitened(grid, counts, threshold), counts, threshold) == whitened(
            grid,
            counts,
            threshold,
        ),
{
    let once = whitened(grid, counts, threshold);
    lemma_whitened(grid, counts, threshold);
    lemma_whitened(once, counts, threshold);
    lemma_same_cells(whitened(once, counts, threshold), once);
}

/// A column without dark cells.
proof fn lemma_white_column(cells: Seq<u8>)
    requires
        forall|y: int| 0 <= y < cells.len() ==> cells[y] == WHITE_LEVEL,
    ensures
        cells.filter(dark()).len() == 0,
    decreases cells.len(),
{
    reveal(Seq::filter);
    if cells.len() > 0 {
        lemma_white_column(cells.drop_last());
    }
}

/// Where the sparse columns of a picture are wiped by its own counts, every column then holds
/// either no dark pixel, or as many as before and no fewer than the threshold.
pub proof fn law_sparse_columns_vanish(grid: Grid<u8>, threshold: u8, x: int)
    requires
        grid.height <= u32::MAX,
        0 <= x < grid.width,
    ensures
        ({
            let after = dark_count(whitened(grid, density_map(grid), threshold), x);
            after == (if dark_count(grid, x) < threshold {
                0
            } else {
                dark_count(grid, x)
            })
        }),
{
    let counts = density_map(grid);
    let wiped = whitened(grid, counts, threshold);
    lemma_whitened(grid, counts, threshold);
    lemma_dark_count(grid, x);
    assert(counts[x] == dark_count(grid, x));
    if dark_count(grid, x) < threshold {
        assert forall|y: int| 0 <= y < column(wiped, x).len() implies column(wiped, x)[y]
            == WHITE_LEVEL by {
            assert(wiped.at(x, y) == WHITE_LEVEL);
        }
        lemma_white_column(column(wiped, x));
    } else {
        assert forall|y: int| 0 <= y < column(wiped, x).len() implies column(wiped, x)[y]
            == column(grid, x)[y] by {
            assert(wiped.at(x, y) == grid.at(x, y));
        }
        assert(column(wiped, x) =~= column(grid, x));
    }
}

/// The cells of an eroded grid.
proof fn lemma_eroded(grid: Grid<u8>, k: int)
    ensures
        eroded(grid, k).wf(),
        forall|x: int, y: int|
            grid.has(x, y) ==> #[trigger] eroded(grid, k).at(x, y) == (if reaches_all(grid, k)
                || found_near(grid, x, y, k, true) {
                0u8
            } else {
                255u8
            }),
{
    lemma_tabulate(
        grid.width,
        grid.height,
        |x: int, y: int|
            if reaches_all(grid, k) || found_near(grid, x, y, k, true) {
                0u8
            } else {
                255u8
            },
    );
}

/// The cells of a dilated grid.
proof fn lemma_dilated(grid: Grid<u8>, k: int)
    ensures
        dilated(grid, k).wf(),
        forall|x: int, y: int|
            grid.has(x, y) ==> #[trigger] dilated(grid, k).at(x, y) == (if reaches_all(grid, k)
                || found_near(grid, x, y, k, false) {
                255u8
            } else {
                0u8
            }),
{
    lemma_tabulate(
        grid.width,
        grid.height,
        |x: int, y: int|
            if reaches_all(grid, k) || found_near(grid, x, y, k, false) {
                255u8
            } else {
                0u8
            },
    );
}

/// A cleaned picture has the size of the one that was cleaned, and its pixels are black or
/// white.
pub proof fn law_cleaned_is_black_and_white(
    grid: Grid<u8>,
    block: u32,
    delta: i32,
    erase_k: u8,
    dilate_k: u8,
)
    ensures
        ({
            let clean = despeckled(grid, block, delta, erase_k, dilate_k);
            &&& clean.wf()
            &&& clean.width == grid.width
            &&& clean.height == grid.height
            &&& forall|x: int, y: int|
                grid.has(x, y) ==> #[trigger] clean.at(x, y) == 0 || clean.at(x, y) == 255
        }),
{
    let binary = thresholded(grid, block as int, delta as int);
    lemma_dilated(eroded(binary, erase_k as int), dilate_k as int);
}

/// Where white spreads back by no more than black had spread, cleaning makes no pixel white
/// that thresholding left black.
pub proof fn law_cleaning_adds_no_white(
    grid: Grid<u8>,
    block: u32,
    delta: i32,
    erase_k: u8,
    dilate_k: u8,
    x: int,
    y: int,
)
    requires
        grid.has(x, y),
        dilate_k <= erase_k,
        !reaches_all(grid, dilate_k as int),
        despeckled(grid, block, delta, erase_k, dilate_k).at(x, y) != 0,
    ensures
        thresholded(grid, block as int, delta as int).at(x, y) != 0,
{
    let binary = thresholded(grid, block as int, delta as int);
    let thin = eroded(binary, erase_k as int);
    lemma_eroded(binary, erase_k as int);
    lemma_dilated(thin, dilate_k as int);
    assert(found_near(thin, x, y, dilate_k as int, false));
    let (i, j) = choose|i: int, j: int|
        #![trigger thin.at(i, j)]
        thin.has(i, j) && x - dilate_k <= i <= x + dilate_k && y - dilate_k <= j <= y + dilate_k
            && (thin.at(i, j) == 0) == false;
    assert(binary.has(i, j));
    assert(thin.at(i, j) != 0);
    assert(!found_near(binary, i, j, erase_k as int, true));
    if binary.at(x, y) == 0 {
        assert(binary.has(x, y));
        assert(found_near(binary, i, j, erase_k as int, true));
    }
}

/// Where every white pixel has a black one within the reach of the erosion, cleaning leaves
/// nothing white: specks and thin strokes vanish.
pub proof fn law_specks_vanish(
    grid: Grid<u8>,
    block: u32,
    delta: i32,
    erase_k: u8,
    dilate_k: u8,
    x: int,
    y: int,
)
    requires
        grid.has(x, y),
        !reaches_all(grid, dilate_k as int),
        forall|i: int, j: int|
            grid.has(i, j) ==> #[trigger] found_near(
                thresholded(grid, block as int, delta as int),
                i,
                j,
                erase_k as int,
                true,
            ),
    ensures
        despeckled(grid, block, delta, erase_k, dilate_k).at(x, y) == 0,
{
    let binary = thresholded(grid, block as int, delta as int);
    let thin = eroded(binary, erase_k as int);
    lemma_eroded(binary, erase_k as int);
    lemma_dilated(thin, dilate_k as int);
    assert forall|i: int, j: int| thin.has(i, j) implies #[trigger] thin.at(i, j) == 0 by {
        assert(binary.has(i, j));
        assert(found_near(binary, i, j, erase_k as int, true));
    }
    assert(!found_near(thin, x, y, dilate_k as int, false));
}

/// Cleaning with no erosion and no dilation is thresholding alone.
pub proof fn law_cleaning_without_reach_is_thresholding(grid: Grid<u8>, block: u32, delta: i32)
    requires
        grid.width > 0,
        grid.height > 0,
    ensures
        despeckled(grid, block, delta, 0, 0) == thresholded(grid, block as int, delta as int),
{
    let binary = thresholded(grid, block as int, delta as int);
    let thin = eroded(binary, 0);
    let clean = dilated(thin, 0);
    lemma_thresholded(grid, block as int, delta as int);
    lemma_eroded(binary, 0);
    lemma_dilated(thin, 0);
    assert forall|x: int, y: int| binary.has(x, y) implies #[trigger] thin.at(x, y) == binary.at(
        x,
        y,
    ) by {
        assert(grid.has(x, y));
        assert(binary.at(x, y) == 0 || binary.at(x, y) == 255);
        if binary.at(x, y) == 0 {
            assert(found_near(binary, x, y, 0, true));
        } else {
            assert(!found_near(binary, x, y, 0, true));
        }
    }
    assert forall|x: int, y: int| clean.has(x, y) implies #[trigger] clean.at(x, y) == binary.at(
        x,
        y,
    ) by {
        assert(grid.has(x, y));
        assert(thin.has(x, y));
        assert(thin.at(x, y) == binary.at(x, y));
        assert(binary.at(x, y) == 0 || binary.at(x, y) == 255);
        if binary.at(x, y) == 0 {
            assert(!found_near(thin, x, y, 0, false));
        } else {
            assert(found_near(thin, x, y, 0, false));
        }
    }
    lemma_same_cells(clean, binary);
}

/// The cells of a thresholded grid are black or white.
proof fn lemma_thresholded(grid: Grid<u8>, radius: int, delta: int)
    ensures
        thresholded(grid, radius, delta).wf(),
        forall|x: int, y: int|
            grid.has(x, y) ==> #[trigger] thresholded(grid, radius, delta).at(x, y) == 0
                || thresholded(grid, radius, delta).at(x, y) == 255,
{
    lemma_tabulate(
        grid.width,
        grid.height,
        |x: int, y: int|
            if grid.at(x, y) >= block_mean(grid, x, y, radius) - delta {
                255u8
            } else {
                0u8
            },
    );
}

/// Where white spreads back by no more than black had spread, cleaning makes no pixel white
/// that cleaning without erosion and dilation leaves black.
pub proof fn law_opening_adds_no_white(
    grid: Grid<u8>,
    block: u32,
    delta: i32,
    erase_k: u8,
    dilate_k: u8,
    x: int,
    y: int,
)
    requires
        grid.has(x, y),
        dilate_k <= erase_k,
        !reaches_all(grid, dilate_k as int),
        despeckled(grid, block, delta, erase_k, dilate_k).at(x, y) == 255,
    ensures
        despeckled(grid, block, delta, 0, 0).at(x, y) == 255,
{
    law_cleaning_adds_no_white(grid, block, delta, erase_k, dilate_k, x, y);
    law_cleaning_without_reach_is_thresholding(grid, block, delta);
    lemma_thresholded(grid, block as int, delta as int);
}

/// Black spreads no further with a smaller reach, and white no further either.
proof fn lemma_reach(grid: Grid<u8>, x: int, y: int, near: int, far: int, black: bool)
    requires
        near <= far,
        found_near(grid, x, y, near, black),
    ensures
        found_near(grid, x, y, far, black),
{
    let (i, j) = choose|i: int, j: int|
        #![trigger grid.at(i, j)]
        grid.has(i, j) && x - near <= i <= x + near && y - near <= j <= y + near && (grid.at(i, j)
            == 0) == black;
    assert(grid.at(i, j) == grid.at(i, j));
}

/// More erosion or less dilation only removes white.
pub proof fn law_more_erosion_only_removes_white(
    grid: Grid<u8>,
    block: u32,
    delta: i32,
    more: (u8, u8),
    less: (u8, u8),
    x: int,
    y: int,
)
    requires
        grid.has(x, y),
        more.0 >= less.0,
        more.1 <= less.1,
        despeckled(grid, block, delta, more.0, more.1).at(x, y) == 255,
    ensures
        despeckled(grid, block, delta, less.0, less.1).at(x, y) == 255,
{
    let binary = thresholded(grid, block as int, delta as int);
    let thin = eroded(binary, more.0 as int);
    let thick = eroded(binary, less.0 as int);
    lemma_eroded(binary, more.0 as int);
    lemma_eroded(binary, less.0 as int);
    lemma_dilated(thin, more.1 as int);
    lemma_dilated(thick, less.1 as int);
    if !reaches_all(thick, less.1 as int) {
        assert(found_near(thin, x, y, more.1 as int, false));
        let (i, j) = choose|i: int, j: int|
            #![trigger thin.at(i, j)]
            thin.has(i, j) && x - more.1 <= i <= x + more.1 && y - more.1 <= j <= y + more.1 && (
            thin.at(i, j) == 0) == false;
        assert(binary.has(i, j));
        assert(thin.at(i, j) == 255);
        if found_near(binary, i, j, less.0 as int, true) {
            lemma_reach(binary, i, j, less.0 as int, more.0 as int, true);
        }
        assert(thick.at(i, j) == 255);
        assert(found_near(thick, x, y, less.1 as int, false));
    }
}

/// Whatever a file may be cleaned to, more erosion or less dilation is the removal of white
/// from something that it may be cleaned to with less erosion or more dilation.
pub proof fn law_more_erosion_of_a_file_only_removes_white(
    bytes: Seq<u8>,
    block: u32,
    delta: i32,
    more: (u8, u8),
    less: (u8, u8),
    counts: Seq<u32>,
    threshold: u8,
    file: Vec<u8>,
)
    requires
        more.0 >= less.0,
        more.1 <= less.1,
        cleaning_outcome(bytes, block, delta, more.0, more.1, counts, threshold, Ok(file)),
    ensures
        exists|enlarged: Grid<u8>|
            {
                let fewer = #[trigger] despeckled(enlarged, block, delta, more.0, more.1);
                let others = despeckled(enlarged, block, delta, less.0, less.1);
                &&& encodes(file@, gray_picture(fewer))
                &&& forall|other: Vec<u8>| #[trigger]
                    encodes(other@, gray_picture(others)) ==> cleaning_outcome(
                        bytes,
                        block,
                        delta,
                        less.0,
                        less.1,
                        counts,
                        threshold,
                        Ok(other),
                    )
                &&& forall|x: int, y: int|
                    enlarged.has(x, y) && #[trigger] fewer.at(x, y) == 255 ==> others.at(x, y)
                        == 255
            },
{
    let (picture, grid, enlarged) = choose|picture: Picture, grid: Grid<u8>, enlarged: Grid<u8>|
        {
            &&& #[trigger] loads_as(bytes, picture)
            &&& #[trigger] enlarged_from(picture, grid, enlarged, counts, threshold)
            &&& can_threshold(enlarged, block as int, delta as int)
            &&& encodes(file@, gray_picture(despeckled(enlarged, block, delta, more.0, more.1)))
        };
    let fewer = despeckled(enlarged, block, delta, more.0, more.1);
    let others = despeckled(enlarged, block, delta, less.0, less.1);
    assert forall|x: int, y: int|
        enlarged.has(x, y) && #[trigger] fewer.at(x, y) == 255 implies others.at(x, y) == 255 by {
        law_more_erosion_only_removes_white(enlarged, block, delta, more, less, x, y);
    }
}

/// Wiping depends on which columns fall below the threshold, and on nothing else of the
/// counts and the threshold.
pub proof fn law_only_sparse_columns_matter(
    grid: Grid<u8>,
    counts1: Seq<u32>,
    threshold1: u8,
    counts2: Seq<u32>,
    threshold2: u8,
)
    requires
        forall|x: int|
            0 <= x < grid.width ==> (#[trigger] counts1[x] < threshold1) == (counts2[x]
                < threshold2),
    ensures
        whitened(grid, counts1, threshold1) == whitened(grid, counts2, threshold2),
{
    lemma_whitened(grid, counts1, threshold1);
    lemma_whitened(grid, counts2, threshold2);
    let a = whitened(grid, counts1, threshold1);
    let b = whitened(grid, counts2, threshold2);
    assert forall|x: int, y: int| a.has(x, y) implies #[trigger] a.at(x, y) == b.at(x, y) by {
        assert(grid.has(x, y));
        assert((counts1[x] < threshold1) == (counts2[x] < threshold2));
        assert(b.at(x, y) == b.at(x, y));
    }
    lemma_same_cells(a, b);
}

/// One outcome of cleaning a file carries over to other counts and another threshold below
/// which the same columns fall.
proof fn lemma_same_sparse_columns(
    bytes: Seq<u8>,
    block: u32,
    delta: i32,
    reach: (u8, u8),
    counts1: Seq<u32>,
    threshold1: u8,
    counts2: Seq<u32>,
    threshold2: u8,
    outcome: Result<Vec<u8>, DenoiseError>,
)
    requires
        forall|picture: Picture| #[trigger]
            loads_as(bytes, picture) ==> picture.width <= counts1.len() && picture.width
                <= counts2.len(),
        forall|picture: Picture, x: int|
            #![trigger loads_as(bytes, picture), counts1[x]]
            loads_as(bytes, picture) && 0 <= x < picture.width ==> (counts1[x] < threshold1) == (
            counts2[x] < threshold2),
        cleaning_outcome(
            bytes,
            block,
            delta,
            reach.0,
            reach.1,
            counts1,
            threshold1,
            outcome,
        ),
    ensures
        cleaning_outcome(
            bytes,
            block,
            delta,
            reach.0,
            reach.1,
            counts2,
            threshold2,
            outcome,
        ),
{
    assert forall|picture: Picture, grid: Grid<u8>, enlarged: Grid<u8>|
        loads_as(bytes, picture) && #[trigger] enlarged_from(
            picture,
            grid,
            enlarged,
            counts1,
            threshold1,
        ) implies enlarged_from(picture, grid, enlarged, counts2, threshold2) by {
        law_only_sparse_columns_matter(grid, counts1, threshold1, counts2, threshold2);
    }
}

/// Cleaning a file comes to the same with other counts and another threshold, where the same
/// columns fall below it: counts behind the last column are ignored, and below a threshold of
/// zero none matters.
pub proof fn law_cleaning_depends_on_sparse_columns(
    bytes: Seq<u8>,
    block: u32,
    delta: i32,
    reach: (u8, u8),
    counts1: Seq<u32>,
    threshold1: u8,
    counts2: Seq<u32>,
    threshold2: u8,
    outcome: Result<Vec<u8>, DenoiseError>,
)
    requires
        forall|picture: Picture| #[trigger]
            loads_as(bytes, picture) ==> picture.width <= counts1.len() && picture.width
                <= counts2.len(),
        forall|picture: Picture, x: int|
            #![trigger loads_as(bytes, picture), counts1[x]]
            #![trigger loads_as(bytes, picture), counts2[x]]
            loads_as(bytes, picture) && 0 <= x < picture.width ==> (counts1[x] < threshold1) == (
            counts2[x] < threshold2),
    ensures
        cleaning_outcome(
            bytes,
            block,
            delta,
            reach.0,
            reach.1,
            counts1,
            threshold1,
            outcome,
        ) == cleaning_outcome(
            bytes,
            block,
            delta,
            reach.0,
            reach.1,
            counts2,
            threshold2,
            outcome,
        ),
{
    if cleaning_outcome(bytes, block, delta, reach.0, reach.1, counts1, threshold1, outcome) {
        lemma_same_sparse_columns(
            bytes,
            block,
            delta,
            reach,
            counts1,
            threshold1,
            counts2,
            threshold2,
            outcome,
        );
    }
    if cleaning_outcome(bytes, block, delta, reach.0, reach.1, counts2, threshold2, outcome) {
        lemma_same_sparse_columns(
            bytes,
            block,
            delta,
            reach,
            counts2,
            threshold2,
            counts1,
            threshold1,
            outcome,
        );
    }
}

/// Wiping the sparse columns of a file beforehand and cleaning with a threshold of zero comes
/// to what cleaning with the threshold may come to: sparse columns are wiped whole.
pub proof fn law_wiping_beforehand_is_cleaning(
    bytes: Seq<u8>,
    picture: Picture,
    grid: Grid<u8>,
    wiped_bytes: Seq<u8>,
    block: u32,
    delta: i32,
    reach: (u8, u8),
    counts: Seq<u32>,
    threshold: u8,
    outcome: Result<Vec<u8>, DenoiseError>,
)
    requires
        loads_as(bytes, picture),
        grays_to(picture, grid),
        reads_back(wiped_bytes, gray_picture(whitened(grid, counts, threshold))),
        cleaning_outcome(wiped_bytes, block, delta, reach.0, reach.1, counts, 0, outcome),
    ensures
        cleaning_outcome(bytes, block, delta, reach.0, reach.1, counts, threshold, outcome),
{
    let wiped = whitened(grid, counts, threshold);
    let shown = gray_picture(wiped);
    lemma_whitened(grid, counts, threshold);
    assert(shown.exact());
    law_zero_threshold_wipes_nothing(wiped, counts);
    assert(!load_outcome(wiped_bytes, None));
    assert forall|p: Picture, g: Grid<u8>, enlarged: Grid<u8>|
        loads_as(wiped_bytes, p) && #[trigger] enlarged_from(
            p,
            g,
            enlarged,
            counts,
            0,
        ) implies enlarged_from(picture, grid, enlarged, counts, threshold) by {
        assert(Some(p) == Some(shown));
        lemma_gray_plane(g, wiped);
    }
    assert(forall|p: Picture| #[trigger]
        loads_as(wiped_bytes, p) ==> Some(p) == Some(shown));
}

/// For the file of a grey plane, cleaning with a threshold comes to what cleaning the file of
/// the wiped plane with a threshold of zero comes to, and to nothing else.
pub proof fn law_cleaning_is_wiping_beforehand(
    bytes: Seq<u8>,
    grid: Grid<u8>,
    wiped_bytes: Seq<u8>,
    block: u32,
    delta: i32,
    reach: (u8, u8),
    counts: Seq<u32>,
    threshold: u8,
    outcome: Result<Vec<u8>, DenoiseError>,
)
    requires
        reads_back(bytes, gray_picture(grid)),
        loads_as(bytes, gray_picture(grid)),
        grays_to(gray_picture(grid), grid),
        reads_back(wiped_bytes, gray_picture(whitened(grid, counts, threshold))),
        loads_as(wiped_bytes, gray_picture(whitened(grid, counts, threshold))),
        grays_to(
            gray_picture(whitened(grid, counts, threshold)),
            whitened(grid, counts, threshold),
        ),
    ensures
        cleaning_outcome(bytes, block, delta, reach.0, reach.1, counts, threshold, outcome)
            == cleaning_outcome(wiped_bytes, block, delta, reach.0, reach.1, counts, 0, outcome),
{
    let wiped = whitened(grid, counts, threshold);
    let shown = gray_picture(wiped);
    lemma_whitened(grid, counts, threshold);
    law_zero_threshold_wipes_nothing(wiped, counts);
    if cleaning_outcome(wiped_bytes, block, delta, reach.0, reach.1, counts, 0, outcome) {
        law_wiping_beforehand_is_cleaning(
            bytes,
            gray_picture(grid),
            grid,
            wiped_bytes,
            block,
            delta,
            reach,
            counts,
            threshold,
            outcome,
        );
    }
    if cleaning_outcome(bytes, block, delta, reach.0, reach.1, counts, threshold, outcome) {
        assert(!load_outcome(bytes, None));
        assert forall|p: Picture, g: Grid<u8>, enlarged: Grid<u8>|
            loads_as(bytes, p) && #[trigger] enlarged_from(
                p,
                g,
                enlarged,
                counts,
                threshold,
            ) implies enlarged_from(shown, wiped, enlarged, counts, 0) by {
            assert(Some(p) == Some(gray_picture(grid)));
            lemma_gray_plane(g, grid);
        }
        assert(forall|p: Picture| #[trigger]
            loads_as(bytes, p) ==> Some(p) == Some(gray_picture(grid)));
    }
}

/// The wiped plane has the size of the plane. A column is white where it counts fewer dark
/// pixels than the threshold, and as it was elsewhere.
pub proof fn law_wiping_whitens_sparse_columns(grid: Grid<u8>, counts: Seq<u32>, threshold: u8)
    ensures
        ({
            let wiped = whitened(grid, counts, threshold);
            &&& wiped.wf()
            &&& wiped.width == grid.width
            &&& wiped.height == grid.height
            &&& forall|x: int, y: int|
                grid.has(x, y) && counts[x] < threshold ==> #[trigger] wiped.at(x, y) == 255
            &&& forall|x: int, y: int|
                grid.has(x, y) && counts[x] >= threshold ==> #[trigger] wiped.at(x, y) == grid.at(
                    x,
                    y,
                )
        }),
{
    lemma_whitened(grid, counts, threshold);
}

/// A part of a row is the sum of its parts.
proof fn lemma_row_parts(grid: Grid<u8>, y: int, left: int, middle: int, right: int)
    requires
        left <= middle <= right,
    ensures
        row_sum(grid, y, left, right) == row_sum(grid, y, left, middle) + row_sum(
            grid,
            y,
            middle,
            right,
        ),
        0 <= row_sum(grid, y, left, right) <= 255 * (right - left),
    decreases right - left,
{
    if middle < right {
        lemma_row_parts(grid, y, left, middle, right - 1);
    } else if left < right {
        lemma_row_parts(grid, y, left, middle - 1, right - 1);
    }
}

/// A block is the sum of its left and right parts.
proof fn lemma_block_columns(
    grid: Grid<u8>,
    left: int,
    top: int,
    middle: int,
    right: int,
    bottom: int,
)
    requires
        left <= middle <= right,
    ensures
        block_sum(grid, left, top, right, bottom) == block_sum(grid, left, top, middle, bottom)
            + block_sum(grid, middle, top, right, bottom),
    decreases bottom - top,
{
    if top < bottom {
        lemma_block_columns(grid, left, top, middle, right, bottom - 1);
        lemma_row_parts(grid, bottom - 1, left, middle, right);
    }
}

/// A block is the sum of its upper and lower parts.
proof fn lemma_block_rows(
    grid: Grid<u8>,
    left: int,
    top: int,
    middle: int,
    right: int,
    bottom: int,
)
    requires
        top <= middle <= bottom,
    ensures
        block_sum(grid, left, top, right, bottom) == block_sum(grid, left, top, right, middle)
            + block_sum(grid, left, middle, right, bottom),
    decreases bottom - middle,
{
    if middle < bottom {
        lemma_block_rows(grid, left, top, middle, right, bottom - 1);
    }
}

/// The sum of a block is the sum of the two parts into which a column or a row cuts it, the
/// sum of a single cell is the cell, and a block without columns or rows sums up to zero.
pub proof fn law_block_sums_add_up(
    grid: Grid<u8>,
    left: int,
    top: int,
    right: int,
    bottom: int,
    x: int,
    y: int,
)
    requires
        left <= x <= right,
        top <= y <= bottom,
    ensures
        block_sum(grid, left, top, right, bottom) == block_sum(grid, left, top, x, bottom)
            + block_sum(grid, x, top, right, bottom),
        block_sum(grid, left, top, right, bottom) == block_sum(grid, left, top, right, y)
            + block_sum(grid, left, y, right, bottom),
        block_sum(grid, x, y, x + 1, y + 1) == grid.at(x, y),
        block_sum(grid, x, top, x, bottom) == 0,
        block_sum(grid, left, y, right, y) == 0,
{
    lemma_block_columns(grid, left, top, x, right, bottom);
    lemma_block_rows(grid, left, top, y, right, bottom);
    lemma_block_columns(grid, x, top, x, x, bottom);
    assert(row_sum(grid, y, x, x) == 0);
    assert(row_sum(grid, y, x, x + 1) == row_sum(grid, y, x, x) + grid.at(x, y));
    assert(block_sum(grid, x, y, x + 1, y) == 0);
}

/// The corner of a cell holds the corners beside and above it and the cell itself. Nothing
/// lies in the corner of the first column or row.
pub proof fn law_corners_grow_by_a_cell(grid: Grid<u8>, x: int, y: int)
    requires
        0 <= x,
        0 <= y,
    ensures
        corner_sum(grid, x + 1, y + 1) == corner_sum(grid, x, y + 1) + corner_sum(grid, x + 1, y)
            - corner_sum(grid, x, y) + grid.at(x, y),
        corner_sum(grid, 0, y) == 0,
        corner_sum(grid, x, 0) == 0,
{
    law_block_sums_add_up(grid, 0, 0, x + 1, y + 1, x, y);
    law_block_sums_add_up(grid, x, 0, x + 1, y + 1, x, y);
    law_block_sums_add_up(grid, 0, 0, x, y + 1, x, y);
    law_block_sums_add_up(grid, 0, 0, x + 1, y, x, y);
    law_block_sums_add_up(grid, 0, 0, 0, y, 0, 0);
}

/// A pixel is white where it is at least as bright as the mean of its block less `delta`. The
/// block reaches `block` pixels to every side, as far as the plane does, and its mean is
/// rounded down.
pub proof fn law_thresholding_compares_with_the_mean(
    grid: Grid<u8>,
    block: u32,
    delta: i32,
    x: int,
    y: int,
    left: int,
    top: int,
    right: int,
    bottom: int,
)
    requires
        grid.has(x, y),
        left == (if x < block {
            0
        } else {
            x - block
        }),
        top == (if y < block {
            0
        } else {
            y - block
        }),
        right == (if x + block < grid.width {
            x + block + 1
        } else {
            grid.width as int
        }),
        bottom == (if y + block < grid.height {
            y + block + 1
        } else {
            grid.height as int
        }),
    ensures
        ({
            let mean = block_sum(grid, left, top, right, bottom) / ((right - left) * (bottom
                - top));
            let black_white = thresholded(grid, block as int, delta as int);
            &&& black_white.width == grid.width
            &&& black_white.height == grid.height
            &&& grid.at(x, y) + delta >= mean ==> black_white.at(x, y) == 255
            &&& grid.at(x, y) + delta < mean ==> black_white.at(x, y) == 0
        }),
{
    let radius = block as int;
    lemma_tabulate(
        grid.width,
        grid.height,
        |i: int, j: int|
            if grid.at(i, j) >= block_mean(grid, i, j, radius) - delta {
                255u8
            } else {
                0u8
            },
    );
    assert(block_around(grid, x, y, radius) == (left, top, right, bottom));
}

/// No cell within `reach` columns and rows of a position is black.
pub open spec fn clear_of_black(grid: Grid<u8>, x: int, y: int, reach: int) -> bool {
    forall|i: int, j: int|
        grid.has(i, j) && -reach <= i - x <= reach && -reach <= j - y <= reach ==> #[trigger] grid.at(
            i,
            j,
        ) != 0
}

/// Some cell within `spread` columns and rows of a position has no black cell within `reach`.
pub open spec fn near_clear_cell(grid: Grid<u8>, x: int, y: int, reach: int, spread: int) -> bool {
    exists|i: int, j: int|
        grid.has(i, j) && -spread <= i - x <= spread && -spread <= j - y <= spread
            && #[trigger] clear_of_black(grid, i, j, reach)
}

/// A pixel of the cleaned plane is white where some pixel within the reach of the dilation has
/// no black one of the thresholded plane within the reach of the erosion, and black elsewhere.
/// A reach of 255, or of the sum of the sides, is a reach without end: such an erosion leaves
/// no pixel, and such a dilation fills the plane.
pub proof fn law_cleaning_keeps_what_is_wide(
    grid: Grid<u8>,
    block: u32,
    delta: i32,
    erase_k: u8,
    dilate_k: u8,
)
    ensures
        ({
            let sides = grid.width + grid.height;
            let binary = thresholded(grid, block as int, delta as int);
            let clean = despeckled(grid, block, delta, erase_k, dilate_k);
            &&& clean.wf()
            &&& clean.width == grid.width
            &&& clean.height == grid.height
            &&& forall|x: int, y: int|
                #![trigger clean.at(x, y)]
                grid.has(x, y) ==> {
                    let wide = near_clear_cell(
                        binary,
                        x,
                        y,
                        erase_k as int,
                        dilate_k as int,
                    );
                    let filled = dilate_k == 255 || dilate_k >= sides;
                    let emptied = erase_k == 255 || erase_k >= sides;
                    clean.at(x, y) == (if filled || (!emptied && wide) {
                        255u8
                    } else {
                        0u8
                    })
                }
        }),
{
    let sides = grid.width + grid.height;
    let binary = thresholded(grid, block as int, delta as int);
    let thin = eroded(binary, erase_k as int);
    let clean = despeckled(grid, block, delta, erase_k, dilate_k);
    lemma_thresholded(grid, block as int, delta as int);
    lemma_eroded(binary, erase_k as int);
    lemma_dilated(thin, dilate_k as int);
    let filled = dilate_k == 255 || dilate_k >= sides;
    let emptied = erase_k == 255 || erase_k >= sides;
    assert(reaches_all(binary, erase_k as int) == emptied);
    assert(reaches_all(thin, dilate_k as int) == filled);
    assert forall|i: int, j: int| binary.has(i, j) implies (#[trigger] thin.at(i, j) != 0) == (
    !emptied && clear_of_black(binary, i, j, erase_k as int)) by {
        if found_near(binary, i, j, erase_k as int, true) {
            let (a, b) = choose|a: int, b: int|
                #![trigger binary.at(a, b)]
                binary.has(a, b) && i - erase_k <= a <= i + erase_k && j - erase_k <= b <= j
                    + erase_k && (binary.at(a, b) == 0) == true;
            assert(binary.at(a, b) == 0);
            assert(!clear_of_black(binary, i, j, erase_k as int));
        } else {
            assert forall|a: int, b: int|
                binary.has(a, b) && -erase_k <= a - i <= erase_k && -erase_k <= b - j
                    <= erase_k implies #[trigger] binary.at(a, b) != 0 by {}
        }
    }
    assert forall|x: int, y: int| #![trigger clean.at(x, y)] grid.has(x, y) implies found_near(
        thin,
        x,
        y,
        dilate_k as int,
        false,
    ) == (!emptied && near_clear_cell(
        binary,
        x,
        y,
        erase_k as int,
        dilate_k as int,
    )) by {
        if found_near(thin, x, y, dilate_k as int, false) {
            let (i, j) = choose|i: int, j: int|
                #![trigger thin.at(i, j)]
                thin.has(i, j) && x - dilate_k <= i <= x + dilate_k && y - dilate_k <= j <= y
                    + dilate_k && (thin.at(i, j) == 0) == false;
            assert(binary.has(i, j));
            assert(thin.at(i, j) != 0);
            assert(clear_of_black(binary, i, j, erase_k as int));
        }
        if !emptied && near_clear_cell(binary, x, y, erase_k as int, dilate_k as int) {
            let (i, j) = choose|i: int, j: int|
                binary.has(i, j) && -dilate_k <= i - x <= dilate_k && -dilate_k <= j - y
                    <= dilate_k && #[trigger] clear_of_black(binary, i, j, erase_k as int);
            assert(thin.at(i, j) != 0);
            assert(thin.has(i, j));
        }
    }
}

/// A pixel stays white as far as the dilation reaches from one that has no black pixel of the
/// thresholded plane within the reach of the erosion, on a plane of any size.
pub proof fn law_wide_white_survives(
    grid: Grid<u8>,
    block: u32,
    delta: i32,
    erase_k: u8,
    dilate_k: u8,
    x: int,
    y: int,
    i: int,
    j: int,
)
    requires
        grid.has(x, y),
        grid.has(i, j),
        -dilate_k <= i - x <= dilate_k,
        -dilate_k <= j - y <= dilate_k,
        erase_k < 255,
        erase_k < grid.width + grid.height,
        forall|a: int, b: int|
            grid.has(a, b) && -erase_k <= a - i <= erase_k && -erase_k <= b - j <= erase_k
                ==> #[trigger] thresholded(grid, block as int, delta as int).at(a, b) != 0,
    ensures
        despeckled(grid, block, delta, erase_k, dilate_k).at(x, y) == 255,
{
    let binary = thresholded(grid, block as int, delta as int);
    law_cleaning_keeps_what_is_wide(grid, block, delta, erase_k, dilate_k);
    assert forall|a: int, b: int|
        binary.has(a, b) && -erase_k <= a - i <= erase_k && -erase_k <= b - j
            <= erase_k implies #[trigger] binary.at(a, b) != 0 by {
        assert(grid.has(a, b));
    }
    assert(clear_of_black(binary, i, j, erase_k as int));
    assert(near_clear_cell(binary, x, y, erase_k as int, dilate_k as int));
}

/// A plane that thresholding leaves white stays white, unless the erosion reaches without end.
pub proof fn law_white_plane_stays_white(
    grid: Grid<u8>,
    block: u32,
    delta: i32,
    erase_k: u8,
    dilate_k: u8,
)
    requires
        erase_k < 255,
        erase_k < grid.width + grid.height,
        forall|a: int, b: int|
            grid.has(a, b) ==> #[trigger] thresholded(grid, block as int, delta as int).at(a, b)
                == 255,
    ensures
        forall|x: int, y: int|
            grid.has(x, y) ==> #[trigger] despeckled(grid, block, delta, erase_k, dilate_k).at(
                x,
                y,
            ) == 255,
{
    assert forall|x: int, y: int| grid.has(x, y) implies #[trigger] despeckled(
        grid,
        block,
        delta,
        erase_k,
        dilate_k,
    ).at(x, y) == 255 by {
        law_wide_white_survives(grid, block, delta, erase_k, dilate_k, x, y, x, y);
    }
}

/// A side up to 0x200_0000 pixels can be doubled, and one longer than 0x2000_0000 pixels
/// cannot. Between the two, it can be unless its last pixel stands in the middle between two
/// multiples of the rounding of which the lower is even.
pub proof fn law_sides_that_double(len: int, rounding: int)
    requires
        rounding == 4 || rounding == 8 || rounding == 16 || rounding == 32,
    ensures
        len <= 0x200_0000 ==> can_double(len),
        len > 0x2000_0000 ==> !can_double(len),
        0x80_0000 * rounding < len <= 0x100_0000 * rounding ==> can_double(len) == ((len - 1) % (2
            * rounding) != rounding / 2),
{
}

/// No block is brighter than if all its cells were white.
proof fn lemma_block_bound(grid: Grid<u8>, left: int, top: int, right: int, bottom: int)
    requires
        left <= right,
        top <= bottom,
    ensures
        0 <= block_sum(grid, left, top, right, bottom) <= 255 * ((right - left) * (bottom - top)),
    decreases bottom - top,
{
    if top < bottom {
        lemma_block_bound(grid, left, top, right, bottom - 1);
        lemma_row_parts(grid, bottom - 1, left, left, right);
        assert((right - left) * (bottom - top) == (right - left) * (bottom - 1 - top) + (right
            - left)) by (nonlinear_arith);
    }
}

/// A plane whose pixels could all be white and still sum up to half of what 32 bits hold can
/// be thresholded with any block, and with any delta that leaves the threshold within 32 bits.
pub proof fn law_small_planes_are_thresholded(grid: Grid<u8>, block: u32, delta: i32)
    requires
        grid.width <= 0x7fff_ffff,
        grid.height <= 0x7fff_ffff,
        4 * (grid.width + 1) * (grid.height + 1) <= isize::MAX,
        510 * (grid.width * grid.height) <= u32::MAX,
        delta >= -0x7fff_ff00,
    ensures
        can_threshold(grid, block as int, delta as int),
{
    let w = grid.width as int;
    let h = grid.height as int;
    let radius = block as int;
    lemma_block_bound(grid, 0, 0, w, h);
    assert(corner_sum(grid, w, h) <= 255 * (w * h));
    assert forall|x: int, y: int| grid.has(x, y) implies #[trigger] can_threshold_at(
        grid,
        x,
        y,
        radius,
        delta as int,
    ) by {
        let (left, top, right, bottom) = block_around(grid, x, y, radius);
        let size = (right - left) * (bottom - top);
        let sum = block_sum(grid, left, top, right, bottom);
        lemma_block_bound(grid, left, top, right, bottom);
        lemma_block_bound(grid, 0, 0, right, bottom);
        lemma_block_bound(grid, 0, 0, left, top);
        assert(1 <= size <= w * h) by (nonlinear_arith)
            requires
                size == (right - left) * (bottom - top),
                0 <= left < right <= w,
                0 <= top < bottom <= h,
        ;
        assert(right * bottom <= w * h && left * top <= w * h) by (nonlinear_arith)
            requires
                0 <= left < right <= w,
                0 <= top < bottom <= h,
        ;
        assert(sum / size <= 255) by (nonlinear_arith)
            requires
                0 <= sum <= 255 * size,
                1 <= size,
        ;
    }
}

/// A file that loads as a picture of at most 0x10_0000 pixels, no wider than counts are known,
/// is cleaned: it is not refused for its size.
pub proof fn law_small_files_are_cleaned(
    bytes: Seq<u8>,
    block: u32,
    delta: i32,
    reach: (u8, u8),
    counts: Seq<u32>,
    threshold: u8,
    outcome: Result<Vec<u8>, DenoiseError>,
)
    requires
        cleaning_outcome(bytes, block, delta, reach.0, reach.1, counts, threshold, outcome),
        forall|picture: Picture| #[trigger]
            loads_as(bytes, picture) ==> 0 < picture.width <= counts.len() && 0 < picture.height
                && picture.width * picture.height <= 0x10_0000,
        delta >= -0x7fff_ff00,
    ensures
        outcome is Ok || (outcome == Err::<Vec<u8>, DenoiseError>(DenoiseError::Undecodable)
            && load_outcome(bytes, None)),
{
    assert forall|picture: Picture| #[trigger] loads_as(bytes, picture) implies can_enlarge(
        picture.width,
        picture.height,
        counts.len(),
    ) by {
        let w = picture.width as int;
        let h = picture.height as int;
        lemma_small_sides(w, h);
    }
    assert forall|picture: Picture, grid: Grid<u8>, enlarged: Grid<u8>|
        loads_as(bytes, picture) && #[trigger] enlarged_from(
            picture,
            grid,
            enlarged,
            counts,
            threshold,
        ) implies can_threshold(enlarged, block as int, delta as int) by {
        lemma_small_sides(picture.width as int, picture.height as int);
        law_small_planes_are_thresholded(enlarged, block, delta);
    }
}

/// The numbers that cleaning needs for a small picture.
proof fn lemma_small_sides(w: int, h: int)
    requires
        0 < w,
        0 < h,
        w * h <= 0x10_0000,
    ensures
        w <= 0x10_0000,
        h <= 0x10_0000,
        32 * w * h <= 0x200_0000,
        510 * ((2 * w) * (2 * h)) <= u32::MAX,
        4 * (2 * w + 1) * (2 * h + 1) <= 0x7fff_ffff,
{
    assert(w <= 0x10_0000 && h <= 0x10_0000) by (nonlinear_arith)
        requires
            0 < w,
            0 < h,
            w * h <= 0x10_0000,
    ;
    assert(32 * w * h == 32 * (w * h)) by (nonlinear_arith);
    assert((2 * w) * (2 * h) == 4 * (w * h)) by (nonlinear_arith);
    assert(4 * (2 * w + 1) * (2 * h + 1) == 16 * (w * h) + 8 * w + 8 * h + 4) by (nonlinear_arith);
}

/// What a cleaned file shows: the picture turned grey, its sparse columns white, at twice its
/// sides, and of its thresholded pixels what is wide. The pixels of `clean` are those of the
/// file.
pub open spec fn cleaned_to(
    grid: Grid<u8>,
    counts: Seq<u32>,
    threshold: u8,
    wiped: Grid<u8>,
    enlarged: Grid<u8>,
    settings: (u32, i32, u8, u8),
    clean: Grid<u8>,
) -> bool {
    let (block, delta, erase_k, dilate_k) = settings;
    let binary = thresholded(enlarged, block as int, delta as int);
    let sides = 2 * grid.width + 2 * grid.height;
    &&& 0 < grid.width <= counts.len()
    &&& 0 < grid.height
    &&& wiped.width == grid.width && wiped.height == grid.height
    &&& enlarged.width == 2 * grid.width && enlarged.height == 2 * grid.height
    &&& clean.width == 2 * grid.width && clean.height == 2 * grid.height
    &&& forall|x: int, y: int|
        grid.has(x, y) ==> #[trigger] wiped.at(x, y) == (if counts[x] < threshold {
            255u8
        } else {
            grid.at(x, y)
        })
    &&& forall|x: int, y: int|
        #![trigger clean.at(x, y)]
        clean.has(x, y) ==> {
            let wide = near_clear_cell(binary, x, y, erase_k as int, dilate_k as int);
            let filled = dilate_k == 255 || dilate_k >= sides;
            let emptied = erase_k == 255 || erase_k >= sides;
            clean.at(x, y) == (if filled || (!emptied && wide) {
                255u8
            } else {
                0u8
            })
        }
}

/// A cleaned file shows what is wide in the enlarged picture without its sparse columns.
pub proof fn law_cleaned_file_shows_what_is_wide(
    bytes: Seq<u8>,
    block: u32,
    delta: i32,
    erase_k: u8,
    dilate_k: u8,
    counts: Seq<u32>,
    threshold: u8,
    file: Vec<u8>,
)
    requires
        cleaning_outcome(bytes, block, delta, erase_k, dilate_k, counts, threshold, Ok(file)),
    ensures
        exists|
            picture: Picture,
            grid: Grid<u8>,
            wiped: Grid<u8>,
            enlarged: Grid<u8>,
            clean: Grid<u8>,
        |
            {
                &&& #[trigger] loads_as(bytes, picture)
                &&& #[trigger] grays_to(picture, grid)
                &&& #[trigger] scale_outcome(wiped, enlarged)
                &&& cleaned_to(
                    grid,
                    counts,
                    threshold,
                    wiped,
                    enlarged,
                    (block, delta, erase_k, dilate_k),
                    clean,
                )
                &&& #[trigger] encodes(file@, gray_picture(clean))
            },
{
    let (picture, grid, enlarged) = choose|picture: Picture, grid: Grid<u8>, enlarged: Grid<u8>|
        {
            &&& #[trigger] loads_as(bytes, picture)
            &&& #[trigger] enlarged_from(picture, grid, enlarged, counts, threshold)
            &&& can_threshold(enlarged, block as int, delta as int)
            &&& encodes(
                file@,
                gray_picture(despeckled(enlarged, block, delta, erase_k, dilate_k)),
            )
        };
    let wiped = whitened(grid, counts, threshold);
    let clean = despeckled(enlarged, block, delta, erase_k, dilate_k);
    law_wiping_whitens_sparse_columns(grid, counts, threshold);
    law_cleaning_keeps_what_is_wide(enlarged, block, delta, erase_k, dilate_k);
    assert forall|x: int, y: int| grid.has(x, y) implies #[trigger] wiped.at(x, y) == (
    if counts[x] < threshold {
        255u8
    } else {
        grid.at(x, y)
    }) by {}
    assert(cleaned_to(
        grid,
        counts,
        threshold,
        wiped,
        enlarged,
        (block, delta, erase_k, dilate_k),
        clean,
    ));
    assert(scale_outcome(wiped, enlarged));
    assert(encodes(file@, gray_picture(clean)));
}

/// Whether the block of a position can be thresholded: its size, the two corners that are added
/// for it and the threshold stay within 32 bits.
pub open spec fn block_fits(grid: Grid<u8>, block: u32, delta: i32, x: int, y: int) -> bool {
    let left = if x < block {
        0
    } else {
        x - block
    };
    let top = if y < block {
        0
    } else {
        y - block
    };
    let right = if x + block < grid.width {
        x + block + 1
    } else {
        grid.width as int
    };
    let bottom = if y + block < grid.height {
        y + block + 1
    } else {
        grid.height as int
    };
    let size = (right - left) * (bottom - top);
    &&& size <= 0xffff_ffff
    &&& block_sum(grid, 0, 0, right, bottom) + block_sum(grid, 0, 0, left, top) <= 0xffff_ffff
    &&& block_sum(grid, left, top, right, bottom) / size - delta <= 0x7fff_ffff
}

/// A plane can be thresholded exactly where its sides and the sum of its pixels stay within 31
/// and 32 bits, its buffers have an address, and every block can be thresholded.
pub proof fn law_planes_that_are_thresholded(grid: Grid<u8>, block: u32, delta: i32)
    ensures
        can_threshold(grid, block as int, delta as int) <==> {
            &&& grid.width <= 0x7fff_ffff
            &&& grid.height <= 0x7fff_ffff
            &&& 4 * ((grid.width + 1) * (grid.height + 1)) <= isize::MAX
            &&& block_sum(grid, 0, 0, grid.width as int, grid.height as int) <= 0xffff_ffff
            &&& forall|x: int, y: int|
                0 <= x < grid.width && 0 <= y < grid.height ==> #[trigger] block_fits(
                    grid,
                    block,
                    delta,
                    x,
                    y,
                )
        },
{
    let w = grid.width as int;
    let h = grid.height as int;
    let radius = block as int;
    assert(4 * (w + 1) * (h + 1) == 4 * ((w + 1) * (h + 1))) by (nonlinear_arith);
    assert forall|x: int, y: int|
        #![trigger can_threshold_at(grid, x, y, radius, delta as int)]
        #![trigger block_fits(grid, block, delta, x, y)]
        grid.has(x, y) implies can_threshold_at(grid, x, y, radius, delta as int) == block_fits(
        grid,
        block,
        delta,
        x,
        y,
    ) by {}
}

/// A picture can be enlarged exactly where it has rows and columns, its sides can be doubled,
/// there is a count for every column, and the buffers have an address.
pub proof fn law_pictures_that_are_enlarged(width: nat, height: nat, columns: nat)
    ensures
        can_enlarge(width, height, columns) <==> {
            &&& 0 < width <= columns
            &&& 0 < height
            &&& can_double(width as int)
            &&& can_double(height as int)
            &&& 32 * (width * height) <= isize::MAX
        },
{
    assert(32 * width * height == 32 * (width * height)) by (nonlinear_arith);
}

/// A file is refused for its size only where its picture cannot be enlarged, or the enlarged
/// picture without its sparse columns cannot be thresholded; it is never refused for want of a
/// file to write.
pub proof fn law_refused_cleaning(
    bytes: Seq<u8>,
    block: u32,
    delta: i32,
    reach: (u8, u8),
    counts: Seq<u32>,
    threshold: u8,
    error: DenoiseError,
)
    requires
        cleaning_outcome(bytes, block, delta, reach.0, reach.1, counts, threshold, Err(error)),
    ensures
        (match error {
            DenoiseError::Undecodable => load_outcome(bytes, None),
            DenoiseError::Geometry => {
                ||| exists|picture: Picture| #[trigger]
                    loads_as(bytes, picture) && !can_enlarge(
                        picture.width,
                        picture.height,
                        counts.len(),
                    )
                ||| exists|picture: Picture, grid: Grid<u8>, wiped: Grid<u8>, enlarged: Grid<u8>|
                    {
                        &&& #[trigger] loads_as(bytes, picture)
                        &&& #[trigger] grays_to(picture, grid)
                        &&& #[trigger] scale_outcome(wiped, enlarged)
                        &&& wiped.width == grid.width && wiped.height == grid.height
                        &&& enlarged.width == 2 * grid.width
                        &&& enlarged.height == 2 * grid.height
                        &&& forall|x: int, y: int|
                            grid.has(x, y) ==> #[trigger] wiped.at(x, y) == (if counts[x]
                                < threshold {
                                255u8
                            } else {
                                grid.at(x, y)
                            })
                        &&& !can_threshold(enlarged, block as int, delta as int)
                    }
            },
            DenoiseError::Unencodable => false,
        }),
{
    match error {
        DenoiseError::Geometry => {
            if !exists|picture: Picture| #[trigger]
                loads_as(bytes, picture) && !can_enlarge(
                    picture.width,
                    picture.height,
                    counts.len(),
                ) {
                let (picture, grid, enlarged) = choose|
                    picture: Picture,
                    grid: Grid<u8>,
                    enlarged: Grid<u8>,
                |
                    {
                        &&& #[trigger] loads_as(bytes, picture)
                        &&& #[trigger] enlarged_from(picture, grid, enlarged, counts, threshold)
                        &&& !can_threshold(enlarged, block as int, delta as int)
                    };
                let wiped = whitened(grid, counts, threshold);
                lemma_whitened(grid, counts, threshold);
                assert(grays_to(picture, grid));
                assert(scale_outcome(wiped, enlarged));
            }
        },
        _ => {},
    }
}

} // verus!
