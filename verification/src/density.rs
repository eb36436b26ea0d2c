//! Counting the dark pixels of every column and drawing the counts.

use vstd::prelude::*;
use vstd::relations::{sorted_by, total_ordering};

use crate::denoiser_app::DenoiserApp;
use crate::error::DenoiseError;
use crate::picture::{load_from_memory, rgb_to_png, to_luma8};
use crate::plane::Plane;
#[allow(unused_imports)]
use crate::picture::{
    encodes, grays_to, load_outcome, loads_as, rgb_picture, Picture,
};
#[allow(unused_imports)]
use crate::plane::{lemma_same_cells, lemma_tabulate, Grid};

verus! {

/// A pixel darker than this counts as dark.
pub const DARK_LIMIT: u8 = 200;

/// How far above the middle of the sorted counts the typical count stands.
pub const RANK_OFFSET: usize = 10;

/// The narrowest picture in which a column of that rank exists.
pub const MIN_WIDTH: u32 = 21;

pub const WHITE: [u8; 3] = [255, 255, 255];

pub const BLACK: [u8; 3] = [0, 0, 0];

pub const RED: [u8; 3] = [255, 0, 0];

pub const GREEN: [u8; 3] = [0, 255, 0];

/// The cells of column `x` from the top.
pub open spec fn column(grid: Grid<u8>, x: int) -> Seq<u8> {
    Seq::new(grid.height, |y: int| grid.at(x, y))
}

/// Which cells are dark.
pub open spec fn dark() -> spec_fn(u8) -> bool {
    |v: u8| v < DARK_LIMIT
}

/// The number of dark cells in column `x`.
pub open spec fn dark_count(grid: Grid<u8>, x: int) -> nat {
    column(grid, x).filter(dark()).len()
}

/// The number of dark cells of every column.
pub open spec fn density_map(grid: Grid<u8>) -> Seq<u32> {
    Seq::new(grid.width, |x: int| dark_count(grid, x) as u32)
}

/// The sum of column counts.
pub open spec fn count_sum(counts: Seq<u32>) -> nat
    decreases counts.len(),
{
    if counts.len() == 0 {
        0
    } else {
        count_sum(counts.drop_last()) + counts.last() as nat
    }
}

/// The largest of some column counts, zero if there are none.
pub open spec fn peak(counts: Seq<u32>) -> u32
    decreases counts.len(),
{
    if counts.len() == 0 {
        0
    } else if peak(counts.drop_last()) < counts.last() {
        counts.last()
    } else {
        peak(counts.drop_last())
    }
}

/// The order of the integers.
pub open spec fn ascending() -> spec_fn(u32, u32) -> bool {
    |a: u32, b: u32| a <= b
}

/// Half the count that stands a little above the middle of the sorted counts.
pub open spec fn typical_half(counts: Seq<u32>) -> u32 {
    counts.sort_by(ascending())[counts.len() / 2 + RANK_OFFSET] / 2
}

/// What the density picture shows in row `y` of a column with `count` dark pixels: a black
/// bar from the top, a red mark at `threshold`, and over both a green one at `user_threshold`.
pub open spec fn density_pixel(y: int, count: u32, threshold: u32, user_threshold: u8) -> [u8; 3] {
    if y == user_threshold {
        GREEN
    } else if y == threshold {
        RED
    } else if y < count {
        BLACK
    } else {
        WHITE
    }
}

/// The picture of some column counts.
pub open spec fn density_picture(
    counts: Seq<u32>,
    height: nat,
    threshold: u32,
    user_threshold: u8,
) -> Grid<[u8; 3]> {
    Grid::tabulate(
        counts.len(),
        height,
        |x: int, y: int| density_pixel(y, counts[x], threshold, user_threshold),
    )
}

/// A picture of this size can be analysed: it is wide enough, and the mark that the user set
/// lies inside it.
pub open spec fn can_analyze(width: nat, height: nat, user_threshold: u8) -> bool {
    width >= MIN_WIDTH && user_threshold < height
}

/// What the counts of a picture come to.
pub struct DensityStats {
    /// The number of dark pixels of every column.
    pub bit_map: Vec<u32>,
    /// One if any pixel is dark, zero otherwise.
    pub min_density: u32,
    /// The largest count, zero if there are fewer than two dark pixels.
    pub max_density: u32,
    /// The number of dark pixels in the whole picture.
    pub threshold_accum: u64,
}

/// What the counts of a plane come to.
pub open spec fn measures(grid: Grid<u8>, stats: DensityStats) -> bool {
    &&& stats.bit_map@ == density_map(grid)
    &&& stats.threshold_accum == count_sum(density_map(grid))
    &&& stats.min_density == (if stats.threshold_accum == 0 {
        0u32
    } else {
        1u32
    })
    &&& stats.max_density == (if stats.threshold_accum < 2 {
        0u32
    } else {
        peak(density_map(grid))
    })
}

/// The counts, the picture of them as a PNG file, the threshold, the height and the width.
pub type DensityReport = (Vec<u32>, Vec<u8>, u8, i32, i32);

/// What the analysis of a grey plane reports.
pub open spec fn reports_density(grid: Grid<u8>, user_threshold: u8, report: DensityReport) -> bool {
    let counts = density_map(grid);
    let threshold = typical_half(counts);
    let picture = rgb_picture(density_picture(counts, grid.height, threshold, user_threshold));
    &&& report.0@ == counts
    &&& encodes(report.1@, picture)
    &&& report.2 == threshold as u8
    &&& report.3 == grid.height as i32
    &&& report.4 == grid.width as i32
}

/// No column holds more dark cells than cells.
pub proof fn lemma_dark_count(grid: Grid<u8>, x: int)
    ensures
        dark_count(grid, x) <= grid.height,
{
    column(grid, x).lemma_filter_len(dark());
}

/// Every count of a picture is at most the number of its rows.
pub proof fn lemma_counts_bounded(grid: Grid<u8>)
    requires
        grid.height <= u32::MAX,
    ensures
        forall|x: int| 0 <= x < grid.width ==> #[trigger] density_map(grid)[x] <= grid.height,
{
    assert forall|x: int| 0 <= x < grid.width implies #[trigger] density_map(grid)[x]
        <= grid.height by {
        lemma_dark_count(grid, x);
    }
}

/// The order of the integers is total.
pub proof fn lemma_ascending()
    ensures
        total_ordering(ascending()),
{
}

/// Sorting keeps the length and every bound on the elements.
pub proof fn lemma_sorted_counts(counts: Seq<u32>, bound: int)
    requires
        forall|i: int| 0 <= i < counts.len() ==> #[trigger] counts[i] <= bound,
    ensures
        counts.sort_by(ascending()).len() == counts.len(),
        forall|i: int|
            0 <= i < counts.len() ==> #[trigger] counts.sort_by(ascending())[i] <= bound,
{
    broadcast use vstd::seq_lib::group_to_multiset_ensures;

    lemma_ascending();
    let sorted = counts.sort_by(ascending());
    counts.lemma_sort_by_ensures(ascending());
    assert(sorted.len() == sorted.to_multiset().len());
    assert(counts.len() == counts.to_multiset().len());
    assert forall|i: int| 0 <= i < counts.len() implies #[trigger] sorted[i] <= bound by {
        assert(sorted.contains(sorted[i]));
        assert(counts.contains(sorted[i]));
        let k = choose|k: int| 0 <= k < counts.len() && counts[k] == sorted[i];
        assert(counts[k] <= bound);
    }
}

/// Calls `slice::sort_unstable`: the same numbers in ascending order.
#[verifier::external_body]
fn sort_unstable(counts: &mut Vec<u32>)
    ensures
        sorted_by(final(counts)@, ascending()),
        final(counts)@.to_multiset() == old(counts)@.to_multiset(),
{
    counts.sort_unstable();
}

/// Counts the dark pixels of every column.
pub fn measure_density(plane: &Plane<u8>) -> (stats: DensityStats)
    requires
        plane.wf(),
    ensures
        measures(plane@, stats),
        stats.bit_map@ == density_map(plane@),
        stats.threshold_accum == count_sum(density_map(plane@)),
        stats.min_density == (if stats.threshold_accum == 0 {
            0u32
        } else {
            1u32
        }),
        stats.max_density == (if stats.threshold_accum < 2 {
            0u32
        } else {
            peak(density_map(plane@))
        }),
{
    let ghost grid = plane@;
    let mut bit_map: Vec<u32> = Vec::new();
    let mut min_density: u32 = 0;
    let mut max_density: u32 = 0;
    let mut threshold_accum: u64 = 0;
    let mut x: u32 = 0;
    while x < plane.width
        invariant
            plane.wf(),
            grid == plane@,
            x <= plane.width,
            bit_map@ == density_map(grid).take(x as int),
            threshold_accum == count_sum(bit_map@),
            threshold_accum <= x * plane.height,
            min_density == (if threshold_accum == 0 {
                0u32
            } else {
                1u32
            }),
            max_density == (if threshold_accum < 2 {
                0u32
            } else {
                peak(bit_map@)
            }),
        decreases plane.width - x,
    {
        let ghost cells = column(grid, x as int);
        let ghost done = bit_map@;
        let mut count: u32 = 0;
        let mut y: u32 = 0;
        proof {
            assert(cells.take(0).filter(dark()).len() == 0);
            lemma_peak_zero(done);
        }
        while y < plane.height
            invariant
                plane.wf(),
                grid == plane@,
                x < plane.width,
                y <= plane.height,
                cells == column(grid, x as int),
                count == cells.take(y as int).filter(dark()).len(),
                count <= y,
                done == bit_map@,
                threshold_accum == count_sum(done),
                threshold_accum == 0 ==> peak(done) == 0,
                threshold_accum == 1 ==> peak(done) == 1,
                min_density == (if threshold_accum + count == 0 {
                    0u32
                } else {
                    1u32
                }),
                max_density == (if threshold_accum + count < 2 {
                    0u32
                } else if peak(done) < count {
                    count
                } else {
                    peak(done)
                }),
            decreases plane.height - y,
        {
            let value = plane.get(x, y);
            proof {
                reveal(Seq::filter);
                assert(cells.take(y + 1).drop_last() =~= cells.take(y as int));
                assert(cells.take(y + 1).last() == value);
            }
            if value < DARK_LIMIT {
                count += 1;
                if min_density == 0 {
                    min_density = count;
                } else if count < min_density {
                    min_density = count;
                } else if count > max_density {
                    max_density = count;
                }
            }
            y += 1;
        }
        proof {
            assert(cells.take(plane.height as int) =~= cells);
            assert(x * plane.height + plane.height == (x + 1) * plane.height)
                by (nonlinear_arith);
            assert((x + 1) * plane.height <= u32::MAX * u32::MAX) by (nonlinear_arith)
                requires
                    0 <= x < u32::MAX,
                    0 <= plane.height <= u32::MAX,
            ;
        }
        threshold_accum += count as u64;
        bit_map.push(count);
        proof {
            assert(bit_map@.drop_last() =~= done);
            assert(bit_map@ =~= density_map(grid).take(x + 1));
        }
        x += 1;
    }
    proof {
        assert(density_map(grid).take(grid.width as int) =~= density_map(grid));
    }
    DensityStats { bit_map, min_density, max_density, threshold_accum }
}

/// Half the count that stands a little above the middle of the sorted counts.
pub fn density_threshold(counts: &Vec<u32>) -> (threshold: u32)
    requires
        counts@.len() >= MIN_WIDTH,
    ensures
        threshold == typical_half(counts@),
{
    let mut sorted: Vec<u32> = counts.clone();
    assert(sorted@ =~= counts@);
    sort_unstable(&mut sorted);
    proof {
        lemma_ascending();
        counts@.lemma_sort_by_ensures(ascending());
        vstd::seq_lib::lemma_sorted_unique(
            sorted@,
            counts@.sort_by(ascending()),
            ascending(),
        );
        lemma_sorted_counts(counts@, u32::MAX as int);
    }
    sorted[sorted.len() / 2 + RANK_OFFSET] / 2
}

/// Draws the counts as black bars from the top, with a red and a green mark in every column.
pub fn draw_density(
    counts: &Vec<u32>,
    height: u32,
    threshold: u32,
    user_threshold: u8,
) -> (plane: Plane<[u8; 3]>)
    requires
        counts@.len() <= u32::MAX,
        counts@.len() * height <= usize::MAX,
        forall|x: int| 0 <= x < counts@.len() ==> #[trigger] counts@[x] <= height,
        threshold < height,
        user_threshold < height,
    ensures
        plane.wf(),
        plane@ == density_picture(counts@, height as nat, threshold, user_threshold),
{
    let width: u32 = counts.len() as u32;
    let mut plane = Plane::filled(width, height, WHITE);
    let mut x: u32 = 0;
    while x < width
        invariant
            plane.wf(),
            plane.width == width,
            plane.height == height,
            x <= width,
            width == counts@.len(),
            forall|i: int| 0 <= i < counts@.len() ==> #[trigger] counts@[i] <= height,
            threshold < height,
            user_threshold < height,
            forall|i: int, j: int|
                plane@.has(i, j) ==> #[trigger] plane@.at(i, j) == (if i < x {
                    density_pixel(j, counts@[i], threshold, user_threshold)
                } else {
                    WHITE
                }),
        decreases width - x,
    {
        let max_y: u32 = counts[x as usize];
        let mut y: u32 = 0;
        while y < max_y
            invariant
                plane.wf(),
                plane.width == width,
                plane.height == height,
                x < width,
                width == counts@.len(),
                y <= max_y,
                max_y == counts@[x as int],
                max_y <= height,
                forall|i: int, j: int|
                    plane@.has(i, j) ==> #[trigger] plane@.at(i, j) == (if i < x {
                        density_pixel(j, counts@[i], threshold, user_threshold)
                    } else if i == x && j < y {
                        BLACK
                    } else {
                        WHITE
                    }),
            decreases max_y - y,
        {
            plane.put(x, y, BLACK);
            y += 1;
        }
        plane.put(x, threshold, RED);
        plane.put(x, user_threshold as u32, GREEN);
        x += 1;
    }
    proof {
        lemma_tabulate(
            counts@.len(),
            height as nat,
            |i: int, j: int| density_pixel(j, counts@[i], threshold, user_threshold),
        );
        lemma_same_cells(
            plane@,
            density_picture(counts@, height as nat, threshold, user_threshold),
        );
    }
    plane
}

/// Analyses a grey plane: the counts, the picture of them, and where the typical half lies.
pub fn report_density(plane: &Plane<u8>, user_threshold: u8) -> (report: DensityReport)
    requires
        plane.wf(),
        can_analyze(plane@.width, plane@.height, user_threshold),
    ensures
        reports_density(plane@, user_threshold, report),
{
    let stats = measure_density(plane);
    let threshold = density_threshold(&stats.bit_map);
    proof {
        lemma_counts_bounded(plane@);
        lemma_sorted_counts(density_map(plane@), plane.height as int);
        assert(plane.pixels.len() == plane.width * plane.height);
    }
    let picture = draw_density(&stats.bit_map, plane.height, threshold, user_threshold);
    let file = rgb_to_png(&picture).unwrap();
    (
        stats.bit_map,
        file,
        #[verifier::truncate] (threshold as u8),
        #[verifier::truncate] (plane.height as i32),
        #[verifier::truncate] (plane.width as i32),
    )
}

/// What the analysis of a file may come to.
pub open spec fn analysis_outcome(
    bytes: Seq<u8>,
    user_threshold: u8,
    outcome: Result<DensityReport, DenoiseError>,
) -> bool {
    match outcome {
        Ok(report) => exists|picture: Picture, grid: Grid<u8>| #[trigger]
            loads_as(bytes, picture) && #[trigger] grays_to(picture, grid)
                && can_analyze(grid.width, grid.height, user_threshold) && reports_density(
                grid,
                user_threshold,
                report,
            ),
        Err(DenoiseError::Undecodable) => load_outcome(bytes, None),
        Err(DenoiseError::Geometry) => exists|picture: Picture| #[trigger]
            loads_as(bytes, picture) && !can_analyze(
                picture.width,
                picture.height,
                user_threshold,
            ),
        Err(DenoiseError::Unencodable) => false,
    }
}

impl DenoiserApp {
    /// Analyses a picture file: how many dark pixels every column has, a picture of the
    /// counts as a PNG file, half the typical count, the height and the width.
    ///
    /// There is no report for a file that cannot be decoded, for a picture narrower than
    /// [`MIN_WIDTH`], or for a mark below the last row.
    pub fn analyze_density(raw_bytes: &[u8], user_threshold: u8) -> (outcome: Result<
        DensityReport,
        DenoiseError,
    >)
        ensures
            analysis_outcome(raw_bytes@, user_threshold, outcome),
    {
        let image = match load_from_memory(raw_bytes) {
            Ok(image) => image,
            Err(_) => {
                return Err(DenoiseError::Undecodable);
            },
        };
        let plane = to_luma8(&image);
        if plane.width < MIN_WIDTH || user_threshold as u32 >= plane.height {
            return Err(DenoiseError::Geometry);
        }
        Ok(report_density(&plane, user_threshold))
    }
}

/// No count is above zero where their sum is zero, and none above one where it is one.
proof fn lemma_peak_zero(counts: Seq<u32>)
    ensures
        count_sum(counts) == 0 ==> peak(counts) == 0,
        count_sum(counts) == 1 ==> peak(counts) == 1,
    decreases counts.len(),
{
    if counts.len() > 0 {
        lemma_peak_zero(counts.drop_last());
    }
}

} // verus!
