//! What holds of the density analysis.

use vstd::prelude::*;

use crate::density::{
    analysis_outcome, ascending, can_analyze, column, count_sum, dark, density_map,
    density_picture, density_pixel, lemma_ascending, lemma_counts_bounded, lemma_dark_count,
    lemma_sorted_counts, measures, peak, reports_density, typical_half, DensityReport,
    DensityStats,
};
use crate::error::DenoiseError;
use crate::picture::{
    encodes, gray_picture, grays_to, load_outcome, loads_as, reads_back, rgb_picture, Picture,
};
use crate::plane::{lemma_tabulate, Grid};

verus! {

/// The largest count is a count, and no count is above it.
pub proof fn law_peak_is_largest(counts: Seq<u32>)
    ensures
        forall|i: int| 0 <= i < counts.len() ==> #[trigger] counts[i] <= peak(counts),
        counts.len() > 0 ==> counts.contains(peak(counts)),
    decreases counts.len(),
{
    if counts.len() > 0 {
        let rest = counts.drop_last();
        law_peak_is_largest(rest);
        assert forall|i: int| 0 <= i < counts.len() implies #[trigger] counts[i] <= peak(counts) by {
            if i < rest.len() {
                assert(rest[i] <= peak(rest));
            }
        }
        if peak(rest) < counts.last() {
            assert(counts[counts.len() - 1] == peak(counts));
        } else if rest.len() > 0 {
            let k = choose|k: int| 0 <= k < rest.len() && rest[k] == peak(rest);
            assert(counts[k] == peak(counts));
        } else {
            assert(counts[counts.len() - 1] == peak(counts));
        }
    }
}

/// No column has more dark pixels than rows, and the mark of the typical half lies in the
/// upper half of the density picture.
pub proof fn law_threshold_inside_picture(grid: Grid<u8>, user_threshold: u8)
    requires
        grid.wf(),
        grid.height <= u32::MAX,
        can_analyze(grid.width, grid.height, user_threshold),
    ensures
        forall|x: int| 0 <= x < grid.width ==> #[trigger] density_map(grid)[x] <= grid.height,
        typical_half(density_map(grid)) <= grid.height / 2,
        typical_half(density_map(grid)) < grid.height,
{
    lemma_counts_bounded(grid);
    lemma_sorted_counts(density_map(grid), grid.height as int);
}

/// Two reports on one plane that differ in the mark of the user agree in the counts, the
/// threshold and the size, and their pictures agree outside the rows of the two marks.
pub proof fn law_mark_changes_only_its_row(
    grid: Grid<u8>,
    mark1: u8,
    mark2: u8,
    report1: DensityReport,
    report2: DensityReport,
)
    requires
        reports_density(grid, mark1, report1),
        reports_density(grid, mark2, report2),
    ensures
        report1.0@ == report2.0@,
        report1.2 == report2.2,
        report1.3 == report2.3,
        report1.4 == report2.4,
        ({
            let counts = report1.0@;
            let half = typical_half(counts);
            let shown1 = density_picture(counts, grid.height, half, mark1);
            let shown2 = density_picture(counts, grid.height, half, mark2);
            &&& encodes(report1.1@, rgb_picture(shown1))
            &&& encodes(report2.1@, rgb_picture(shown2))
            &&& forall|x: int, y: int|
                grid.has(x, y) && y != mark1 && y != mark2 ==> #[trigger] shown1.at(x, y)
                    == shown2.at(x, y)
        }),
{
    let counts = report1.0@;
    let half = typical_half(counts);
    lemma_tabulate(
        counts.len(),
        grid.height,
        |x: int, y: int| density_pixel(y, counts[x], half, mark1),
    );
    lemma_tabulate(
        counts.len(),
        grid.height,
        |x: int, y: int| density_pixel(y, counts[x], half, mark2),
    );
    assert(counts.len() == grid.width);
}

/// Whether `order` names every column up to, not with, `count` exactly once.
pub open spec fn permutes(order: Seq<int>, count: nat) -> bool {
    &&& order.len() == count
    &&& forall|i: int| 0 <= i < count ==> 0 <= #[trigger] order[i] < count
    &&& forall|i: int, j: int|
        0 <= i < j < count ==> #[trigger] order[i] != #[trigger] order[j]
}

/// The values of a sequence in another order.
pub open spec fn reordered<T>(values: Seq<T>, order: Seq<int>) -> Seq<T> {
    Seq::new(order.len(), |i: int| values[order[i]])
}

/// Another order keeps how often every value occurs.
proof fn lemma_reordered<T>(values: Seq<T>, order: Seq<int>)
    requires
        permutes(order, values.len()),
    ensures
        reordered(values, order).to_multiset() == values.to_multiset(),
    decreases values.len(),
{
    broadcast use vstd::seq_lib::group_to_multiset_ensures;

    let mixed = reordered(values, order);
    if values.len() == 0 {
        assert(mixed =~= values);
    } else {
        let n = values.len() - 1;
        let k = order[n];
        let fewer = values.remove(k);
        let shifted = Seq::new(
            n as nat,
            |i: int|
                if order[i] > k {
                    order[i] - 1
                } else {
                    order[i]
                },
        );
        assert forall|i: int| 0 <= i < n implies 0 <= #[trigger] shifted[i] < n by {
            assert(order[i] != order[n]);
        }
        assert forall|i: int, j: int| 0 <= i < j < n implies #[trigger] shifted[i]
            != #[trigger] shifted[j] by {
            assert(order[i] != order[j]);
            assert(order[i] != order[n]);
            assert(order[j] != order[n]);
        }
        lemma_reordered(fewer, shifted);
        assert forall|i: int| 0 <= i < n implies mixed[i] == reordered(fewer, shifted)[i] by {
            assert(order[i] != order[n]);
        }
        assert(mixed =~= reordered(fewer, shifted).push(values[k]));
        assert(values.contains(values[k]));
        assert(values.to_multiset().count(values[k]) > 0);
        assert(fewer.to_multiset().insert(values[k]) =~= values.to_multiset());
    }
}

/// The typical half depends on the counts alone, not on their order.
proof fn lemma_typical_half(a: Seq<u32>, b: Seq<u32>)
    requires
        a.to_multiset() == b.to_multiset(),
    ensures
        typical_half(a) == typical_half(b),
{
    broadcast use vstd::seq_lib::group_to_multiset_ensures;

    lemma_ascending();
    a.lemma_sort_by_ensures(ascending());
    b.lemma_sort_by_ensures(ascending());
    vstd::seq_lib::lemma_sorted_unique(
        a.sort_by(ascending()),
        b.sort_by(ascending()),
        ascending(),
    );
    assert(a.len() == a.to_multiset().len());
    assert(b.len() == b.to_multiset().len());
}

/// Where the columns of a picture are put in another order, the counts take that order, and
/// the threshold and the size stay as they were.
pub proof fn law_columns_carry_their_counts(
    grid: Grid<u8>,
    mixed: Grid<u8>,
    order: Seq<int>,
    user_threshold: u8,
    report: DensityReport,
    mixed_report: DensityReport,
)
    requires
        mixed.width == grid.width,
        mixed.height == grid.height,
        permutes(order, grid.width),
        forall|x: int, y: int|
            grid.has(x, y) ==> #[trigger] mixed.at(x, y) == grid.at(order[x], y),
        reports_density(grid, user_threshold, report),
        reports_density(mixed, user_threshold, mixed_report),
    ensures
        mixed_report.0@ == reordered(report.0@, order),
        mixed_report.2 == report.2,
        mixed_report.3 == report.3,
        mixed_report.4 == report.4,
{
    let counts = density_map(grid);
    let mixed_counts = density_map(mixed);
    assert forall|x: int| 0 <= x < grid.width implies mixed_counts[x] == reordered(
        counts,
        order,
    )[x] by {
        assert forall|y: int| 0 <= y < grid.height implies column(mixed, x)[y] == column(
            grid,
            order[x],
        )[y] by {
            assert(mixed.at(x, y) == grid.at(order[x], y));
        }
        assert(column(mixed, x) =~= column(grid, order[x]));
    }
    assert(mixed_counts =~= reordered(counts, order));
    lemma_reordered(counts, order);
    lemma_typical_half(counts, mixed_counts);
}

/// How many values of a sequence pass a test depends on the values alone, not on their order.
proof fn lemma_filter_len<T>(a: Seq<T>, b: Seq<T>, test: spec_fn(T) -> bool)
    requires
        a.to_multiset() == b.to_multiset(),
    ensures
        a.filter(test).len() == b.filter(test).len(),
    decreases a.len(),
{
    broadcast use vstd::seq_lib::group_to_multiset_ensures;

    assert(a.len() == a.to_multiset().len());
    assert(b.len() == b.to_multiset().len());
    reveal(Seq::filter);
    if a.len() > 0 {
        let n = a.len() - 1;
        let e = a[n];
        assert(a.contains(e));
        assert(a.to_multiset().count(e) > 0);
        assert(b.to_multiset().count(e) > 0);
        assert(b.contains(e));
        let k = choose|k: int| 0 <= k < b.len() && b[k] == e;
        assert(a.remove(n) =~= a.drop_last());
        assert(a.drop_last().to_multiset() == b.remove(k).to_multiset());
        lemma_filter_len(a.drop_last(), b.remove(k), test);
        let front = b.take(k);
        let back = b.skip(k + 1);
        assert(b =~= front + seq![e] + back);
        assert(b.remove(k) =~= front + back);
        Seq::filter_distributes_over_add(front + seq![e], back, test);
        Seq::filter_distributes_over_add(front, seq![e], test);
        Seq::filter_distributes_over_add(front, back, test);
        assert(seq![e].drop_last() =~= Seq::<T>::empty());
        assert(seq![e].drop_last().filter(test).len() == 0);
        assert(seq![e].filter(test).len() == (if test(e) {
            1int
        } else {
            0int
        }));
    }
}

/// The order of the pixels inside a column does not matter to a report.
pub proof fn law_order_inside_columns_is_ignored(
    grid: Grid<u8>,
    mixed: Grid<u8>,
    user_threshold: u8,
    report: DensityReport,
)
    requires
        mixed.width == grid.width,
        mixed.height == grid.height,
        forall|x: int|
            0 <= x < grid.width ==> #[trigger] column(mixed, x).to_multiset() == column(
                grid,
                x,
            ).to_multiset(),
    ensures
        density_map(mixed) == density_map(grid),
        reports_density(mixed, user_threshold, report) == reports_density(
            grid,
            user_threshold,
            report,
        ),
{
    assert forall|x: int| 0 <= x < grid.width implies density_map(mixed)[x] == density_map(
        grid,
    )[x] by {
        assert(column(mixed, x).to_multiset() == column(grid, x).to_multiset());
        lemma_filter_len(column(mixed, x), column(grid, x), dark());
    }
    assert(density_map(mixed) =~= density_map(grid));
}

/// A grey picture shows one plane only.
pub proof fn lemma_gray_plane(a: Grid<u8>, b: Grid<u8>)
    requires
        gray_picture(a) == gray_picture(b),
    ensures
        a == b,
{
    let p = gray_picture(a);
    let q = gray_picture(b);
    assert(p.samples.len() == a.cells.len() && q.samples.len() == b.cells.len());
    assert forall|i: int| 0 <= i < a.cells.len() implies a.cells[i] == b.cells[i] by {
        assert(p.samples[i] == a.cells[i] as u32);
        assert(q.samples[i] == b.cells[i] as u32);
    }
    assert(a.cells =~= b.cells);
}

/// What analysing the file of a grey plane reports is the density of the plane itself, and
/// there is a report exactly where the size suits.
pub proof fn law_written_plane_is_analysed(
    grid: Grid<u8>,
    file: Seq<u8>,
    user_threshold: u8,
    outcome: Result<DensityReport, DenoiseError>,
)
    requires
        grid.wf(),
        reads_back(file, gray_picture(grid)),
        analysis_outcome(file, user_threshold, outcome),
    ensures
        (match outcome {
            Ok(report) => can_analyze(grid.width, grid.height, user_threshold) && reports_density(
                grid,
                user_threshold,
                report,
            ),
            Err(error) => error is Geometry && !can_analyze(
                grid.width,
                grid.height,
                user_threshold,
            ),
        }),
{
    let shown = gray_picture(grid);
    assert(shown.exact());
    match outcome {
        Ok(report) => {
            let (picture, plane) = choose|picture: Picture, plane: Grid<u8>| #[trigger]
                loads_as(file, picture) && #[trigger] grays_to(picture, plane) && can_analyze(
                    plane.width,
                    plane.height,
                    user_threshold,
                ) && reports_density(plane, user_threshold, report);
            assert(Some(picture) == Some(shown));
            lemma_gray_plane(plane, grid);
        },
        Err(error) => {
            assert(!load_outcome(file, None));
            assert(forall|picture: Picture| #[trigger]
                loads_as(file, picture) ==> Some(picture) == Some(shown));
        },
    }
}

/// Two analyses of the file of a grey plane that differ in the mark of the user agree in the
/// counts, the threshold and the size, and their pictures agree outside the rows of the two
/// marks.
pub proof fn law_mark_changes_only_its_row_of_a_file(
    grid: Grid<u8>,
    file: Seq<u8>,
    mark1: u8,
    mark2: u8,
    report1: DensityReport,
    report2: DensityReport,
)
    requires
        grid.wf(),
        reads_back(file, gray_picture(grid)),
        analysis_outcome(file, mark1, Ok(report1)),
        analysis_outcome(file, mark2, Ok(report2)),
    ensures
        report1.0@ == report2.0@,
        report1.2 == report2.2,
        report1.3 == report2.3,
        report1.4 == report2.4,
        ({
            let counts = report1.0@;
            let half = typical_half(counts);
            let shown1 = density_picture(counts, grid.height, half, mark1);
            let shown2 = density_picture(counts, grid.height, half, mark2);
            &&& encodes(report1.1@, rgb_picture(shown1))
            &&& encodes(report2.1@, rgb_picture(shown2))
            &&& forall|x: int, y: int|
                grid.has(x, y) && y != mark1 && y != mark2 ==> #[trigger] shown1.at(x, y)
                    == shown2.at(x, y)
        }),
{
    law_written_plane_is_analysed(grid, file, mark1, Ok(report1));
    law_written_plane_is_analysed(grid, file, mark2, Ok(report2));
    law_mark_changes_only_its_row(grid, mark1, mark2, report1, report2);
}

/// Whatever a file may be reported as with one mark, it may be reported as with any other mark
/// inside the picture: with the same counts, threshold and size, and a picture that differs
/// in the rows of the two marks only.
pub proof fn law_mark_changes_only_its_row_of_any_file(
    bytes: Seq<u8>,
    mark1: u8,
    mark2: u8,
    report1: DensityReport,
    report2: DensityReport,
)
    requires
        analysis_outcome(bytes, mark1, Ok(report1)),
        mark2 < report1.3,
        report2.0@ == report1.0@,
        report2.2 == report1.2,
        report2.3 == report1.3,
        report2.4 == report1.4,
        encodes(
            report2.1@,
            rgb_picture(
                density_picture(
                    report1.0@,
                    report1.3 as nat,
                    typical_half(report1.0@),
                    mark2,
                ),
            ),
        ),
    ensures
        analysis_outcome(bytes, mark2, Ok(report2)),
{
    let (picture, grid) = choose|picture: Picture, grid: Grid<u8>| #[trigger]
        loads_as(bytes, picture) && #[trigger] grays_to(picture, grid) && can_analyze(
            grid.width,
            grid.height,
            mark1,
        ) && reports_density(grid, mark1, report1);
    let w = picture.width as int;
    let h = picture.height as int;
    let b = picture.kind.bytes() as int;
    assert(h <= w * h * b) by (nonlinear_arith)
        requires
            1 <= w,
            0 <= h,
            1 <= b,
    ;
    assert(report1.3 == grid.height);
    assert(reports_density(grid, mark2, report2));
}

/// Where the file of a grey plane shows the columns of another in another order, the counts
/// take that order, and the threshold and the size stay as they were.
pub proof fn law_columns_of_files_carry_their_counts(
    grid: Grid<u8>,
    mixed: Grid<u8>,
    order: Seq<int>,
    file: Seq<u8>,
    mixed_file: Seq<u8>,
    user_threshold: u8,
    report: DensityReport,
    mixed_report: DensityReport,
)
    requires
        grid.wf(),
        mixed.wf(),
        mixed.width == grid.width,
        mixed.height == grid.height,
        permutes(order, grid.width),
        forall|x: int, y: int|
            grid.has(x, y) ==> #[trigger] mixed.at(x, y) == grid.at(order[x], y),
        reads_back(file, gray_picture(grid)),
        reads_back(mixed_file, gray_picture(mixed)),
        analysis_outcome(file, user_threshold, Ok(report)),
        analysis_outcome(mixed_file, user_threshold, Ok(mixed_report)),
    ensures
        mixed_report.0@ == reordered(report.0@, order),
        mixed_report.2 == report.2,
        mixed_report.3 == report.3,
        mixed_report.4 == report.4,
{
    law_written_plane_is_analysed(grid, file, user_threshold, Ok(report));
    law_written_plane_is_analysed(mixed, mixed_file, user_threshold, Ok(mixed_report));
    law_columns_carry_their_counts(grid, mixed, order, user_threshold, report, mixed_report);
}

/// The rows of column `x` whose pixel is darker than 200.
pub open spec fn dark_rows(grid: Grid<u8>, x: int) -> Set<int> {
    Set::new(|y: int| 0 <= y < grid.height && grid.at(x, y) < 200)
}

/// The indices at which a value passes a test are as many as the values that pass it.
proof fn lemma_filter_counts<T>(values: Seq<T>, test: spec_fn(T) -> bool)
    ensures
        Set::new(|i: int| 0 <= i < values.len() && test(values[i])).finite(),
        values.filter(test).len() == Set::new(
            |i: int| 0 <= i < values.len() && test(values[i]),
        ).len(),
    decreases values.len(),
{
    reveal(Seq::filter);
    let found = Set::new(|i: int| 0 <= i < values.len() && test(values[i]));
    if values.len() == 0 {
        assert(found =~= Set::empty());
    } else {
        let rest = values.drop_last();
        let n = values.len() - 1;
        let before = Set::new(|i: int| 0 <= i < rest.len() && test(rest[i]));
        lemma_filter_counts(rest, test);
        assert(!before.contains(n));
        if test(values[n]) {
            assert(found =~= before.insert(n));
        } else {
            assert(found =~= before);
        }
    }
}

/// The dark cells of a column are as many as its dark rows.
proof fn lemma_dark_rows(grid: Grid<u8>, x: int)
    requires
        grid.height <= u32::MAX,
        0 <= x < grid.width,
    ensures
        dark_rows(grid, x).finite(),
        density_map(grid)[x] == dark_rows(grid, x).len(),
{
    let cells = column(grid, x);
    let found = Set::new(|i: int| 0 <= i < cells.len() && dark()(cells[i]));
    lemma_filter_counts(cells, dark());
    lemma_dark_count(grid, x);
    assert(found =~= dark_rows(grid, x));
}

/// The count of every column is the number of its rows that are darker than 200, and there is
/// one count for every column.
pub proof fn law_counts_are_the_dark_rows(grid: Grid<u8>)
    requires
        grid.height <= u32::MAX,
    ensures
        density_map(grid).len() == grid.width,
        forall|x: int|
            0 <= x < grid.width ==> #[trigger] density_map(grid)[x] == dark_rows(grid, x).len(),
        forall|x: int| 0 <= x < grid.width ==> #[trigger] dark_rows(grid, x).finite(),
{
    assert forall|x: int| 0 <= x < grid.width implies #[trigger] density_map(grid)[x]
        == dark_rows(grid, x).len() by {
        lemma_dark_rows(grid, x);
    }
    assert forall|x: int| 0 <= x < grid.width implies #[trigger] dark_rows(grid, x).finite() by {
        lemma_dark_rows(grid, x);
    }
}

/// A test that every value passes leaves all values.
proof fn lemma_all_pass<T>(values: Seq<T>, test: spec_fn(T) -> bool)
    requires
        forall|i: int| 0 <= i < values.len() ==> test(#[trigger] values[i]),
    ensures
        values.filter(test).len() == values.len(),
    decreases values.len(),
{
    reveal(Seq::filter);
    if values.len() > 0 {
        let rest = values.drop_last();
        assert forall|i: int| 0 <= i < rest.len() implies test(#[trigger] rest[i]) by {
            assert(test(values[i]));
        }
        lemma_all_pass(rest, test);
        assert(test(values[values.len() - 1]));
    }
}

/// How many columns count no more than `count`.
pub open spec fn columns_up_to(counts: Seq<u32>, count: u32) -> nat {
    counts.filter(|c: u32| c <= count).len()
}

/// How many columns count no less than `count`.
pub open spec fn columns_from(counts: Seq<u32>, count: u32) -> nat {
    counts.filter(|c: u32| c >= count).len()
}

/// Whether a count stands ten ranks above the middle: it is the count of a column, enough
/// columns count no more, and enough count no less.
pub open spec fn has_upper_rank(counts: Seq<u32>, count: u32) -> bool {
    &&& counts.contains(count)
    &&& columns_up_to(counts, count) >= counts.len() / 2 + 11
    &&& columns_from(counts, count) >= counts.len() - counts.len() / 2 - 10
}

/// The threshold is half of the count that stands ten ranks above the middle.
pub proof fn law_threshold_is_half_of_a_ranked_count(counts: Seq<u32>)
    requires
        counts.len() >= 21,
    ensures
        exists|count: u32| #[trigger]
            has_upper_rank(counts, count) && typical_half(counts) == count / 2,
{
    broadcast use vstd::seq_lib::group_to_multiset_ensures;

    lemma_ascending();
    let sorted = counts.sort_by(ascending());
    counts.lemma_sort_by_ensures(ascending());
    assert(sorted.len() == sorted.to_multiset().len());
    assert(counts.len() == counts.to_multiset().len());
    let rank = (counts.len() / 2 + 10) as int;
    let count = sorted[rank];
    let low = |c: u32| c <= count;
    let high = |c: u32| c >= count;
    assert(sorted.contains(count));
    assert(sorted.to_multiset().count(count) > 0);
    assert(counts.to_multiset().count(count) > 0);
    lemma_filter_len(counts, sorted, low);
    lemma_filter_len(counts, sorted, high);
    let front = sorted.take(rank + 1);
    let behind = sorted.skip(rank + 1);
    let below = sorted.take(rank);
    let back = sorted.skip(rank);
    assert forall|i: int| 0 <= i < front.len() implies low(#[trigger] front[i]) by {
        if i < rank {
            assert(ascending()(sorted[i], sorted[rank]));
        }
    }
    assert forall|i: int| 0 <= i < back.len() implies high(#[trigger] back[i]) by {
        if i > 0 {
            assert(ascending()(sorted[rank], sorted[rank + i]));
        }
    }
    lemma_all_pass(front, low);
    lemma_all_pass(back, high);
    assert(sorted =~= front + behind);
    assert(sorted =~= below + back);
    Seq::filter_distributes_over_add(front, behind, low);
    Seq::filter_distributes_over_add(below, back, high);
    assert(has_upper_rank(counts, count));
}

/// No two counts of different size stand ten ranks above the middle: the rank decides the
/// count.
pub proof fn law_rank_decides_the_count(counts: Seq<u32>, a: u32, b: u32)
    requires
        counts.len() >= 21,
        has_upper_rank(counts, a),
        has_upper_rank(counts, b),
    ensures
        a == b,
{
    if a < b {
        lemma_ranks_apart(counts, a, b);
    }
    if b < a {
        lemma_ranks_apart(counts, b, a);
    }
}

/// No column counts at most the smaller and at least the larger of two counts.
proof fn lemma_ranks_apart(counts: Seq<u32>, a: u32, b: u32)
    requires
        a < b,
    ensures
        columns_up_to(counts, a) + columns_from(counts, b) <= counts.len(),
    decreases counts.len(),
{
    reveal(Seq::filter);
    if counts.len() > 0 {
        lemma_ranks_apart(counts.drop_last(), a, b);
    }
}

/// The sum of some counts is the sum of its parts, and one count sums up to itself.
pub proof fn law_counts_add_up(a: Seq<u32>, b: Seq<u32>, count: u32)
    ensures
        count_sum(a + b) == count_sum(a) + count_sum(b),
        count_sum(seq![count]) == count,
        count_sum(Seq::empty()) == 0,
    decreases b.len(),
{
    reveal_with_fuel(count_sum, 2);
    assert(seq![count].drop_last() =~= Seq::<u32>::empty());
    if b.len() == 0 {
        assert(a + b =~= a);
    } else {
        law_counts_add_up(a, b.drop_last(), count);
        assert((a + b).drop_last() =~= a + b.drop_last());
    }
}

/// The density picture has a column for every count and the rows of the picture. The row of
/// the mark is green, that of the threshold red where it is not green, and of the others so
/// many are black from the top as the column counts, and the rest are white.
pub proof fn law_density_picture_shows_the_counts(
    counts: Seq<u32>,
    height: nat,
    threshold: u32,
    mark: u8,
)
    ensures
        ({
            let shown = density_picture(counts, height, threshold, mark);
            &&& shown.wf()
            &&& shown.width == counts.len()
            &&& shown.height == height
            &&& forall|x: int, y: int| #![trigger shown.at(x, y)]
                0 <= x < counts.len() && 0 <= y < height ==> {
                    &&& y == mark ==> shown.at(x, y) == [0u8, 255, 0]
                    &&& y == threshold && y != mark ==> shown.at(x, y) == [255u8, 0, 0]
                    &&& y != mark && y != threshold && y < counts[x] ==> shown.at(x, y) == [
                        0u8,
                        0,
                        0,
                    ]
                    &&& y != mark && y != threshold && y >= counts[x] ==> shown.at(x, y) == [
                        255u8,
                        255,
                        255,
                    ]
                }
        }),
{
    lemma_tabulate(
        counts.len(),
        height,
        |x: int, y: int| density_pixel(y, counts[x], threshold, mark),
    );
}

/// What a report says of a plane: its counts are the numbers of rows darker than 200, its
/// threshold is half of the count that stands ten ranks above the middle, cut to eight bits,
/// and its picture shows both.
pub open spec fn describes(grid: Grid<u8>, mark: u8, report: DensityReport) -> bool {
    &&& report.0@.len() == grid.width
    &&& forall|x: int| #![trigger report.0@[x]]
        0 <= x < grid.width ==> report.0@[x] == dark_rows(grid, x).len()
    &&& report.3 == grid.height
    &&& report.4 == grid.width
    &&& exists|count: u32, shown: Grid<[u8; 3]>|
        {
            &&& #[trigger] has_upper_rank(report.0@, count)
            &&& #[trigger] encodes(report.1@, rgb_picture(shown))
            &&& report.2 == (count / 2) % 256
            &&& shown.wf()
            &&& shown.width == grid.width
            &&& shown.height == grid.height
            &&& forall|x: int, y: int| #![trigger shown.at(x, y)]
                grid.has(x, y) ==> shown.at(x, y) == (if y == mark {
                    [0u8, 255, 0]
                } else if y == count / 2 {
                    [255u8, 0, 0]
                } else if y < report.0@[x] {
                    [0u8, 0, 0]
                } else {
                    [255u8, 255, 255]
                })
        }
}

/// A report describes the plane that it is about.
pub proof fn law_report_describes_the_plane(grid: Grid<u8>, mark: u8, report: DensityReport)
    requires
        21 <= grid.width <= i32::MAX,
        grid.height <= i32::MAX,
        reports_density(grid, mark, report),
    ensures
        describes(grid, mark, report),
{
    law_counts_are_the_dark_rows(grid);
    let counts = density_map(grid);
    law_threshold_is_half_of_a_ranked_count(counts);
    let count = choose|count: u32| #[trigger]
        has_upper_rank(counts, count) && typical_half(counts) == count / 2;
    let half = typical_half(counts);
    let shown = density_picture(counts, grid.height, half, mark);
    law_density_picture_shows_the_counts(counts, grid.height, half, mark);
    assert(half as u8 == half % 256) by (bit_vector);
    assert(has_upper_rank(report.0@, count));
    assert(encodes(report.1@, rgb_picture(shown)));
}

/// The report on a file describes what the file may turn grey as. There is none exactly where
/// the file cannot be decoded, the picture has fewer than 21 columns, or the mark lies below
/// its last row.
pub proof fn law_analysis_describes_the_file(
    bytes: Seq<u8>,
    mark: u8,
    outcome: Result<DensityReport, DenoiseError>,
)
    requires
        analysis_outcome(bytes, mark, outcome),
    ensures
        (match outcome {
            Ok(report) => exists|picture: Picture, grid: Grid<u8>|
                {
                    &&& #[trigger] loads_as(bytes, picture)
                    &&& #[trigger] grays_to(picture, grid)
                    &&& grid.width >= 21
                    &&& mark < grid.height
                    &&& describes(grid, mark, report)
                },
            Err(DenoiseError::Undecodable) => load_outcome(bytes, None),
            Err(DenoiseError::Geometry) => exists|picture: Picture| #[trigger]
                loads_as(bytes, picture) && (picture.width < 21 || mark >= picture.height),
            Err(DenoiseError::Unencodable) => false,
        }),
{
    match outcome {
        Ok(report) => {
            let (picture, grid) = choose|picture: Picture, grid: Grid<u8>| #[trigger]
                loads_as(bytes, picture) && #[trigger] grays_to(picture, grid) && can_analyze(
                    grid.width,
                    grid.height,
                    mark,
                ) && reports_density(grid, mark, report);
            let w = picture.width as int;
            let h = picture.height as int;
            let b = picture.kind.bytes() as int;
            assert(h <= w * h * b && w <= w * h * b) by (nonlinear_arith)
                requires
                    1 <= w,
                    1 <= h,
                    1 <= b,
            ;
            law_report_describes_the_plane(grid, mark, report);
        },
        Err(_) => {},
    }
}

/// What the counts of a plane come to: the smallest and largest count are those of the dark
/// pixels as they are met column by column, so that the smallest is one as soon as there is a
/// dark pixel, and the first dark pixel does not count as a largest one.
pub proof fn law_stats_sum_up_the_plane(grid: Grid<u8>, stats: DensityStats)
    requires
        grid.height <= u32::MAX,
        measures(grid, stats),
    ensures
        stats.bit_map@.len() == grid.width,
        forall|x: int| #![trigger stats.bit_map@[x]]
            0 <= x < grid.width ==> stats.bit_map@[x] == dark_rows(grid, x).len(),
        stats.threshold_accum == count_sum(stats.bit_map@),
        stats.min_density == (if stats.threshold_accum > 0 {
            1int
        } else {
            0int
        }),
        stats.threshold_accum < 2 ==> stats.max_density == 0,
        stats.threshold_accum >= 2 ==> stats.bit_map@.contains(stats.max_density) && (forall|
            x: int,
        |
            0 <= x < grid.width ==> #[trigger] stats.bit_map@[x] <= stats.max_density),
{
    law_counts_are_the_dark_rows(grid);
    law_peak_is_largest(stats.bit_map@);
    if stats.bit_map@.len() == 0 {
        law_counts_add_up(Seq::empty(), Seq::empty(), 0);
        assert(stats.bit_map@ =~= Seq::empty());
    }
}

} // verus!
