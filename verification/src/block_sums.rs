//! Sums over blocks of a plane, and whether they let a plane be thresholded.

use vstd::prelude::*;

use crate::plane::Plane;
#[allow(unused_imports)]
use crate::morphology::{
    block_around, block_sum, can_threshold, can_threshold_at, corner_sum, row_sum,
};
#[allow(unused_imports)]
use crate::plane::Grid;

verus! {

/// A part of a row sums up to no more than a longer part.
proof fn lemma_row_grows(grid: Grid<u8>, y: int, left: int, middle: int, right: int)
    requires
        left <= middle <= right,
    ensures
        0 <= row_sum(grid, y, left, middle) <= row_sum(grid, y, left, right),
        row_sum(grid, y, left, right) == row_sum(grid, y, left, middle) + row_sum(
            grid,
            y,
            middle,
            right,
        ),
    decreases right - left,
{
    if middle < right {
        lemma_row_grows(grid, y, left, middle, right - 1);
    } else if left < right {
        lemma_row_grows(grid, y, left, middle - 1, right - 1);
    }
}

/// Nothing lies left of the first column or above the first row.
proof fn lemma_corner_empty(grid: Grid<u8>, y: int)
    ensures
        corner_sum(grid, 0, y) == 0,
    decreases y,
{
    if y > 0 {
        lemma_corner_empty(grid, y - 1);
    }
}

/// A larger corner sums up to no less.
proof fn lemma_corner_grows(grid: Grid<u8>, x: int, y: int, right: int, bottom: int)
    requires
        0 <= x <= right,
        0 <= y <= bottom,
    ensures
        0 <= corner_sum(grid, x, y) <= corner_sum(grid, right, bottom),
    decreases bottom,
{
    if y < bottom {
        lemma_corner_grows(grid, x, y, right, bottom - 1);
        lemma_row_grows(grid, bottom - 1, 0, 0, right);
    } else if bottom > 0 {
        lemma_corner_grows(grid, x, y - 1, right, bottom - 1);
        lemma_row_grows(grid, bottom - 1, 0, x, right);
    }
}

/// The sum of a block is made of the sums of four corners.
proof fn lemma_block(grid: Grid<u8>, left: int, top: int, right: int, bottom: int)
    requires
        0 <= left <= right,
        0 <= top <= bottom,
    ensures
        block_sum(grid, left, top, right, bottom) == corner_sum(grid, right, bottom) + corner_sum(
            grid,
            left,
            top,
        ) - corner_sum(grid, right, top) - corner_sum(grid, left, bottom),
    decreases bottom - top,
{
    if top < bottom {
        lemma_block(grid, left, top, right, bottom - 1);
        lemma_row_grows(grid, bottom - 1, 0, left, right);
    }
}

/// The sum of every corner of a plane, in the column and row behind the corner. There are
/// none where the sum of all pixels takes more than 32 bits.
pub fn corner_sums(plane: &Plane<u8>) -> (sums: Option<Plane<u32>>)
    requires
        plane.wf(),
        plane.width < u32::MAX,
        plane.height < u32::MAX,
        (plane.width + 1) * (plane.height + 1) <= usize::MAX,
    ensures
        sums is Some <==> corner_sum(plane@, plane.width as int, plane.height as int) <= u32::MAX,
        (match sums {
            Some(sums) => {
                &&& sums.wf()
                &&& sums.width == plane.width + 1
                &&& sums.height == plane.height + 1
                &&& forall|x: int, y: int|
                    sums@.has(x, y) ==> #[trigger] sums@.at(x, y) == corner_sum(plane@, x, y)
            },
            None => true,
        }),
{
    let ghost grid = plane@;
    let ghost total = corner_sum(grid, plane.width as int, plane.height as int);
    let mut sums: Plane<u32> = Plane::filled(plane.width + 1, plane.height + 1, 0);
    let mut y: u32 = 0;
    proof {
        assert forall|i: int, j: int| sums@.has(i, j) && j <= 0 implies #[trigger] sums@.at(i, j)
            == corner_sum(grid, i, j) by {}
    }
    while y < plane.height
        invariant
            plane.wf(),
            grid == plane@,
            plane.width < u32::MAX,
            plane.height < u32::MAX,
            total == corner_sum(grid, plane.width as int, plane.height as int),
            y <= plane.height,
            sums.wf(),
            sums.width == plane.width + 1,
            sums.height == plane.height + 1,
            forall|i: int, j: int|
                sums@.has(i, j) ==> #[trigger] sums@.at(i, j) == (if j <= y {
                    corner_sum(grid, i, j)
                } else {
                    0
                }),
        decreases plane.height - y,
    {
        let mut row: u32 = 0;
        let mut x: u32 = 0;
        proof {
            lemma_corner_empty(grid, y + 1);
        }
        while x < plane.width
            invariant
                plane.wf(),
                grid == plane@,
                plane.width < u32::MAX,
                plane.height < u32::MAX,
                total == corner_sum(grid, plane.width as int, plane.height as int),
                x <= plane.width,
                y < plane.height,
                row == row_sum(grid, y as int, 0, x as int),
                sums.wf(),
                sums.width == plane.width + 1,
                sums.height == plane.height + 1,
                forall|i: int, j: int|
                    sums@.has(i, j) ==> #[trigger] sums@.at(i, j) == (if j <= y || (j == y + 1
                        && i <= x) {
                        corner_sum(grid, i, j)
                    } else {
                        0
                    }),
            decreases plane.width - x,
        {
            let pixel: u8 = plane.get(x, y);
            let above: u32 = sums.get(x + 1, y);
            proof {
                assert(above == corner_sum(grid, x + 1, y as int));
                assert(corner_sum(grid, x + 1, y + 1) == above + row + pixel);
                lemma_corner_grows(
                    grid,
                    x + 1,
                    y + 1,
                    plane.width as int,
                    plane.height as int,
                );
            }
            let sum: u64 = above as u64 + row as u64 + pixel as u64;
            if sum > u32::MAX as u64 {
                return None;
            }
            row = row + pixel as u32;
            sums.put(x + 1, y + 1, sum as u32);
            x += 1;
        }
        y += 1;
    }
    proof {
        assert(sums@.at(plane.width as int, plane.height as int) == total);
    }
    Some(sums)
}

/// Tells whether a plane can be thresholded with these settings.
pub fn can_be_thresholded(plane: &Plane<u8>, radius: u32, delta: i32) -> (suits: bool)
    requires
        plane.wf(),
        radius <= i32::MAX,
    ensures
        suits == can_threshold(plane@, radius as int, delta as int),
{
    let ghost grid = plane@;
    let w: u32 = plane.width;
    let h: u32 = plane.height;
    if w > i32::MAX as u32 || h > i32::MAX as u32 {
        return false;
    }
    proof {
        assert((w + 1) * (h + 1) <= 0x8000_0000 * 0x8000_0000) by (nonlinear_arith)
            requires
                0 <= w <= 0x7fff_ffff,
                0 <= h <= 0x7fff_ffff,
        ;
        assert(4 * (w + 1) * (h + 1) == 4 * ((w + 1) * (h + 1))) by (nonlinear_arith);
    }
    if 4 * ((w as u128 + 1) * (h as u128 + 1)) > isize::MAX as u128 {
        return false;
    }
    let sums: Plane<u32> = match corner_sums(plane) {
        Some(sums) => sums,
        None => {
            return false;
        },
    };
    let mut y: u32 = 0;
    while y < h
        invariant
            grid == plane@,
            grid.width == w,
            grid.height == h,
            w <= i32::MAX,
            h <= i32::MAX,
            radius <= i32::MAX,
            y <= h,
            sums.wf(),
            sums.width == w + 1,
            sums.height == h + 1,
            forall|i: int, j: int|
                sums@.has(i, j) ==> #[trigger] sums@.at(i, j) == corner_sum(grid, i, j),
            forall|i: int, j: int|
                grid.has(i, j) && j < y ==> #[trigger] can_threshold_at(
                    grid,
                    i,
                    j,
                    radius as int,
                    delta as int,
                ),
        decreases h - y,
    {
        let top: u32 = if y > radius {
            y - radius
        } else {
            0
        };
        let bottom: u32 = if y + radius + 1 < h {
            y + radius + 1
        } else {
            h
        };
        let mut x: u32 = 0;
        while x < w
            invariant
                grid == plane@,
                grid.width == w,
                grid.height == h,
                w <= i32::MAX,
                h <= i32::MAX,
                radius <= i32::MAX,
                x <= w,
                y < h,
                top == (if y > radius {
                    y - radius
                } else {
                    0
                }),
                bottom == (if y + radius + 1 < h {
                    y + radius + 1
                } else {
                    h as int
                }),
                sums.wf(),
                sums.width == w + 1,
                sums.height == h + 1,
                forall|i: int, j: int|
                    sums@.has(i, j) ==> #[trigger] sums@.at(i, j) == corner_sum(grid, i, j),
                forall|i: int, j: int|
                    grid.has(i, j) && (j < y || (j == y && i < x)) ==> #[trigger] can_threshold_at(
                        grid,
                        i,
                        j,
                        radius as int,
                        delta as int,
                    ),
            decreases w - x,
        {
            let left: u32 = if x > radius {
                x - radius
            } else {
                0
            };
            let right: u32 = if x + radius + 1 < w {
                x + radius + 1
            } else {
                w
            };
            let suits = block_suits(&sums, Ghost(grid), left, top, right, bottom, delta);
            proof {
                assert(block_around(grid, x as int, y as int, radius as int) == (
                    left as int,
                    top as int,
                    right as int,
                    bottom as int,
                ));
                assert(suits == can_threshold_at(
                    grid,
                    x as int,
                    y as int,
                    radius as int,
                    delta as int,
                ));
                assert(grid.has(x as int, y as int));
            }
            if !suits {
                return false;
            }
            x += 1;
        }
        y += 1;
    }
    true
}

/// Tells whether the numbers that thresholding needs for one block stay within 32 bits.
fn block_suits(
    sums: &Plane<u32>,
    Ghost(grid): Ghost<Grid<u8>>,
    left: u32,
    top: u32,
    right: u32,
    bottom: u32,
    delta: i32,
) -> (suits: bool)
    requires
        sums.wf(),
        left < right < sums.width,
        top < bottom < sums.height,
        forall|i: int, j: int|
            sums@.has(i, j) ==> #[trigger] sums@.at(i, j) == corner_sum(grid, i, j),
    ensures
        suits == ({
            let size = (right - left) * (bottom - top);
            &&& size <= u32::MAX
            &&& corner_sum(grid, right as int, bottom as int) + corner_sum(
                grid,
                left as int,
                top as int,
            ) <= u32::MAX
            &&& block_sum(grid, left as int, top as int, right as int, bottom as int) / size - delta
                <= i32::MAX
        }),
{
    let a: u32 = sums.get(right, bottom);
    let b: u32 = sums.get(left, top);
    let c: u32 = sums.get(right, top);
    let d: u32 = sums.get(left, bottom);
    proof {
        lemma_block(grid, left as int, top as int, right as int, bottom as int);
        lemma_corner_grows(grid, right as int, top as int, right as int, bottom as int);
        lemma_block_positive(grid, left as int, top as int, right as int, bottom as int);
        assert(0 < (right - left) * (bottom - top) <= u32::MAX * u32::MAX) by (nonlinear_arith)
            requires
                0 <= left < right <= u32::MAX,
                0 <= top < bottom <= u32::MAX,
        ;
    }
    let size: u64 = (right - left) as u64 * (bottom - top) as u64;
    let sum: u64 = (a as u64 + b as u64) - c as u64 - d as u64;
    let mean: u64 = sum / size;
    proof {
        assert(mean <= sum) by (nonlinear_arith)
            requires
                mean == sum / size,
                size >= 1,
        ;
    }
    size <= u32::MAX as u64 && a as u64 + b as u64 <= u32::MAX as u64 && mean as i64 - delta as i64
        <= i32::MAX as i64
}

/// No block sums up to less than zero.
proof fn lemma_block_positive(grid: Grid<u8>, left: int, top: int, right: int, bottom: int)
    requires
        left <= right,
    ensures
        block_sum(grid, left, top, right, bottom) >= 0,
    decreases bottom - top,
{
    if top < bottom {
        lemma_block_positive(grid, left, top, right, bottom - 1);
        lemma_row_grows(grid, bottom - 1, left, left, right);
    }
}

} // verus!
