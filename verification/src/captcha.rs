//! Cleaning a picture of text: sparse columns are wiped, then small specks.

use vstd::prelude::*;

use crate::block_sums::can_be_thresholded;
use crate::denoiser_app::DenoiserApp;
use crate::error::DenoiseError;
use crate::morphology::{adaptive_threshold, dilate, erode};
use crate::picture::{
    gray_to_png, load_from_memory, scale, to_luma8, DOUBLED_SIDE, LOAD_LIMIT,
};
use crate::plane::Plane;
#[allow(unused_imports)]
use crate::morphology::{can_threshold, dilated, eroded, thresholded};
#[allow(unused_imports)]
use crate::picture::{
    can_double, encodes, gray_picture, grays_to, load_outcome, loads_as, scale_outcome, Picture,
};
#[allow(unused_imports)]
use crate::plane::{lemma_same_cells, lemma_tabulate, Grid};

verus! {

/// The brightest grey.
pub const WHITE_LEVEL: u8 = 255;

/// A grid whose sparse columns are white: those with fewer dark cells than `threshold`.
pub open spec fn whitened(grid: Grid<u8>, density_map: Seq<u32>, threshold: u8) -> Grid<u8> {
    Grid::tabulate(
        grid.width,
        grid.height,
        |x: int, y: int|
            if density_map[x] < threshold {
                WHITE_LEVEL
            } else {
                grid.at(x, y)
            },
    )
}

/// A grid without specks: black and white by its surroundings, then eroded, then dilated.
pub open spec fn despeckled(
    grid: Grid<u8>,
    block: u32,
    delta: i32,
    erase_k: u8,
    dilate_k: u8,
) -> Grid<u8> {
    dilated(
        eroded(thresholded(grid, block as int, delta as int), erase_k as int),
        dilate_k as int,
    )
}

/// The blocks that removing specks accepts: they reach beyond the pixel itself, and no further
/// than the positive 32-bit integers.
pub open spec fn can_despeckle(block: u32) -> bool {
    0 < block <= i32::MAX
}

/// A picture of this size can be enlarged to twice its sides: it is not empty, its sides can
/// be doubled, a count is known for every column, and the buffers have an address.
pub open spec fn can_enlarge(width: nat, height: nat, columns: nat) -> bool {
    &&& 0 < width
    &&& 0 < height
    &&& can_double(width as int)
    &&& can_double(height as int)
    &&& width <= columns
    &&& 32 * width * height <= isize::MAX
}

/// Makes every column white in which fewer pixels are dark than `threshold` says.
pub fn whiten_columns(plane: &mut Plane<u8>, density_map: &[u32], threshold: u8)
    requires
        old(plane).wf(),
        old(plane).width <= density_map@.len(),
    ensures
        final(plane).wf(),
        final(plane)@ == whitened(old(plane)@, density_map@, threshold),
{
    let ghost before = plane@;
    let mut x: u32 = 0;
    while x < plane.width
        invariant
            plane.wf(),
            plane@.width == before.width,
            plane@.height == before.height,
            x <= plane.width,
            plane.width <= density_map@.len(),
            forall|i: int, j: int|
                before.has(i, j) ==> #[trigger] plane@.at(i, j) == (if i < x && density_map@[i]
                    < threshold {
                    WHITE_LEVEL
                } else {
                    before.at(i, j)
                }),
        decreases plane.width - x,
    {
        if density_map[x as usize] < threshold as u32 {
            let mut y: u32 = 0;
            while y < plane.height
                invariant
                    plane.wf(),
                    plane@.width == before.width,
                    plane@.height == before.height,
                    x < plane.width,
                    y <= plane.height,
                    plane.width <= density_map@.len(),
                    density_map@[x as int] < threshold,
                    forall|i: int, j: int|
                        before.has(i, j) ==> #[trigger] plane@.at(i, j) == (if (i < x || (i == x
                            && j < y)) && density_map@[i] < threshold {
                            WHITE_LEVEL
                        } else {
                            before.at(i, j)
                        }),
                decreases plane.height - y,
            {
                plane.put(x, y, WHITE_LEVEL);
                y += 1;
            }
        }
        x += 1;
    }
    proof {
        lemma_tabulate(
            before.width,
            before.height,
            |i: int, j: int|
                if density_map@[i] < threshold {
                    WHITE_LEVEL
                } else {
                    before.at(i, j)
                },
        );
        lemma_same_cells(plane@, whitened(before, density_map@, threshold));
    }
}

/// Tells whether a side can be scaled to twice its length.
fn side_can_be_doubled(len: u32) -> (suits: bool)
    ensures
        suits == can_double(len as int),
{
    if len <= DOUBLED_SIDE {
        return true;
    }
    if len > LOAD_LIMIT {
        return false;
    }
    let last: u32 = len - 1;
    let spacing: u32 = if last < 0x400_0000 {
        4
    } else if last < 0x800_0000 {
        8
    } else if last < 0x1000_0000 {
        16
    } else {
        32
    };
    last % (2 * spacing) != spacing / 2
}

/// Removes specks from a plane.
pub fn despeckle(
    plane: &Plane<u8>,
    block: u32,
    delta: i32,
    erase_k: u8,
    dilate_k: u8,
) -> (clean: Plane<u8>)
    requires
        plane.wf(),
        can_despeckle(block),
        can_threshold(plane@, block as int, delta as int),
    ensures
        clean.wf(),
        clean@ == despeckled(plane@, block, delta, erase_k, dilate_k),
{
    let binarized = adaptive_threshold(plane, block, delta);
    let denoised = erode(&binarized, erase_k);
    dilate(&denoised, dilate_k)
}

/// The stages of cleaning up to the enlarged picture: `grid` is what `picture` may turn grey
/// as, and `enlarged` has twice its sides and shows it without its sparse columns.
pub open spec fn enlarged_from(
    picture: Picture,
    grid: Grid<u8>,
    enlarged: Grid<u8>,
    density_map: Seq<u32>,
    threshold: u8,
) -> bool {
    &&& grays_to(picture, grid)
    &&& can_enlarge(grid.width, grid.height, density_map.len())
    &&& scale_outcome(whitened(grid, density_map, threshold), enlarged)
    &&& enlarged.wf()
    &&& enlarged.width == 2 * grid.width
    &&& enlarged.height == 2 * grid.height
}

/// What cleaning a file may come to.
pub open spec fn cleaning_outcome(
    bytes: Seq<u8>,
    block: u32,
    delta: i32,
    erase_k: u8,
    dilate_k: u8,
    density_map: Seq<u32>,
    threshold: u8,
    outcome: Result<Vec<u8>, DenoiseError>,
) -> bool {
    match outcome {
        Ok(file) => exists|picture: Picture, grid: Grid<u8>, enlarged: Grid<u8>|
            {
                &&& #[trigger] loads_as(bytes, picture)
                &&& #[trigger] enlarged_from(picture, grid, enlarged, density_map, threshold)
                &&& can_threshold(enlarged, block as int, delta as int)
                &&& encodes(
                    file@,
                    gray_picture(despeckled(enlarged, block, delta, erase_k, dilate_k)),
                )
            },
        Err(DenoiseError::Undecodable) => load_outcome(bytes, None),
        Err(DenoiseError::Geometry) => {
            ||| exists|picture: Picture| #[trigger]
                loads_as(bytes, picture) && !can_enlarge(
                    picture.width,
                    picture.height,
                    density_map.len(),
                )
            ||| exists|picture: Picture, grid: Grid<u8>, enlarged: Grid<u8>|
                {
                    &&& #[trigger] loads_as(bytes, picture)
                    &&& #[trigger] enlarged_from(picture, grid, enlarged, density_map, threshold)
                    &&& !can_threshold(enlarged, block as int, delta as int)
                }
        },
        Err(DenoiseError::Unencodable) => false,
    }
}

impl DenoiserApp {
    /// Cleans a picture file: columns with fewer dark pixels than `threshold` turn white, the
    /// picture is enlarged to twice its sides, and specks are removed. The result is a PNG
    /// file.
    ///
    /// There is none for a file that cannot be decoded, or where the picture is empty, wider
    /// than `density_map` is long, too large, or so bright that the sums over its blocks take
    /// more than 32 bits.
    pub fn clean_captcha(
        raw_bytes: &[u8],
        block: u32,
        delta: i32,
        erase_k: u8,
        dilate_k: u8,
        density_map: &[u32],
        threshold: u8,
    ) -> (outcome: Result<Vec<u8>, DenoiseError>)
        requires
            can_despeckle(block),
        ensures
            cleaning_outcome(
                raw_bytes@,
                block,
                delta,
                erase_k,
                dilate_k,
                density_map@,
                threshold,
                outcome,
            ),
    {
        let image = match load_from_memory(raw_bytes) {
            Ok(image) => image,
            Err(_) => {
                return Err(DenoiseError::Undecodable);
            },
        };
        let mut plane = to_luma8(&image);
        let ghost picture = crate::picture::contents(image);
        let ghost grid = plane@;
        let w: u32 = plane.width;
        let h: u32 = plane.height;
        if w == 0 || h == 0 || !side_can_be_doubled(w) || !side_can_be_doubled(h) || w as usize
            > density_map.len() {
            return Err(DenoiseError::Geometry);
        }
        proof {
            assert(w * h <= 0x2000_0000 * 0x2000_0000) by (nonlinear_arith)
                requires
                    0 <= w <= 0x2000_0000,
                    0 <= h <= 0x2000_0000,
            ;
            assert(32 * w * h == 32 * (w * h)) by (nonlinear_arith);
        }
        if 32 * (w as u64 * h as u64) > isize::MAX as u64 {
            return Err(DenoiseError::Geometry);
        }
        whiten_columns(&mut plane, density_map, threshold);
        let enlarged = scale(&plane, w * 2, h * 2);
        assert(enlarged_from(picture, grid, enlarged@, density_map@, threshold));
        if !can_be_thresholded(&enlarged, block, delta) {
            return Err(DenoiseError::Geometry);
        }
        let clean = despeckle(&enlarged, block, delta, erase_k, dilate_k);
        match gray_to_png(&clean) {
            Ok(file) => Ok(file),
            Err(_) => Err(DenoiseError::Unencodable),
        }
    }
}

} // verus!
