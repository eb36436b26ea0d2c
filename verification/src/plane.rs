//! Rectangular pixel planes and their mathematical model.

use vstd::prelude::*;

verus! {

/// The model of a plane: `width` columns, `height` rows, and the cells row by row
/// from the top, each row from the left.
pub ghost struct Grid<T> {
    pub width: nat,
    pub height: nat,
    pub cells: Seq<T>,
}

impl<T> Grid<T> {
    /// There is exactly one cell for every position.
    pub open spec fn wf(self) -> bool {
        self.cells.len() == self.width * self.height
    }

    /// Whether column `x` and row `y` lie inside the grid.
    pub open spec fn has(self, x: int, y: int) -> bool {
        0 <= x < self.width && 0 <= y < self.height
    }

    /// The cell in column `x` and row `y`.
    pub open spec fn at(self, x: int, y: int) -> T {
        self.cells[y * self.width + x]
    }

    /// The grid that holds `f(x, y)` in column `x` and row `y`.
    pub open spec fn tabulate(width: nat, height: nat, f: spec_fn(int, int) -> T) -> Self {
        Grid {
            width,
            height,
            cells: Seq::new(width * height, |i: int| f(i % width as int, i / width as int)),
        }
    }
}

/// The position of a cell inside the grid is an index into its cells.
pub proof fn lemma_index(width: int, height: int, x: int, y: int)
    requires
        0 <= x < width,
        0 <= y < height,
    ensures
        0 <= y * width + x < width * height,
        0 <= y * width,
        (y * width + x) % width == x,
        (y * width + x) / width == y,
{
    assert(0 <= y * width) by (nonlinear_arith)
        requires
            0 <= y,
            0 <= width,
    ;
    assert(y * width + x < width * height) by (nonlinear_arith)
        requires
            x < width,
            0 <= y,
            y + 1 <= height,
            0 < width,
    ;
    vstd::arithmetic::div_mod::lemma_fundamental_div_mod_converse(y * width + x, width, y, x);
}

/// Distinct positions are distinct indices.
pub proof fn lemma_index_injective(width: int, height: int, x: int, y: int, i: int, j: int)
    requires
        0 <= x < width,
        0 <= y < height,
        0 <= i < width,
        0 <= j < height,
        y * width + x == j * width + i,
    ensures
        x == i,
        y == j,
{
    lemma_index(width, height, x, y);
    lemma_index(width, height, i, j);
}

/// Every index into the cells is the position of a cell.
pub proof fn lemma_position(width: int, height: int, k: int)
    requires
        0 < width,
        0 <= k < width * height,
    ensures
        0 <= k % width < width,
        0 <= k / width < height,
        (k / width) * width + k % width == k,
{
    vstd::arithmetic::div_mod::lemma_fundamental_div_mod(k, width);
    vstd::arithmetic::div_mod::lemma_mod_bound(k, width);
    vstd::arithmetic::mul::lemma_mul_is_commutative(k / width, width);
    assert(0 <= k / width < height) by (nonlinear_arith)
        requires
            0 < width,
            0 <= k < width * height,
    ;
}

/// Two grids of one size that agree in every cell are equal.
pub proof fn lemma_same_cells<T>(a: Grid<T>, b: Grid<T>)
    requires
        a.wf(),
        b.wf(),
        a.width == b.width,
        a.height == b.height,
        forall|x: int, y: int| a.has(x, y) ==> #[trigger] a.at(x, y) == b.at(x, y),
    ensures
        a == b,
{
    assert forall|k: int| 0 <= k < a.cells.len() implies a.cells[k] == b.cells[k] by {
        let w = a.width as int;
        if w == 0 {
            assert(0 * a.height == 0);
        } else {
            lemma_position(w, a.height as int, k);
            assert(a.at(k % w, k / w) == b.at(k % w, k / w));
        }
    }
    assert(a.cells =~= b.cells);
}

/// A tabulated grid is well formed and holds the tabulated values.
pub proof fn lemma_tabulate<T>(width: nat, height: nat, f: spec_fn(int, int) -> T)
    ensures
        Grid::tabulate(width, height, f).wf(),
        forall|x: int, y: int|
            0 <= x < width && 0 <= y < height ==> #[trigger] Grid::tabulate(width, height, f).at(
                x,
                y,
            ) == f(x, y),
{
    assert forall|x: int, y: int| 0 <= x < width && 0 <= y < height implies
        #[trigger] Grid::tabulate(width, height, f).at(x, y) == f(x, y) by {
        lemma_index(width as int, height as int, x, y);
    }
}

/// A rectangle of pixels, stored row by row from the top left.
pub struct Plane<T> {
    pub width: u32,
    pub height: u32,
    pub pixels: Vec<T>,
}

impl<T> View for Plane<T> {
    type V = Grid<T>;

    open spec fn view(&self) -> Grid<T> {
        Grid { width: self.width as nat, height: self.height as nat, cells: self.pixels@ }
    }
}

impl<T> Plane<T> {
    /// There is exactly one pixel for every position.
    pub open spec fn wf(&self) -> bool {
        self@.wf()
    }
}

impl<T: Copy> Plane<T> {
    /// A plane whose pixels all are `pixel`.
    pub fn filled(width: u32, height: u32, pixel: T) -> (plane: Self)
        requires
            width * height <= usize::MAX,
        ensures
            plane.wf(),
            plane.width == width,
            plane.height == height,
            forall|x: int, y: int| plane@.has(x, y) ==> #[trigger] plane@.at(x, y) == pixel,
    {
        let count: usize = (width as usize) * (height as usize);
        let mut pixels: Vec<T> = Vec::new();
        let mut i: usize = 0;
        while i < count
            invariant
                i <= count,
                pixels@.len() == i,
                forall|k: int| 0 <= k < i ==> pixels@[k] == pixel,
            decreases count - i,
        {
            pixels.push(pixel);
            i += 1;
        }
        let plane = Plane { width, height, pixels };
        proof {
            assert forall|x: int, y: int| plane@.has(x, y) implies #[trigger] plane@.at(x, y)
                == pixel by {
                lemma_index(width as int, height as int, x, y);
            }
        }
        plane
    }

    /// The pixel in column `x` and row `y`.
    pub fn get(&self, x: u32, y: u32) -> (pixel: T)
        requires
            self.wf(),
            x < self.width,
            y < self.height,
        ensures
            pixel == self@.at(x as int, y as int),
    {
        proof {
            lemma_index(self.width as int, self.height as int, x as int, y as int);
            assert(self.pixels.len() == self.width * self.height);
        }
        self.pixels[(y as usize) * (self.width as usize) + (x as usize)]
    }

    /// Replaces the pixel in column `x` and row `y` and leaves every other one as it was.
    pub fn put(&mut self, x: u32, y: u32, pixel: T)
        requires
            old(self).wf(),
            x < old(self).width,
            y < old(self).height,
        ensures
            final(self).wf(),
            final(self).width == old(self).width,
            final(self).height == old(self).height,
            forall|i: int, j: int|
                old(self)@.has(i, j) ==> #[trigger] final(self)@.at(i, j) == (if i == x && j == y {
                    pixel
                } else {
                    old(self)@.at(i, j)
                }),
    {
        let ghost before = self@;
        proof {
            lemma_index(self.width as int, self.height as int, x as int, y as int);
            assert(self.pixels.len() == self.width * self.height);
        }
        let index: usize = (y as usize) * (self.width as usize) + (x as usize);
        self.pixels[index] = pixel;
        proof {
            let w = before.width as int;
            let h = before.height as int;
            assert forall|i: int, j: int| before.has(i, j) implies #[trigger] self@.at(i, j) == (
            if i == x && j == y {
                pixel
            } else {
                before.at(i, j)
            }) by {
                lemma_index(w, h, i, j);
                if j * w + i == y * w + x {
                    lemma_index_injective(w, h, x as int, y as int, i, j);
                }
            }
        }
    }
}

} // verus!
