//! The padded elevation grid that the tiles are read into.

use vstd::prelude::*;

verus! {

/// A `width` x `height` grid of elevations, stored row by row: the cell at
/// column `x`, row `y` is `cells[y * width + x]`.
///
/// An elevation is held in fixed point, in 1/256 m: the value `v` stands for
/// `v / 256` metres. Terrarium-encoded pixels decode exactly into this unit.
pub struct ElevationGrid {
    width: usize,
    height: usize,
    cells: Vec<i32>,
}

/// Row-major indexing stays inside a `width` x `height` grid.
pub proof fn lemma_index_in_grid(x: int, y: int, width: int, height: int)
    requires
        0 <= x < width,
        0 <= y < height,
    ensures
        0 <= y * width + x < width * height,
{
    assert(0 <= y * width + x < width * height) by (nonlinear_arith)
        requires
            0 <= x < width,
            0 <= y < height,
    ;
}

/// Distinct cells have distinct row-major indices.
pub proof fn lemma_index_injective(x1: int, y1: int, x2: int, y2: int, width: int)
    requires
        0 <= x1 < width,
        0 <= x2 < width,
        0 <= y1,
        0 <= y2,
        x1 != x2 || y1 != y2,
    ensures
        y1 * width + x1 != y2 * width + x2,
{
    if y1 == y2 {
    } else if y1 < y2 {
        assert(y1 * width + x1 < y2 * width + x2) by (nonlinear_arith)
            requires
                0 <= x1 < width,
                0 <= x2,
                y1 < y2,
        ;
    } else {
        assert(y2 * width + x2 < y1 * width + x1) by (nonlinear_arith)
            requires
                0 <= x2 < width,
                0 <= x1,
                y2 < y1,
        ;
    }
}

impl ElevationGrid {
    /// The cells fill the grid exactly.
    pub closed spec fn wf(self) -> bool {
        self.cells.len() == self.width * self.height
    }

    pub closed spec fn spec_width(self) -> nat {
        self.width as nat
    }

    pub closed spec fn spec_height(self) -> nat {
        self.height as nat
    }

    /// The cells, row by row.
    pub closed spec fn spec_cells(self) -> Seq<i32> {
        self.cells@
    }

    /// The elevation at column `x`, row `y`.
    pub open spec fn cell(self, x: int, y: int) -> i32 {
        self.spec_cells()[y * self.spec_width() + x]
    }

    pub open spec fn in_bounds(self, x: int, y: int) -> bool {
        0 <= x < self.spec_width() && 0 <= y < self.spec_height()
    }

    /// A grid of `width` x `height` cells at elevation 0.
    pub fn zeros(width: usize, height: usize) -> (g: ElevationGrid)
        requires
            width * height <= usize::MAX,
        ensures
            g.wf(),
            g.spec_width() == width,
            g.spec_height() == height,
            g.spec_cells() == Seq::new((width * height) as nat, |i: int| 0i32),
    {
        let n: usize = width * height;
        let mut cells: Vec<i32> = Vec::new();
        while cells.len() < n
            invariant
                cells.len() <= n,
                forall|i: int| 0 <= i < cells.len() ==> cells@[i] == 0i32,
            decreases n - cells.len(),
        {
            cells.push(0);
        }
        assert(cells@ == Seq::new((width * height) as nat, |i: int| 0i32));
        ElevationGrid { width, height, cells }
    }

    pub fn width(&self) -> (r: usize)
        ensures
            r == self.spec_width(),
    {
        self.width
    }

    pub fn height(&self) -> (r: usize)
        ensures
            r == self.spec_height(),
    {
        self.height
    }

    /// The cells, row by row.
    pub fn cells(&self) -> (r: &Vec<i32>)
        requires
            self.wf(),
        ensures
            r@ == self.spec_cells(),
            r@.len() == self.spec_width() * self.spec_height(),
    {
        &self.cells
    }

    /// The elevation at column `x`, row `y`, or `None` outside the grid.
    pub fn get(&self, x: u64, y: u64) -> (r: Option<i32>)
        requires
            self.wf(),
        ensures
            r is Some <==> self.in_bounds(x as int, y as int),
            r matches Some(v) ==> v == self.cell(x as int, y as int),
    {
        if x < self.width as u64 && y < self.height as u64 {
            let (xu, yu) = (x as usize, y as usize);
            proof {
                lemma_index_in_grid(xu as int, yu as int, self.width as int, self.height as int);
            }
            Some(self.cells[yu * self.width + xu])
        } else {
            None
        }
    }

    /// Writes `value` at column `x`, row `y`. Outside the grid nothing is
    /// written and `Err(())` comes back.
    pub fn set(&mut self, x: u64, y: u64, value: i32) -> (r: Result<(), ()>)
        requires
            old(self).wf(),
        ensures
            final(self).wf(),
            r is Ok <==> old(self).in_bounds(x as int, y as int),
            final(self).spec_width() == old(self).spec_width(),
            final(self).spec_height() == old(self).spec_height(),
            r is Ok ==> final(self).spec_cells() == old(self).spec_cells().update(
                y * old(self).spec_width() + x, value),
            r is Err ==> final(self).spec_cells() == old(self).spec_cells(),
            forall|a: int, b: int| #[trigger] final(self).in_bounds(a, b) ==> final(self).cell(a, b) == if r is Ok
                && a == x && b == y {
                value
            } else {
                old(self).cell(a, b)
            },
    {
        if x < self.width as u64 && y < self.height as u64 {
            let (xu, yu) = (x as usize, y as usize);
            proof {
                lemma_index_in_grid(xu as int, yu as int, self.width as int, self.height as int);
            }
            let i = yu * self.width + xu;
            self.cells.set(i, value);
            proof {
                assert forall|a: int, b: int| #[trigger] self.in_bounds(a, b) implies self.cell(a, b) == if a
                    == x && b == y {
                    value
                } else {
                    old(self).cell(a, b)
                } by {
                    lemma_index_in_grid(a, b, self.width as int, self.height as int);
                    if a != x || b != y {
                        lemma_index_injective(a, b, x as int, y as int, self.width as int);
                    }
                }
            }
            Ok(())
        } else {
            Err(())
        }
    }

    /// The lowest and highest elevation in the grid, or `None` for an empty
    /// grid.
    pub fn elevation_range(&self) -> (r: Option<(i32, i32)>)
        requires
            self.wf(),
        ensures
            r is None <==> self.spec_cells().len() == 0,
            r matches Some((lo, hi)) ==> {
                &&& forall|i: int| 0 <= i < self.spec_cells().len() ==> lo <= #[trigger] self.spec_cells()[i] <= hi
                &&& self.spec_cells().contains(lo)
                &&& self.spec_cells().contains(hi)
            },
    {
        let n = self.cells.len();
        if n == 0 {
            return None;
        }
        let mut lo = self.cells[0];
        let mut hi = self.cells[0];
        let ghost mut lo_at: int = 0;
        let ghost mut hi_at: int = 0;
        let mut i: usize = 1;
        while i < n
            invariant
                n == self.cells@.len(),
                1 <= i <= n,
                forall|k: int| 0 <= k < i ==> lo <= #[trigger] self.cells@[k] <= hi,
                0 <= lo_at < i,
                0 <= hi_at < i,
                self.cells@[lo_at] == lo,
                self.cells@[hi_at] == hi,
            decreases n - i,
        {
            let v = self.cells[i];
            if v < lo {
                lo = v;
                proof {
                    lo_at = i as int;
                }
            }
            if v > hi {
                hi = v;
                proof {
                    hi_at = i as int;
                }
            }
            i = i + 1;
        }
        assert(self.cells@[lo_at] == lo);
        assert(self.cells@[hi_at] == hi);
        Some((lo, hi))
    }

}

} // verus!
