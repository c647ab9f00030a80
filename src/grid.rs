//! Gradient grids and the Perlin sampler that reads them.
use crate::intdiv::{ceil_div, div_ceil};
use crate::kernel::{interp, interpolate, ONE};
use crate::lattice::{gradient_cells, gradient_shape, GradientArray, MAX_CELLS};
use vstd::arithmetic::div_mod::{lemma_div_is_ordered, lemma_multiply_divide_lt};
use vstd::prelude::*;

verus! {

/// Bound on the magnitude of one corner's influence: two products of fixed-point units.
pub const CORNER_BOUND: i64 = 0x2_0000_0000;

/// Bound on the cell sizes that the sampler accepts.
pub const MAX_CELL_SIZE: usize = 0x10_0000;

/// A lattice of fixed-point gradient vectors, `rows` by `cols`.
pub struct GradientGrid {
    pub rows: usize,
    pub cols: usize,
    pub vecs: GradientArray,
}

/// How far the squared length of a fixed-point gradient may stray from `ONE * ONE`.
pub const NORM_TOLERANCE: i64 = 0x4_0000;

/// A gradient of unit length, up to rounding: each component lies in `[-ONE, ONE]` and
/// the squared length is within `NORM_TOLERANCE` of `ONE * ONE`.
pub open spec fn is_unit_gradient(g: (i64, i64)) -> bool {
    &&& -ONE <= g.0 <= ONE
    &&& -ONE <= g.1 <= ONE
    &&& ONE * ONE - NORM_TOLERANCE <= g.0 * g.0 + g.1 * g.1 <= ONE * ONE + NORM_TOLERANCE
}

/// The lattice shape of one octave: one lattice point past each cell boundary.
pub open spec fn lattice_shape(height: int, width: int, cell: int) -> (int, int) {
    (ceil_div(height, cell) + 1, ceil_div(width, cell) + 1)
}

/// The fixed-point offset of pixel coordinate `i` inside its cell of size `cell`.
pub open spec fn frac(i: int, cell: int) -> int {
    (i % cell) * ONE / cell
}

impl GradientGrid {
    /// The vectors fill the lattice exactly and every component is in range.
    pub open spec fn wf(&self) -> bool {
        &&& gradient_shape(self.vecs) == (self.rows as nat, self.cols as nat)
        &&& gradient_cells(self.vecs).len() == self.rows * self.cols
        &&& forall|k: int|
            0 <= k < gradient_cells(self.vecs).len() ==> is_unit_gradient(
                #[trigger] gradient_cells(self.vecs)[k],
            )
    }

    /// The gradient stored at lattice point `(ix, iy)`.
    pub open spec fn at(&self, ix: int, iy: int) -> (i64, i64) {
        gradient_cells(self.vecs)[ix * self.cols + iy]
    }

    /// The influence of corner `(ix, iy)` on a point displaced from it by `(dx, dy)`.
    pub open spec fn influence(&self, ix: int, iy: int, dx: int, dy: int) -> int {
        dx * self.at(ix, iy).0 + dy * self.at(ix, iy).1
    }

    /// The noise value at pixel `(i, j)` for cells of size `cell`: the four corner
    /// influences blended with the ease curve, first along `x`, then along `y`.
    pub open spec fn noise_at(&self, i: int, j: int, cell: int) -> int {
        let x0 = i / cell;
        let y0 = j / cell;
        let sx = frac(i, cell);
        let sy = frac(j, cell);
        let one = ONE as int;
        interp(
            interp(self.influence(x0, y0, sx, sy), self.influence(x0 + 1, y0, sx - one, sy), sx),
            interp(
                self.influence(x0, y0 + 1, sx, sy - one),
                self.influence(x0 + 1, y0 + 1, sx - one, sy - one),
                sx,
            ),
            sy,
        )
    }

    /// Builds a grid from its vectors, row by row; `None` where their number is not
    /// `rows * cols`, where a side or that number exceeds `MAX_CELLS`, or where a vector
    /// is not of unit length.
    pub fn new(rows: usize, cols: usize, vecs: Vec<(i64, i64)>) -> (r: Option<GradientGrid>)
        ensures
            r.is_some() <==> (vecs@.len() == rows * cols && rows <= MAX_CELLS && cols
                <= MAX_CELLS && rows * cols <= MAX_CELLS && forall|
                k: int,
            | 0 <= k < vecs@.len() ==> is_unit_gradient(#[trigger] vecs@[k])),
            r matches Some(g) ==> g.rows == rows && g.cols == cols && gradient_cells(g.vecs)
                == vecs@ && g.wf(),
    {
        let mut k: usize = 0;
        while k < vecs.len()
            invariant
                k <= vecs@.len(),
                forall|m: int| 0 <= m < k ==> is_unit_gradient(#[trigger] vecs@[m]),
            decreases vecs@.len() - k,
        {
            let g = vecs[k];
            if !(-ONE <= g.0 && g.0 <= ONE && -ONE <= g.1 && g.1 <= ONE) {
                return None;
            }
            proof {
                assert(g.0 * g.0 <= ONE * ONE) by (nonlinear_arith)
                    requires
                        -ONE <= g.0 <= ONE,
                ;
                assert(g.1 * g.1 <= ONE * ONE) by (nonlinear_arith)
                    requires
                        -ONE <= g.1 <= ONE,
                ;
                assert(g.0 * g.0 >= 0 && g.1 * g.1 >= 0) by (nonlinear_arith);
            }
            let norm = g.0 * g.0 + g.1 * g.1;
            if norm < ONE * ONE - NORM_TOLERANCE || norm > ONE * ONE + NORM_TOLERANCE {
                return None;
            }
            k = k + 1;
        }
        let n = match rows.checked_mul(cols) {
            Some(n) => n,
            None => {
                return None;
            },
        };
        if n != vecs.len() || rows > MAX_CELLS || cols > MAX_CELLS || n > MAX_CELLS {
            return None;
        }
        let mut arr = GradientArray::from_elem(rows, cols, (0, 0));
        let mut idx: usize = 0;
        let mut i: usize = 0;
        let mut j: usize = 0;
        while idx < n
            invariant
                n == rows * cols,
                n == vecs@.len(),
                idx <= n,
                idx == i * cols + j,
                j < cols || n == 0,
                gradient_shape(arr) == (rows as nat, cols as nat),
                gradient_cells(arr).len() == n,
                forall|t: int| 0 <= t < idx ==> #[trigger] gradient_cells(arr)[t] == vecs@[t],
            decreases n - idx,
        {
            proof {
                assert(i < rows) by (nonlinear_arith)
                    requires
                        idx == i * cols + j,
                        idx < rows * cols,
                        j < cols,
                        0 <= j,
                ;
            }
            arr.set(i, j, vecs[idx]);
            idx = idx + 1;
            j = j + 1;
            if j == cols {
                proof {
                    assert((i + 1) * cols == i * cols + cols) by (nonlinear_arith);
                }
                j = 0;
                i = i + 1;
            }
        }
        proof {
            assert(gradient_cells(arr) =~= vecs@);
        }
        Some(GradientGrid { rows, cols, vecs: arr })
    }

    /// The gradient stored at lattice point `(ix, iy)`.
    pub fn gradient(&self, ix: usize, iy: usize) -> (r: (i64, i64))
        requires
            self.wf(),
            ix < self.rows,
            iy < self.cols,
        ensures
            r == self.at(ix as int, iy as int),
            is_unit_gradient(r),
    {
        proof {
            assert(ix * self.cols + iy < self.rows * self.cols) by (nonlinear_arith)
                requires
                    ix < self.rows,
                    iy < self.cols,
            ;
        }
        self.vecs.get(ix, iy)
    }

    /// The influence of corner `(ix, iy)` on a point displaced from it by `(dx, dy)`.
    pub fn dot_grid_gradient(&self, ix: usize, iy: usize, dx: i64, dy: i64) -> (r: i64)
        requires
            self.wf(),
            ix < self.rows,
            iy < self.cols,
            -ONE <= dx <= ONE,
            -ONE <= dy <= ONE,
        ensures
            r == self.influence(ix as int, iy as int, dx as int, dy as int),
            -CORNER_BOUND <= r <= CORNER_BOUND,
    {
        let g = self.gradient(ix, iy);
        proof {
            assert(-ONE * ONE <= dx * g.0 <= ONE * ONE) by (nonlinear_arith)
                requires
                    -ONE <= dx <= ONE,
                    -ONE <= g.0 <= ONE,
            ;
            assert(-ONE * ONE <= dy * g.1 <= ONE * ONE) by (nonlinear_arith)
                requires
                    -ONE <= dy <= ONE,
                    -ONE <= g.1 <= ONE,
            ;
        }
        dx * g.0 + dy * g.1
    }

    /// The noise value at pixel `(i, j)` for cells of size `cell`.
    pub fn perlin(&self, i: usize, j: usize, cell: usize) -> (r: i64)
        requires
            self.wf(),
            0 < cell <= MAX_CELL_SIZE,
            i / cell + 1 < self.rows,
            j / cell + 1 < self.cols,
        ensures
            r == self.noise_at(i as int, j as int, cell as int),
            -CORNER_BOUND <= r <= CORNER_BOUND,
    {
        let x0 = i / cell;
        let y0 = j / cell;
        let sx = cell_offset(i, cell);
        let sy = cell_offset(j, cell);
        let n0 = self.dot_grid_gradient(x0, y0, sx, sy);
        let n1 = self.dot_grid_gradient(x0 + 1, y0, sx - ONE, sy);
        let ix0 = interpolate(n0, n1, sx);
        let n0 = self.dot_grid_gradient(x0, y0 + 1, sx, sy - ONE);
        let n1 = self.dot_grid_gradient(x0 + 1, y0 + 1, sx - ONE, sy - ONE);
        let ix1 = interpolate(n0, n1, sx);
        interpolate(ix0, ix1, sy)
    }
}

/// The fixed-point offset of coordinate `i` inside its cell, in `[0, ONE)`.
fn cell_offset(i: usize, cell: usize) -> (r: i64)
    requires
        0 < cell <= MAX_CELL_SIZE,
    ensures
        r == frac(i as int, cell as int),
        0 <= r < ONE,
{
    let m = (i % cell) as u64;
    let one = ONE as u64;
    proof {
        assert(m * one < cell * one) by (nonlinear_arith)
            requires
                m < cell,
                one > 0,
        ;
        lemma_multiply_divide_lt(m * one, cell as int, one as int);
        lemma_div_is_ordered(0, m * one, cell as int);
    }
    (m * one / (cell as u64)) as i64
}

/// The lattice shape for one octave of a `height` by `width` image with cells of
/// size `cell`.
pub fn grid_shape(height: usize, width: usize, cell: usize) -> (r: (usize, usize))
    requires
        0 < cell,
        height < usize::MAX,
        width < usize::MAX,
    ensures
        r.0 as int == lattice_shape(height as int, width as int, cell as int).0,
        r.1 as int == lattice_shape(height as int, width as int, cell as int).1,
{
    let h = div_ceil(height, cell);
    let w = div_ceil(width, cell);
    (h + 1, w + 1)
}

} // verus!
