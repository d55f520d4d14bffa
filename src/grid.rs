use vstd::prelude::*;

use vstd::arithmetic::div_mod::lemma_fundamental_div_mod_converse;

use crate::error::FieldError;

verus! {

/// The number of samples along each axis of the plotting area: one sample
/// per pixel column (`count_x`) and per pixel row (`count_y`).
#[derive(Clone, Copy, Debug, PartialEq, Eq, Structural)]
pub struct SampleGrid {
    pub count_x: usize,
    pub count_y: usize,
}

/// The grid point of linear index `k` in row-major order: its column
/// `k mod count_x` and its row `k div count_x`.
pub open spec fn cell_at(count_x: usize, k: int) -> (usize, usize) {
    ((k % count_x as int) as usize, (k / count_x as int) as usize)
}

impl SampleGrid {
    /// Both counts are positive and the number of grid points fits in `usize`.
    pub open spec fn wf(self) -> bool {
        &&& self.count_x > 0
        &&& self.count_y > 0
        &&& self.count_x * self.count_y <= usize::MAX
    }

    /// The number of grid points.
    pub open spec fn size(self) -> int {
        self.count_x * self.count_y
    }

    /// All grid points, row by row.
    pub open spec fn spec_cells(self) -> Seq<(usize, usize)> {
        Seq::new(self.size() as nat, |k: int| cell_at(self.count_x, k))
    }

    /// A grid of `count_x` by `count_y` samples.
    pub fn new(count_x: usize, count_y: usize) -> (r: Result<SampleGrid, FieldError>)
        ensures
            count_x == 0 || count_y == 0 <==> r == Err::<SampleGrid, FieldError>(
                FieldError::EmptyGrid,
            ),
            count_x > 0 && count_y > 0 && count_x * count_y > usize::MAX <==> r == Err::<
                SampleGrid,
                FieldError,
            >(FieldError::GridTooLarge),
            r is Ok <==> count_x > 0 && count_y > 0 && count_x * count_y <= usize::MAX,
            r is Ok ==> r->Ok_0 == (SampleGrid { count_x, count_y }) && r->Ok_0.wf(),
    {
        if count_x == 0 || count_y == 0 {
            return Err(FieldError::EmptyGrid);
        }
        match count_x.checked_mul(count_y) {
            Some(_) => Ok(SampleGrid { count_x, count_y }),
            None => Err(FieldError::GridTooLarge),
        }
    }

    /// The number of grid points, `count_x * count_y`.
    pub fn len(&self) -> (r: usize)
        requires
            self.wf(),
        ensures
            r == self.size(),
    {
        self.count_x * self.count_y
    }

    /// The column and row of the grid point of linear index `k`.
    pub fn cell(&self, k: usize) -> (r: (usize, usize))
        requires
            self.wf(),
            k < self.size(),
        ensures
            r == cell_at(self.count_x, k as int),
    {
        (k % self.count_x, k / self.count_x)
    }

    /// All grid points in row-major order.
    pub fn cells(&self) -> (r: Vec<(usize, usize)>)
        requires
            self.wf(),
        ensures
            r@ == self.spec_cells(),
    {
        let n = self.len();
        let mut out: Vec<(usize, usize)> = Vec::new();
        let mut k: usize = 0;
        while k < n
            invariant
                self.wf(),
                n == self.size(),
                k <= n,
                out@.len() == k,
                forall|j: int| 0 <= j < k ==> out@[j] == cell_at(self.count_x, j),
            decreases n - k,
        {
            out.push(self.cell(k));
            k = k + 1;
        }
        assert(out@ =~= self.spec_cells());
        out
    }
}

/// The grid has exactly `count_x * count_y` points; the first is column 0 of
/// row 0 and the last is column `count_x - 1` of row `count_y - 1`. Every
/// point lies inside the grid.
pub proof fn lemma_grid_coverage(g: SampleGrid)
    requires
        g.wf(),
    ensures
        g.spec_cells().len() == g.count_x * g.count_y,
        g.spec_cells()[0] == (0usize, 0usize),
        g.spec_cells()[g.size() - 1] == ((g.count_x - 1) as usize, (g.count_y - 1) as usize),
        forall|k: int|
            0 <= k < g.size() ==> (#[trigger] g.spec_cells()[k]).0 < g.count_x
                && g.spec_cells()[k].1 < g.count_y,
{
    let cx = g.count_x as int;
    let cy = g.count_y as int;
    assert(cx * cy >= 1) by (nonlinear_arith)
        requires
            cx >= 1,
            cy >= 1,
    ;
    lemma_fundamental_div_mod_converse(0, cx, 0, 0);
    assert(cx * cy - 1 == (cy - 1) * cx + (cx - 1)) by (nonlinear_arith);
    lemma_fundamental_div_mod_converse(cx * cy - 1, cx, cy - 1, cx - 1);
    assert forall|k: int| 0 <= k < g.size() implies (#[trigger] g.spec_cells()[k]).0 < g.count_x
        && g.spec_cells()[k].1 < g.count_y by {
        let q = k / cx;
        let r = k % cx;
        assert(k == cx * q + r && 0 <= r < cx) by (nonlinear_arith)
            requires
                cx > 0,
                q == k / cx,
                r == k % cx,
        ;
        assert(q >= 0) by (nonlinear_arith)
            requires
                k >= 0,
                cx > 0,
                q == k / cx,
        ;
        if q >= cy {
            assert(cx * q >= cx * cy) by (nonlinear_arith)
                requires
                    q >= cy,
                    cx > 0,
            ;
        }
    }
}

} // verus!
