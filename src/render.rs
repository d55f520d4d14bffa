use vstd::prelude::*;

use crate::colormap::{color_at, ColorMap, Rgb};
use crate::error::FieldError;
use crate::grid::{cell_at, SampleGrid};
use crate::maths::Level;
use crate::normalize::{is_constant, lemma_normalized_range, normalize, normalized};

verus! {

/// One pixel of the plotting area: its column, its row, and its color.
#[derive(Clone, Copy, Debug, PartialEq, Eq, Structural)]
pub struct Pixel {
    pub col: usize,
    pub row: usize,
    pub color: Rgb,
}

/// The pixel drawn for grid point `k`: the point's column and row, colored by
/// its normalized value.
pub open spec fn pixel_at(g: SampleGrid, levels: Seq<Level>, stops: Seq<Rgb>, k: int) -> Pixel {
    Pixel {
        col: cell_at(g.count_x, k).0,
        row: cell_at(g.count_x, k).1,
        color: color_at(stops, levels[k]),
    }
}

/// The pixels drawn for the field `values`, sampled over grid `g` in
/// row-major order, through the map `stops`: one per grid point, in order.
pub open spec fn heat_plan(g: SampleGrid, values: Seq<i64>, stops: Seq<Rgb>) -> Seq<Pixel> {
    Seq::new(values.len(), |k: int| pixel_at(g, normalized(values), stops, k))
}

/// The pixels of a heatmap: `values` are the field's values at the points of
/// `grid`, in row-major order; they are normalized onto [0, 1] and each is
/// drawn at its grid point in the color that `cmap` gives it.
pub fn heat_pixels(grid: &SampleGrid, values: &Vec<i64>, cmap: &ColorMap) -> (r: Result<
    Vec<Pixel>,
    FieldError,
>)
    requires
        grid.wf(),
        cmap.wf(),
    ensures
        values.len() != grid.size() <==> r == Err::<Vec<Pixel>, FieldError>(
            FieldError::SampleCountMismatch,
        ),
        values.len() == grid.size() && is_constant(values@) <==> r == Err::<
            Vec<Pixel>,
            FieldError,
        >(FieldError::DegenerateField),
        r is Ok <==> values.len() == grid.size() && !is_constant(values@),
        r is Ok ==> r->Ok_0@ == heat_plan(*grid, values@, cmap.stops@),
{
    if values.len() != grid.len() {
        return Err(FieldError::SampleCountMismatch);
    }
    assert(grid.count_x * grid.count_y > 0) by (nonlinear_arith)
        requires
            grid.count_x > 0,
            grid.count_y > 0,
    ;
    let levels = match normalize(values) {
        Ok(levels) => levels,
        Err(e) => {
            return Err(e);
        },
    };
    proof {
        lemma_normalized_range(values@);
    }
    let mut out: Vec<Pixel> = Vec::new();
    let mut k: usize = 0;
    while k < levels.len()
        invariant
            grid.wf(),
            cmap.wf(),
            levels.len() == values.len() == grid.size(),
            levels@ == normalized(values@),
            forall|j: int| 0 <= j < levels.len() ==> (#[trigger] normalized(values@)[j]).wf(),
            k <= levels.len(),
            out@.len() == k,
            forall|j: int| 0 <= j < k ==> out@[j] == pixel_at(*grid, levels@, cmap.stops@, j),
        decreases levels.len() - k,
    {
        let (col, row) = grid.cell(k);
        let color = cmap.color_of(levels[k]);
        out.push(Pixel { col, row, color });
        k = k + 1;
    }
    assert(out@ =~= heat_plan(*grid, values@, cmap.stops@));
    Ok(out)
}

/// The pixels depend on the grid's counts, the field's values and the map's
/// colors alone: the same inputs give the same pixels, in the same order.
pub proof fn lemma_plan_deterministic(
    g1: SampleGrid,
    g2: SampleGrid,
    values1: Seq<i64>,
    values2: Seq<i64>,
    stops1: Seq<Rgb>,
    stops2: Seq<Rgb>,
)
    requires
        g1.count_x == g2.count_x,
        g1.count_y == g2.count_y,
        values1 == values2,
        stops1 == stops2,
    ensures
        g1.spec_cells() == g2.spec_cells(),
        heat_plan(g1, values1, stops1) == heat_plan(g2, values2, stops2),
{
    assert(g1 == g2);
}

} // verus!
