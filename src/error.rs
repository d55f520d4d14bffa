use vstd::prelude::*;

verus! {

/// Why a heatmap cannot be produced from the given inputs.
#[derive(Clone, Copy, Debug, PartialEq, Eq, Structural)]
pub enum FieldError {
    /// The sample grid has no columns or no rows.
    EmptyGrid,
    /// The number of grid points does not fit in `usize`.
    GridTooLarge,
    /// The number of field values differs from the number of grid points.
    SampleCountMismatch,
    /// Every field value is the same, so min-max rescaling would divide by zero.
    DegenerateField,
}

} // verus!
