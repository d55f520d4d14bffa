//! Verified core of a two-particle interference heatmap generator: the
//! row-major sample grid, the two-pass min-max normalization of sampled field
//! values, the piecewise-linear color map, and the per-pixel render plan.
//!
//! Field values are exact fixed-point integers (`i64`); a normalized value is
//! an exact rational `Level` in [0, 1].

pub mod colormap;
pub mod error;
pub mod grid;
pub mod maths;
pub mod normalize;
pub mod render;
