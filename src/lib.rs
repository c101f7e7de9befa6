//! Filter-and-reduce kernels over a dense array of 64-bit values and a list of
//! row identifiers: materialise the selected values, sum them, or take their
//! maximum, each with a scalar and a lane-grouped (vectorized) strategy.
pub mod model;
pub mod lemmas;
pub mod filter;
pub mod filter_sum;
pub mod filter_max;
pub mod arrow_kernels;
pub mod laws;
