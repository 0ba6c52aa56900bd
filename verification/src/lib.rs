//! Interpolation subgrids: windowed storage of node weights that a
//! Monte-Carlo run accumulates once and that can afterwards be convoluted
//! with any luminosity.
//!
//! Weights are held and handed around as IEEE-754 binary64 bit patterns in
//! `u64` words. All arithmetic on them is supplied by the caller as closures;
//! this crate decides where each weight goes, which cells exist, and in which
//! order they are visited, and says of every result which closure calls can
//! have made it.
//!
//! - [`params`]: the axes of a subgrid and where a stencil starts.
//! - [`basis`] and [`transform`]: the interpolation basis and the iteration
//!   that inverts the transformation of a momentum fraction.
//! - [`lagrange_subgrid`], [`ntuple_grid`] and [`subgrid`]: the two storage
//!   strategies and what they share.
//! - [`node_array`]: the array of `ndarray` behind the interpolated weights.
//! - [`history`], [`compaction`], [`exact_basis`] and [`exact_subgrid`]:
//!   what holds of every sequence of samples, of the optimized subgrid, and
//!   of the basis and the subgrid where the closures compute exactly.
pub mod basis;
pub mod compaction;
pub mod exact_basis;
pub mod exact_subgrid;
pub mod history;
pub mod lagrange_subgrid;
pub mod node_array;
pub mod ntuple_grid;
pub mod params;
pub mod subgrid;
pub mod transform;
