//! Diffusion of a conserved quantity over a rectangular grid.
//!
//! Energy sits in the cells of a grid and moves, step by step, into the
//! neighborhood of each cell along randomly drawn, normalized weights.
//!
//! - `grid`: the grid of cells, with its sums and counts.
//! - `neighborhood`: the patch of cells that a cell spreads into.
//! - `random`: the random source that is handed to whatever draws.
//! - `weights`: normalized random weights, held as exact fractions.
//! - `config`: the parameters of a simulation and their validation.
//! - `hotspots`: the initial grid.
//! - `discrete`: the rule for energy in whole units, which is run here.
//! - `continuous`: the rule for real-valued energy, as far as it is decided
//!   in integers, and its model over the reals.
//! - `engine`: the two grids of a simulation under the integer rule.

pub mod config;
pub mod continuous;
pub mod discrete;
pub mod engine;
pub mod grid;
pub mod hotspots;
pub mod neighborhood;
pub mod random;
pub mod weights;
