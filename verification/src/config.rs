//! Simulation parameters and their validation.

use vstd::prelude::*;
use crate::grid::{check_shape, shape_fits};
use crate::random::UNIT;

verus! {

/// The parameters of a simulation.
#[derive(Clone, Copy, Debug)]
pub struct Config {
    /// Height and width of the grid, in cells.
    pub dims: (usize, usize),
    /// How many cells start out holding energy.
    pub hotspots: usize,
    /// Pause between frames, in milliseconds. Not interpreted here.
    pub sleep_interval_ms: usize,
    /// The probability that a cell diffuses in a step, as the numerator of a
    /// fraction of `UNIT`: `0` is never, `UNIT` is always.
    pub heat: u64,
    /// Pixels per cell side when drawn. Not interpreted here.
    pub size_factor: usize,
}

/// Why a configuration is refused.
#[derive(Clone, Copy, Debug, PartialEq, Eq, Structural)]
pub enum ConfigError {
    /// A side is zero, or the grid has more cells than can be held.
    InvalidDimensions,
    /// No hotspot is asked for, or more than there are cells.
    InvalidHotspots,
    /// The heat is above one.
    InvalidHeat,
}

impl Config {
    /// Both sides are positive and the grid can be held.
    pub open spec fn dims_valid(self) -> bool {
        shape_fits(self.dims.0 as nat, self.dims.1 as nat)
    }

    /// At least one hotspot, at most one per cell.
    pub open spec fn hotspots_valid(self) -> bool {
        0 < self.hotspots <= self.dims.0 * self.dims.1
    }

    /// The heat is a probability.
    pub open spec fn heat_valid(self) -> bool {
        self.heat <= UNIT
    }

    /// A simulation can be run on this configuration.
    pub open spec fn valid(self) -> bool {
        self.dims_valid() && self.hotspots_valid() && self.heat_valid()
    }

    /// The outcome of validation: the first fault found, dimensions before
    /// hotspots before heat.
    pub open spec fn verdict(self) -> Result<(), ConfigError> {
        if !self.dims_valid() {
            Err(ConfigError::InvalidDimensions)
        } else if !self.hotspots_valid() {
            Err(ConfigError::InvalidHotspots)
        } else if !self.heat_valid() {
            Err(ConfigError::InvalidHeat)
        } else {
            Ok(())
        }
    }

    /// Checks the configuration before anything is simulated.
    pub fn validate(&self) -> (outcome: Result<(), ConfigError>)
        ensures
            outcome == self.verdict(),
            outcome.is_ok() == self.valid(),
    {
        let (height, width) = self.dims;
        if !check_shape(height, width) {
            return Err(ConfigError::InvalidDimensions);
        }
        assert(height * width <= usize::MAX);
        if self.hotspots == 0 || self.hotspots > height * width {
            return Err(ConfigError::InvalidHotspots);
        }
        if self.heat > UNIT {
            return Err(ConfigError::InvalidHeat);
        }
        Ok(())
    }
}

} // verus!
