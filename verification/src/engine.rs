//! The diffusion engine: the two grids of a simulation and the only way to
//! advance them.

use vstd::prelude::*;
use crate::config::{Config, ConfigError};
use crate::discrete;
use crate::discrete::{step_explained, CellChoice};
use crate::grid::{
    all_zero, grid_total, lemma_rows_tally_zero, rectangular, Grid, Tally, MAX_CELLS,
};
use crate::hotspots::{seed, seeded_rows};
use crate::random::{RandomSource, UNIT};

verus! {

/// How far an engine has come.
#[derive(Clone, Copy, Debug, PartialEq, Eq, Structural)]
pub enum Phase {
    /// Nothing has been seeded yet.
    Idle,
    /// The grid has been seeded and no step has been taken.
    Ready,
    /// At least one step has been taken.
    Stepped,
}

/// A simulation under the integer rule. The engine owns the grid that is
/// shown, the lagged grid, and the buffer that a step writes into, the working
/// grid. Between steps the working grid holds nothing.
pub struct DiffusionEngine {
    config: Config,
    phase: Phase,
    lagged: Grid,
    working: Grid,
}

impl View for DiffusionEngine {
    type V = Seq<Seq<u64>>;

    /// The rows of the grid that is shown.
    closed spec fn view(&self) -> Seq<Seq<u64>> {
        self.lagged@
    }
}

impl DiffusionEngine {
    /// How far the engine has come.
    pub closed spec fn spec_phase(&self) -> Phase {
        self.phase
    }

    /// The configuration the engine was made for.
    pub closed spec fn spec_config(&self) -> Config {
        self.config
    }

    /// The rows of the working grid.
    pub closed spec fn buffer(&self) -> Seq<Seq<u64>> {
        self.working@
    }

    /// The configuration is valid, both grids have its shape, the working grid
    /// holds nothing, and the energy shown is no more than the square of the
    /// width.
    pub closed spec fn wf(&self) -> bool {
        &&& self.config.valid()
        &&& self.lagged.wf()
        &&& self.working.wf()
        &&& self.lagged.spec_height() == self.config.dims.0
        &&& self.lagged.spec_width() == self.config.dims.1
        &&& self.working.spec_height() == self.config.dims.0
        &&& self.working.spec_width() == self.config.dims.1
        &&& all_zero(self.working@)
        &&& grid_total(self.lagged@) <= self.config.dims.1 * self.config.dims.1
        &&& self.config.dims.1 * self.config.dims.1 <= u64::MAX
    }

    /// Between steps the working grid holds nothing, and the grid that is
    /// shown has the configured shape and no more energy than the square of
    /// the width.
    pub proof fn lemma_between_steps(&self)
        requires
            self.wf(),
        ensures
            self.spec_config().valid(),
            self@.len() == self.spec_config().dims.0,
            rectangular(self@, self.spec_config().dims.1 as nat),
            all_zero(self.buffer()),
            grid_total(self@) <= self.spec_config().dims.1 * self.spec_config().dims.1,
    {
    }

    /// An idle engine for `config`, or the fault for which `config` is refused.
    pub fn new(config: Config) -> (made: Result<DiffusionEngine, ConfigError>)
        ensures
            match made {
                Ok(engine) => {
                    &&& config.valid()
                    &&& engine.wf()
                    &&& engine.spec_phase() == Phase::Idle
                    &&& engine.spec_config() == config
                    &&& all_zero(engine@)
                },
                Err(fault) => config.verdict() == Err::<(), ConfigError>(fault),
            },
    {
        match config.validate() {
            Err(fault) => Err(fault),
            Ok(()) => {
                let (height, width) = config.dims;
                let lagged = Grid::zeros(height, width).unwrap();
                let working = Grid::zeros(height, width).unwrap();
                proof {
                    let h = height as int;
                    let w = width as int;
                    assert(0 <= w * w <= MAX_CELLS * MAX_CELLS) by (nonlinear_arith)
                        requires
                            1 <= h,
                            1 <= w,
                            h * w <= MAX_CELLS,
                    ;
                }
                Ok(DiffusionEngine { config, phase: Phase::Idle, lagged, working })
            },
        }
    }

    /// Seeds the grid with the configured hotspots.
    pub fn initialize(&mut self, rng: &mut RandomSource)
        requires
            old(self).wf(),
            old(self).spec_phase() == Phase::Idle,
        ensures
            final(self).wf(),
            final(self).spec_phase() == Phase::Ready,
            final(self).spec_config() == old(self).spec_config(),
            seeded_rows(final(self)@, final(self).spec_config()),
    {
        self.lagged = seed(&self.config, rng);
        self.phase = Phase::Ready;
    }

    /// Takes one step of the integer rule. The energy shown never grows, and
    /// at full heat it stays as it is.
    pub fn step(&mut self, rng: &mut RandomSource)
        requires
            old(self).wf(),
            old(self).spec_phase() != Phase::Idle,
        ensures
            final(self).wf(),
            final(self).spec_phase() == Phase::Stepped,
            final(self).spec_config() == old(self).spec_config(),
            exists|choices: Seq<Seq<CellChoice>>| #[trigger]
                step_explained(
                    old(self)@,
                    old(self).buffer(),
                    old(self).spec_config().heat,
                    old(self).spec_config().dims.0,
                    old(self).spec_config().dims.1,
                    choices,
                    final(self)@,
                ),
            grid_total(final(self)@) <= grid_total(old(self)@),
            final(self).spec_config().heat >= UNIT ==> grid_total(final(self)@) == grid_total(
                old(self)@,
            ),
    {
        let ghost source = self.lagged@;
        let ghost buffer = self.working@;
        proof {
            lemma_rows_tally_zero(self.working@, Tally::Energy);
        }
        discrete::step(&mut self.lagged, &mut self.working, &self.config, rng);
        self.phase = Phase::Stepped;
        proof {
            let choices = choose|choices: Seq<Seq<CellChoice>>| #[trigger]
                step_explained(
                    source,
                    buffer,
                    self.config.heat,
                    self.config.dims.0,
                    self.config.dims.1,
                    choices,
                    self.lagged@,
                );
            assert(step_explained(
                old(self)@,
                old(self).buffer(),
                old(self).spec_config().heat,
                old(self).spec_config().dims.0,
                old(self).spec_config().dims.1,
                choices,
                self@,
            ));
        }
    }

    /// How far the engine has come.
    #[verifier::when_used_as_spec(spec_phase)]
    pub fn phase(&self) -> (phase: Phase)
        ensures
            phase == self.spec_phase(),
    {
        self.phase
    }

    /// The configuration the engine was made for.
    pub fn config(&self) -> (config: &Config)
        ensures
            *config == self.spec_config(),
    {
        &self.config
    }

    /// The grid that is shown.
    pub fn grid(&self) -> (grid: &Grid)
        requires
            self.wf(),
        ensures
            grid@ == self@,
            grid.wf(),
            grid.spec_height() == self.spec_config().dims.0,
            grid.spec_width() == self.spec_config().dims.1,
    {
        &self.lagged
    }

    /// The energy shown, all cells together.
    pub fn total_energy(&self) -> (total: u64)
        requires
            self.wf(),
        ensures
            total == grid_total(self@),
    {
        let total = self.lagged.total();
        total as u64
    }
}

} // verus!
