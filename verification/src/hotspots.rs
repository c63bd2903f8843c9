//! Seeding a grid with hotspots: cells that start out holding energy.

use vstd::prelude::*;
use crate::config::{Config, ConfigError};
use crate::grid::{
    grid_nonzero, grid_total, grid_vacant, lemma_partition, lemma_rows_tally_zero,
    lemma_tally_before_ends, lemma_tally_before_step, lemma_tally_before_wrap,
    lemma_tally_with_cell, shape_fits, tally_before, with_cell, Grid, Tally, MAX_CELLS,
};
use crate::random::RandomSource;

verus! {

/// How often a random cell is tried for one hotspot before a vacant cell is
/// picked directly.
pub const MAX_REJECTIONS: usize = 64;

/// The energy of one hotspot: the total energy of the grid, which is
/// `height * width * width / height`, shared equally and rounded down.
pub open spec fn hotspot_energy_of(height: usize, width: usize, hotspots: usize) -> nat {
    ((height * width * width / (height as int)) / (hotspots as int)) as nat
}

/// The total energy is the square of the width.
pub proof fn lemma_total_energy(height: usize, width: usize)
    requires
        0 < height,
    ensures
        height * width * width / (height as int) == width * width,
{
    let h = height as int;
    let w = width as int;
    assert(h * w * w / h == w * w) by (nonlinear_arith)
        requires
            0 < h,
            0 <= w,
    ;
}

/// Computes `hotspot_energy_of`.
pub fn hotspot_energy(height: usize, width: usize, hotspots: usize) -> (value: u64)
    requires
        shape_fits(height as nat, width as nat),
        0 < hotspots,
    ensures
        value == hotspot_energy_of(height, width, hotspots),
{
    proof {
        lemma_total_energy(height, width);
        let h = height as int;
        let w = width as int;
        let k = hotspots as int;
        assert(w <= h * w && h * w * w <= MAX_CELLS * MAX_CELLS && 0 <= (h * w * w / h) / k
            <= h * w * w) by (nonlinear_arith)
            requires
                1 <= h,
                1 <= w,
                1 <= k,
                h * w <= MAX_CELLS,
        ;
    }
    let cells: u128 = height as u128 * width as u128;
    let total: u128 = cells * width as u128 / height as u128;
    let value: u128 = total / hotspots as u128;
    value as u64
}

/// Every cell holds either nothing or `value`.
pub open spec fn only_holds(rows: Seq<Seq<u64>>, value: u64) -> bool {
    forall|r: int, c: int|
        0 <= r < rows.len() && 0 <= c < rows[r].len() ==> (#[trigger] rows[r][c]) == 0
            || rows[r][c] == value
}

/// Puts `value` into the vacant cell that has exactly `skip` vacant cells
/// before it, reading row by row, and returns where that is.
pub fn fill_vacant(grid: &mut Grid, skip: usize, value: u64) -> (at: (usize, usize))
    requires
        old(grid).wf(),
        skip < grid_vacant(old(grid)@),
    ensures
        final(grid).wf(),
        final(grid).spec_height() == old(grid).spec_height(),
        final(grid).spec_width() == old(grid).spec_width(),
        old(grid).holds(at.0 as int, at.1 as int),
        old(grid)@[at.0 as int][at.1 as int] == 0,
        tally_before(old(grid)@, at.0 as int, at.1 as int, Tally::Vacant) == skip,
        final(grid)@ == with_cell(old(grid)@, at.0 as int, at.1 as int, value),
{
    let height = grid.height();
    let width = grid.width();
    let mut at: (usize, usize) = (0, 0);
    let mut found = false;
    let mut seen: usize = 0;
    let mut row: usize = 0;
    proof {
        lemma_tally_before_ends(grid@, Tally::Vacant);
    }
    while row < height
        invariant
            grid.wf(),
            height == grid.spec_height(),
            width == grid.spec_width(),
            height == old(grid).spec_height(),
            width == old(grid).spec_width(),
            old(grid).wf(),
            row <= height,
            !found ==> grid@ == old(grid)@ && seen <= skip && seen == tally_before(
                old(grid)@,
                row as int,
                0,
                Tally::Vacant,
            ),
            found ==> old(grid).holds(at.0 as int, at.1 as int) && old(grid)@[at.0 as int][at.1 as int]
                == 0 && tally_before(old(grid)@, at.0 as int, at.1 as int, Tally::Vacant) == skip
                && grid@ == with_cell(old(grid)@, at.0 as int, at.1 as int, value),
        decreases height - row,
    {
        let mut col: usize = 0;
        while col < width
            invariant
                grid.wf(),
                height == grid.spec_height(),
                width == grid.spec_width(),
                height == old(grid).spec_height(),
                width == old(grid).spec_width(),
                old(grid).wf(),
                row < height,
                col <= width,
                !found ==> grid@ == old(grid)@ && seen <= skip && seen == tally_before(
                    old(grid)@,
                    row as int,
                    col as int,
                    Tally::Vacant,
                ),
                found ==> old(grid).holds(at.0 as int, at.1 as int) && old(grid)@[at.0 as int][at.1 as int]
                    == 0 && tally_before(old(grid)@, at.0 as int, at.1 as int, Tally::Vacant)
                    == skip && grid@ == with_cell(old(grid)@, at.0 as int, at.1 as int, value),
            decreases width - col,
        {
            if !found {
                proof {
                    lemma_tally_before_step(old(grid)@, row as int, col as int, Tally::Vacant);
                }
                if grid.get(row, col) == 0 {
                    if seen == skip {
                        grid.set(row, col, value);
                        at = (row, col);
                        found = true;
                    } else {
                        seen = seen + 1;
                    }
                }
            }
            col = col + 1;
        }
        proof {
            lemma_tally_before_wrap(old(grid)@, row as int, Tally::Vacant);
        }
        row = row + 1;
    }
    proof {
        lemma_tally_before_ends(old(grid)@, Tally::Vacant);
    }
    at
}

/// A grid of the given shape in which `hotspots` cells, picked at random,
/// hold `value` and every other cell holds nothing.
///
/// For each hotspot a cell is drawn uniformly from the whole grid until a
/// vacant one comes up. After `MAX_REJECTIONS` occupied cells in a row, a cell
/// is drawn uniformly from the vacant ones instead, so that the placement ends
/// whatever is drawn.
pub fn scatter(
    height: usize,
    width: usize,
    hotspots: usize,
    value: u64,
    rng: &mut RandomSource,
) -> (grid: Grid)
    requires
        shape_fits(height as nat, width as nat),
        hotspots <= height * width,
        hotspots * value <= u64::MAX,
    ensures
        grid.wf(),
        grid.spec_height() == height,
        grid.spec_width() == width,
        only_holds(grid@, value),
        grid_nonzero(grid@) == (if value > 0 {
            hotspots as nat
        } else {
            0
        }),
        grid_total(grid@) == hotspots * value,
{
    let mut grid = Grid::zeros(height, width).unwrap();
    let mut placed: usize = 0;
    proof {
        lemma_rows_tally_zero(grid@, Tally::Occupied);
        assert(0 * value == 0) by (nonlinear_arith);
    }
    while placed < hotspots
        invariant
            grid.wf(),
            grid.spec_height() == height,
            grid.spec_width() == width,
            shape_fits(height as nat, width as nat),
            hotspots <= height * width,
            hotspots * value <= u64::MAX,
            placed <= hotspots,
            only_holds(grid@, value),
            grid_nonzero(grid@) == (if value > 0 {
                placed as nat
            } else {
                0
            }),
            grid_total(grid@) == placed * value,
        decreases hotspots - placed,
    {
        let ghost before = grid@;
        let mut done = false;
        let mut tries: usize = 0;
        while tries < MAX_REJECTIONS && !done
            invariant
                grid.wf(),
                grid.spec_height() == height,
                grid.spec_width() == width,
                shape_fits(height as nat, width as nat),
                tries <= MAX_REJECTIONS,
                only_holds(before, value),
                !done ==> grid@ == before,
                !done && tries > 0 ==> value > 0,
                done ==> exists|r: int, c: int|
                    grid.holds(r, c) && before[r][c] == 0 && grid@ == with_cell(
                        before,
                        r,
                        c,
                        value,
                    ),
            decreases MAX_REJECTIONS - tries + (if done { 0int } else { 1int }),
        {
            let col = rng.index_below(width);
            let row = rng.index_below(height);
            if grid.get(row, col) == 0 {
                grid.set(row, col, value);
                done = true;
                assert(grid.holds(row as int, col as int) && before[row as int][col as int] == 0
                    && grid@ == with_cell(before, row as int, col as int, value));
            } else {
                assert(before[row as int][col as int] == value);
            }
            tries = tries + 1;
        }
        if !done {
            proof {
                lemma_partition(grid@, width as nat);
            }
            let vacant = height * width - placed;
            let skip = rng.index_below(vacant);
            let at = fill_vacant(&mut grid, skip, value);
            assert(grid.holds(at.0 as int, at.1 as int) && before[at.0 as int][at.1 as int] == 0
                && grid@ == with_cell(before, at.0 as int, at.1 as int, value));
        }
        proof {
            let (r, c) = choose|r: int, c: int|
                grid.holds(r, c) && before[r][c] == 0 && grid@ == with_cell(before, r, c, value);
            lemma_tally_with_cell(before, r, c, value, Tally::Energy);
            lemma_tally_with_cell(before, r, c, value, Tally::Occupied);
            assert((placed + 1) * value == placed * value + value) by (nonlinear_arith);
            assert(only_holds(grid@, value)) by {
                assert forall|i: int, j: int|
                    0 <= i < grid@.len() && 0 <= j < grid@[i].len() implies (
                #[trigger] grid@[i][j]) == 0 || grid@[i][j] == value by {
                    assert(before[i][j] == 0 || before[i][j] == value);
                }
            }
        }
        placed = placed + 1;
    }
    grid
}

/// What holds of the rows of a freshly seeded grid: the configured number of
/// cells hold the hotspot energy each, and every other cell holds nothing.
/// (Where the hotspot energy rounds down to zero, every cell holds nothing.)
pub open spec fn seeded_rows(rows: Seq<Seq<u64>>, config: Config) -> bool {
    let value = hotspot_energy_of(config.dims.0, config.dims.1, config.hotspots);
    &&& only_holds(rows, value as u64)
    &&& grid_nonzero(rows) == (if value > 0 {
        config.hotspots as nat
    } else {
        0
    })
    &&& grid_total(rows) == config.hotspots * value
    &&& grid_total(rows) <= config.dims.1 * config.dims.1
}

/// What holds of a freshly seeded grid: it has the configured shape, and its
/// rows are seeded.
pub open spec fn seeded(grid: Grid, config: Config) -> bool {
    &&& grid.wf()
    &&& grid.spec_height() == config.dims.0
    &&& grid.spec_width() == config.dims.1
    &&& seeded_rows(grid@, config)
}

/// The initial grid for a configuration that has passed validation.
pub fn seed(config: &Config, rng: &mut RandomSource) -> (grid: Grid)
    requires
        config.valid(),
    ensures
        seeded(grid, *config),
{
    let (height, width) = config.dims;
    let value = hotspot_energy(height, width, config.hotspots);
    proof {
        lemma_total_energy(height, width);
        let w = width as int;
        let k = config.hotspots as int;
        assert(width <= MAX_CELLS) by (nonlinear_arith)
            requires
                1 <= height,
                1 <= width,
                height * width <= MAX_CELLS,
        ;
        assert(k * ((w * w) / k) <= w * w && w * w <= MAX_CELLS * MAX_CELLS)
            by (nonlinear_arith)
            requires
                0 < k,
                0 <= w <= MAX_CELLS,
        ;
    }
    scatter(height, width, config.hotspots, value, rng)
}

/// The initial grid of a simulation: `config.hotspots` cells picked at random
/// hold the hotspot energy each, every other cell holds nothing. A
/// configuration that does not pass validation is refused with its fault.
pub fn initialize(config: &Config, rng: &mut RandomSource) -> (made: Result<Grid, ConfigError>)
    ensures
        match made {
            Ok(grid) => config.valid() && seeded(grid, *config),
            Err(fault) => config.verdict() == Err::<(), ConfigError>(fault),
        },
{
    match config.validate() {
        Err(fault) => Err(fault),
        Ok(()) => Ok(seed(config, rng)),
    }
}

} // verus!
