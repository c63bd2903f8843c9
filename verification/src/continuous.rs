//! The real-valued diffusion rule, as far as it is decided in integers.
//!
//! Under this rule every cell spreads all of its energy over its anchored
//! patch, by random weights. Which cells receive and by which weights is
//! decided here, exactly; multiplying real-valued energies by the weights is
//! left to the caller.

use vstd::prelude::*;
use crate::neighborhood::{anchored_patch, anchored_patch_of, Patch};
use crate::random::RandomSource;
use crate::weights::{
    lemma_weights_normalized, random_weights, weight_at, weights_upto, WeightVector,
};

verus! {

/// How one cell spreads its energy: slot `k` of `patch` receives the fraction
/// `weights@[k] / weights.total()` of it.
pub struct Spread {
    pub patch: Patch,
    pub weights: WeightVector,
}

impl Spread {
    /// There is one weight for each cell of the patch, and the weights add up
    /// to one.
    pub open spec fn wf(&self) -> bool {
        &&& self.patch.wf()
        &&& self.weights.wf()
        &&& self.weights@.len() == self.patch.spec_count()
    }

    /// The spread is one that the cell (`row`, `col`) of a grid of the given
    /// shape can have: its patch is the anchored patch of that cell.
    pub open spec fn fits(&self, height: usize, width: usize, row: usize, col: usize) -> bool {
        &&& self.wf()
        &&& self.patch == anchored_patch_of(height, width, row, col)
        &&& self.patch.within(height as nat, width as nat)
    }
}

/// Draws the spread of the cell (`row`, `col`): its anchored patch, and fresh
/// random weights for the cells of the patch.
pub fn draw_spread(
    height: usize,
    width: usize,
    row: usize,
    col: usize,
    rng: &mut RandomSource,
) -> (spread: Spread)
    requires
        2 <= height,
        2 <= width,
        row < height,
        col < width,
    ensures
        spread.fits(height, width, row, col),
{
    let patch = anchored_patch(height, width, row, col);
    let weights = random_weights(rng, patch.count());
    Spread { patch, weights }
}

/// The spreads of a plan, row by row.
pub open spec fn plan_view(plan: Vec<Vec<Spread>>) -> Seq<Seq<Spread>> {
    Seq::new(plan.len() as nat, |i: int| plan[i]@)
}

/// The plan holds one fitting spread for every cell of the grid.
pub open spec fn plan_fits(plan: Seq<Seq<Spread>>, height: usize, width: usize) -> bool {
    &&& plan.len() == height
    &&& forall|i: int| 0 <= i < height ==> (#[trigger] plan[i]).len() == width
    &&& forall|i: int, j: int|
        0 <= i < height && 0 <= j < width ==> (#[trigger] plan[i][j]).fits(
            height,
            width,
            i as usize,
            j as usize,
        )
}

/// Draws the spreads of one step: one for every cell of the grid, row by row.
pub fn plan_step(height: usize, width: usize, rng: &mut RandomSource) -> (plan: Vec<Vec<Spread>>)
    requires
        2 <= height,
        2 <= width,
    ensures
        plan_fits(plan_view(plan), height, width),
{
    let mut plan: Vec<Vec<Spread>> = Vec::new();
    let mut row: usize = 0;
    while row < height
        invariant
            2 <= height,
            2 <= width,
            row <= height,
            plan.len() == row,
            forall|i: int| 0 <= i < row ==> (#[trigger] plan[i]).len() == width,
            forall|i: int, j: int|
                0 <= i < row && 0 <= j < width ==> (#[trigger] plan[i][j]).fits(
                    height,
                    width,
                    i as usize,
                    j as usize,
                ),
        decreases height - row,
    {
        let mut spreads: Vec<Spread> = Vec::new();
        let mut col: usize = 0;
        while col < width
            invariant
                2 <= height,
                2 <= width,
                row < height,
                col <= width,
                spreads.len() == col,
                forall|j: int|
                    0 <= j < col ==> (#[trigger] spreads[j]).fits(height, width, row, j as usize),
            decreases width - col,
        {
            let spread = draw_spread(height, width, row, col, rng);
            spreads.push(spread);
            col = col + 1;
        }
        plan.push(spreads);
        row = row + 1;
    }
    proof {
        let view = plan_view(plan);
        assert forall|i: int, j: int| 0 <= i < height && 0 <= j < width implies (
        #[trigger] view[i][j]).fits(height, width, i as usize, j as usize) by {
            assert(plan[i][j].fits(height, width, i as usize, j as usize));
        }
    }
    plan
}

/// The energy of a row of real-valued cells.
pub open spec fn real_row_total(row: Seq<real>) -> real
    decreases row.len(),
{
    if row.len() == 0 {
        0real
    } else {
        real_row_total(row.drop_last()) + row.last()
    }
}

/// The energy of a grid of real-valued cells.
pub open spec fn real_total(rows: Seq<Seq<real>>) -> real
    decreases rows.len(),
{
    if rows.len() == 0 {
        0real
    } else {
        real_total(rows.drop_last()) + real_row_total(rows.last())
    }
}

/// The rows form a grid of the given shape.
pub open spec fn real_shape(rows: Seq<Seq<real>>, height: usize, width: usize) -> bool {
    &&& rows.len() == height
    &&& forall|r: int| 0 <= r < height ==> (#[trigger] rows[r]).len() == width
}

/// A real-valued grid that holds nothing.
pub open spec fn real_zeros(height: usize, width: usize) -> Seq<Seq<real>> {
    Seq::new(height as nat, |r: int| Seq::new(width as nat, |c: int| 0real))
}

/// The rows with `amount` added to the cell (`row`, `col`).
pub open spec fn real_credited(rows: Seq<Seq<real>>, row: int, col: int, amount: real) -> Seq<
    Seq<real>,
> {
    rows.update(row, rows[row].update(col, rows[row][col] + amount))
}

/// The rows after a cell holding `energy` has credited the first `upto` slots
/// of `patch`, each with its weight's part of the energy.
pub open spec fn spread_upto(
    rows: Seq<Seq<real>>,
    patch: Patch,
    shares: Seq<u64>,
    energy: real,
    upto: int,
) -> Seq<Seq<real>>
    decreases upto,
{
    if upto <= 0 {
        rows
    } else {
        let at = patch.spec_cell((upto - 1) as usize);
        real_credited(
            spread_upto(rows, patch, shares, energy, upto - 1),
            at.0 as int,
            at.1 as int,
            energy * weight_at(shares, upto - 1),
        )
    }
}

/// The rows after a cell holding `energy` has spread all of it.
pub open spec fn spread_into(rows: Seq<Seq<real>>, spread: Spread, energy: real) -> Seq<Seq<real>> {
    spread_upto(rows, spread.patch, spread.weights@, energy, spread.patch.spec_count() as int)
}

/// The rows after the first `upto` cells of a row have spread their energy.
pub open spec fn row_spread_upto(
    rows: Seq<Seq<real>>,
    energies: Seq<real>,
    spreads: Seq<Spread>,
    upto: int,
) -> Seq<Seq<real>>
    decreases upto,
{
    if upto <= 0 {
        rows
    } else {
        spread_into(
            row_spread_upto(rows, energies, spreads, upto - 1),
            spreads[upto - 1],
            energies[upto - 1],
        )
    }
}

/// The rows after the cells of the first `upto` rows of `source` have spread
/// their energy.
pub open spec fn grid_spread_upto(
    rows: Seq<Seq<real>>,
    source: Seq<Seq<real>>,
    plan: Seq<Seq<Spread>>,
    upto: int,
) -> Seq<Seq<real>>
    decreases upto,
{
    if upto <= 0 {
        rows
    } else {
        row_spread_upto(
            grid_spread_upto(rows, source, plan, upto - 1),
            source[upto - 1],
            plan[upto - 1],
            source[upto - 1].len() as int,
        )
    }
}

/// One step of the real-valued rule: every cell of `source` spreads all of
/// its energy, by its spread in `plan`, into a grid that held nothing.
pub open spec fn continuous_step(
    source: Seq<Seq<real>>,
    plan: Seq<Seq<Spread>>,
    height: usize,
    width: usize,
) -> Seq<Seq<real>> {
    grid_spread_upto(real_zeros(height, width), source, plan, height as int)
}

/// Reading one more cell of a row adds that cell's energy.
proof fn lemma_real_row_step(row: Seq<real>, upto: int)
    requires
        0 <= upto < row.len(),
    ensures
        real_row_total(row.take(upto + 1)) == real_row_total(row.take(upto)) + row[upto],
{
    assert(row.take(upto + 1).drop_last() =~= row.take(upto));
}

/// Reading one more row adds that row's energy.
proof fn lemma_real_rows_step(rows: Seq<Seq<real>>, upto: int)
    requires
        0 <= upto < rows.len(),
    ensures
        real_total(rows.take(upto + 1)) == real_total(rows.take(upto)) + real_row_total(
            rows[upto],
        ),
{
    assert(rows.take(upto + 1).drop_last() =~= rows.take(upto));
}

/// Replacing one cell of a row changes its energy by the difference.
proof fn lemma_real_row_update(row: Seq<real>, col: int, value: real)
    requires
        0 <= col < row.len(),
    ensures
        real_row_total(row.update(col, value)) == real_row_total(row) - row[col] + value,
    decreases row.len(),
{
    let changed = row.update(col, value);
    if col == row.len() - 1 {
        assert(changed.drop_last() =~= row.drop_last());
    } else {
        lemma_real_row_update(row.drop_last(), col, value);
        assert(changed.drop_last() =~= row.drop_last().update(col, value));
    }
}

/// Replacing one row changes the energy by the difference of the two rows.
proof fn lemma_real_rows_replace(rows: Seq<Seq<real>>, at: int, row: Seq<real>)
    requires
        0 <= at < rows.len(),
    ensures
        real_total(rows.update(at, row)) == real_total(rows) - real_row_total(rows[at])
            + real_row_total(row),
    decreases rows.len(),
{
    let changed = rows.update(at, row);
    if at == rows.len() - 1 {
        assert(changed.drop_last() =~= rows.drop_last());
    } else {
        lemma_real_rows_replace(rows.drop_last(), at, row);
        assert(changed.drop_last() =~= rows.drop_last().update(at, row));
    }
}

/// Crediting a cell keeps the shape and adds the amount to the total.
proof fn lemma_real_credited(
    rows: Seq<Seq<real>>,
    height: usize,
    width: usize,
    row: int,
    col: int,
    amount: real,
)
    requires
        real_shape(rows, height, width),
        0 <= row < height,
        0 <= col < width,
    ensures
        real_shape(real_credited(rows, row, col, amount), height, width),
        real_total(real_credited(rows, row, col, amount)) == real_total(rows) + amount,
{
    lemma_real_row_update(rows[row], col, rows[row][col] + amount);
    lemma_real_rows_replace(rows, row, rows[row].update(col, rows[row][col] + amount));
}

/// The first rows of a grid that holds nothing hold nothing.
proof fn lemma_real_zeros(height: usize, width: usize, upto: int)
    requires
        0 <= upto <= height,
    ensures
        real_total(real_zeros(height, width).take(upto)) == 0real,
    decreases upto,
{
    let zeros = real_zeros(height, width);
    if upto > 0 {
        lemma_real_zeros(height, width, upto - 1);
        lemma_real_rows_step(zeros, upto - 1);
        lemma_real_zero_row(zeros[upto - 1], width as int);
        assert(zeros[upto - 1].take(width as int) =~= zeros[upto - 1]);
    }
}

/// The first cells of a row of zeros hold nothing.
proof fn lemma_real_zero_row(row: Seq<real>, upto: int)
    requires
        0 <= upto <= row.len(),
        forall|c: int| 0 <= c < row.len() ==> row[c] == 0real,
    ensures
        real_row_total(row.take(upto)) == 0real,
    decreases upto,
{
    if upto > 0 {
        lemma_real_zero_row(row, upto - 1);
        lemma_real_row_step(row, upto - 1);
    }
}

/// Crediting the first slots of a patch keeps the shape and adds to the total
/// the energy times the weights of those slots.
proof fn lemma_spread_upto(
    rows: Seq<Seq<real>>,
    height: usize,
    width: usize,
    patch: Patch,
    shares: Seq<u64>,
    energy: real,
    upto: int,
)
    requires
        real_shape(rows, height, width),
        patch.wf(),
        patch.within(height as nat, width as nat),
        0 <= upto <= patch.spec_count(),
    ensures
        real_shape(spread_upto(rows, patch, shares, energy, upto), height, width),
        real_total(spread_upto(rows, patch, shares, energy, upto)) == real_total(rows) + energy
            * weights_upto(shares, upto),
    decreases upto,
{
    if upto > 0 {
        let k = upto - 1;
        lemma_spread_upto(rows, height, width, patch, shares, energy, k);
        patch.lemma_slots(k as usize);
        let at = patch.spec_cell(k as usize);
        let before = spread_upto(rows, patch, shares, energy, k);
        lemma_real_credited(
            before,
            height,
            width,
            at.0 as int,
            at.1 as int,
            energy * weight_at(shares, k),
        );
        let sum = weights_upto(shares, k);
        let weight = weight_at(shares, k);
        assert(energy * (sum + weight) == energy * sum + energy * weight) by (nonlinear_arith);
    } else {
        assert(energy * 0real == 0real) by (nonlinear_arith);
    }
}

/// A cell that spreads its energy adds exactly that energy to the grid.
pub proof fn lemma_spread_conserves(
    rows: Seq<Seq<real>>,
    height: usize,
    width: usize,
    row: usize,
    col: usize,
    spread: Spread,
    energy: real,
)
    requires
        real_shape(rows, height, width),
        spread.fits(height, width, row, col),
    ensures
        real_shape(spread_into(rows, spread, energy), height, width),
        real_total(spread_into(rows, spread, energy)) == real_total(rows) + energy,
{
    lemma_spread_upto(
        rows,
        height,
        width,
        spread.patch,
        spread.weights@,
        energy,
        spread.patch.spec_count() as int,
    );
    lemma_weights_normalized(spread.weights@);
    assert(energy * 1real == energy) by (nonlinear_arith);
}

/// Once the first cells of a row have spread, the grid has gained exactly
/// their energy.
proof fn lemma_row_spread_upto(
    rows: Seq<Seq<real>>,
    height: usize,
    width: usize,
    row: usize,
    energies: Seq<real>,
    spreads: Seq<Spread>,
    upto: int,
)
    requires
        real_shape(rows, height, width),
        row < height,
        0 <= upto <= width,
        energies.len() == width,
        spreads.len() == width,
        forall|j: int| 0 <= j < width ==> (#[trigger] spreads[j]).fits(
            height,
            width,
            row,
            j as usize,
        ),
    ensures
        real_shape(row_spread_upto(rows, energies, spreads, upto), height, width),
        real_total(row_spread_upto(rows, energies, spreads, upto)) == real_total(rows)
            + real_row_total(energies.take(upto)),
    decreases upto,
{
    if upto > 0 {
        let j = upto - 1;
        lemma_row_spread_upto(rows, height, width, row, energies, spreads, j);
        lemma_spread_conserves(
            row_spread_upto(rows, energies, spreads, j),
            height,
            width,
            row,
            j as usize,
            spreads[j],
            energies[j],
        );
        lemma_real_row_step(energies, j);
    } else {
        assert(energies.take(0).len() == 0);
    }
}

/// Once the cells of the first rows have spread, the grid has gained exactly
/// their energy.
proof fn lemma_grid_spread_upto(
    rows: Seq<Seq<real>>,
    source: Seq<Seq<real>>,
    plan: Seq<Seq<Spread>>,
    height: usize,
    width: usize,
    upto: int,
)
    requires
        real_shape(rows, height, width),
        real_shape(source, height, width),
        plan_fits(plan, height, width),
        0 <= upto <= height,
    ensures
        real_shape(grid_spread_upto(rows, source, plan, upto), height, width),
        real_total(grid_spread_upto(rows, source, plan, upto)) == real_total(rows) + real_total(
            source.take(upto),
        ),
    decreases upto,
{
    if upto > 0 {
        let i = upto - 1;
        lemma_grid_spread_upto(rows, source, plan, height, width, i);
        assert forall|j: int| 0 <= j < width implies (#[trigger] plan[i][j]).fits(
            height,
            width,
            i as usize,
            j as usize,
        ) by {}
        lemma_row_spread_upto(
            grid_spread_upto(rows, source, plan, i),
            height,
            width,
            i as usize,
            source[i],
            plan[i],
            width as int,
        );
        assert(source[i].take(width as int) =~= source[i]);
        lemma_real_rows_step(source, i);
    } else {
        assert(source.take(0).len() == 0);
    }
}

/// The real-valued rule conserves energy: after a step the grid holds, all
/// cells together, exactly what it held before.
pub proof fn lemma_continuous_step_conserves(
    source: Seq<Seq<real>>,
    plan: Seq<Seq<Spread>>,
    height: usize,
    width: usize,
)
    requires
        real_shape(source, height, width),
        plan_fits(plan, height, width),
    ensures
        real_shape(continuous_step(source, plan, height, width), height, width),
        real_total(continuous_step(source, plan, height, width)) == real_total(source),
{
    let zeros = real_zeros(height, width);
    lemma_real_zeros(height, width, height as int);
    assert(zeros.take(height as int) =~= zeros);
    lemma_grid_spread_upto(zeros, source, plan, height, width, height as int);
    assert(source.take(height as int) =~= source);
}

} // verus!
