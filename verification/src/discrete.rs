//! The integer diffusion rule.
//!
//! Energy comes in indivisible units. A cell that diffuses hands a rounded-down
//! portion to each cell of its patch but the last, by random weights, and what
//! is left over to one cell of the patch picked at random, so that not a unit
//! is lost or made. A cell that does not diffuse contributes nothing to the
//! next grid: its energy is dropped.

use vstd::prelude::*;
use crate::config::Config;
use crate::grid::{
    all_zero, grid_total, lemma_row_prefix_bounded, lemma_row_tally_step,
    lemma_tally_before_bounded, lemma_tally_before_ends, lemma_tally_before_step,
    lemma_tally_before_wrap, lemma_total_bounds_cell, tally_before, Grid, Tally,
};
use crate::neighborhood::{moore_patch, moore_patch_of, Patch};
use crate::random::{RandomSource, UNIT};
use crate::weights::{allocation, draw_fractions, shares_of, sum_of, WeightVector};

verus! {

/// What a slot of the patch receives from a cell that diffuses `energy`: its
/// weighted amount, if it has one, and the remainder, if it is the lucky slot.
pub open spec fn slot_credit(amounts: Seq<u64>, energy: u64, lucky: int, slot: int) -> int {
    (if 0 <= slot < amounts.len() {
        amounts[slot] as int
    } else {
        0
    }) + (if slot == lucky {
        energy - sum_of(amounts)
    } else {
        0
    })
}

/// What the cell (`row`, `col`) receives from a cell that diffuses `energy`
/// into `patch`.
pub open spec fn cell_credit(
    patch: Patch,
    amounts: Seq<u64>,
    energy: u64,
    lucky: int,
    row: int,
    col: int,
) -> int {
    if patch.contains(row, col) {
        slot_credit(amounts, energy, lucky, patch.slot_of(row, col))
    } else {
        0
    }
}

/// The credits to the first `upto` slots.
pub open spec fn credits_upto(amounts: Seq<u64>, energy: u64, lucky: int, upto: int) -> int
    decreases upto,
{
    if upto <= 0 {
        0
    } else {
        credits_upto(amounts, energy, lucky, upto - 1) + slot_credit(
            amounts,
            energy,
            lucky,
            upto - 1,
        )
    }
}

/// The credits to the first slots are the weighted amounts among them, and
/// the remainder once the lucky slot is among them.
proof fn lemma_credits_upto(amounts: Seq<u64>, energy: u64, lucky: int, upto: int)
    requires
        0 <= upto,
        0 <= lucky,
    ensures
        credits_upto(amounts, energy, lucky, upto) == sum_of(
            amounts.take(if upto <= amounts.len() {
                upto
            } else {
                amounts.len() as int
            }),
        ) + (if lucky < upto {
            energy - sum_of(amounts)
        } else {
            0
        }),
    decreases upto,
{
    if upto > 0 {
        lemma_credits_upto(amounts, energy, lucky, upto - 1);
        if upto <= amounts.len() {
            lemma_row_tally_step(amounts, upto - 1, Tally::Energy);
        }
    } else {
        assert(amounts.take(0).len() == 0);
    }
}

/// A cell that diffuses hands out exactly its energy: the credits to all
/// slots of its patch add up to the energy it held.
pub proof fn lemma_credits_conserve(amounts: Seq<u64>, energy: u64, lucky: int, slots: int)
    requires
        amounts.len() < slots,
        0 <= lucky < slots,
    ensures
        credits_upto(amounts, energy, lucky, slots) == energy,
{
    lemma_credits_upto(amounts, energy, lucky, slots);
    assert(amounts.take(amounts.len() as int) =~= amounts);
}

/// Credits the cells of `patch`: slot `k` receives `amounts[k]`, and the slot
/// `lucky` receives in addition what `amounts` leaves of `energy`.
pub fn spread(working: &mut Grid, patch: Patch, energy: u64, amounts: &Vec<u64>, lucky: usize)
    requires
        old(working).wf(),
        patch.wf(),
        patch.within(old(working).spec_height() as nat, old(working).spec_width() as nat),
        amounts.len() < patch.spec_count(),
        sum_of(amounts@) <= energy,
        lucky < patch.spec_count(),
        grid_total(old(working)@) + energy <= u64::MAX,
    ensures
        final(working).wf(),
        final(working).spec_height() == old(working).spec_height(),
        final(working).spec_width() == old(working).spec_width(),
        forall|row: int, col: int|
            old(working).holds(row, col) ==> (#[trigger] final(working)@[row][col]) == old(
                working,
            )@[row][col] + cell_credit(patch, amounts@, energy, lucky as int, row, col),
        grid_total(final(working)@) == grid_total(old(working)@) + energy,
{
    let count = amounts.len();
    let mut allocated: u64 = 0;
    let mut slot: usize = 0;
    while slot < count
        invariant
            working.wf(),
            working.spec_height() == old(working).spec_height(),
            working.spec_width() == old(working).spec_width(),
            patch.wf(),
            patch.within(working.spec_height() as nat, working.spec_width() as nat),
            count == amounts.len(),
            count < patch.spec_count(),
            slot <= count,
            sum_of(amounts@) <= energy,
            grid_total(old(working)@) + energy <= u64::MAX,
            allocated == sum_of(amounts@.take(slot as int)),
            grid_total(working@) == grid_total(old(working)@) + allocated,
            forall|row: int, col: int|
                working.holds(row, col) ==> (#[trigger] working@[row][col]) == old(
                    working,
                )@[row][col] + (if patch.contains(row, col) && patch.slot_of(row, col) < slot {
                    amounts@[patch.slot_of(row, col)] as int
                } else {
                    0
                }),
        decreases count - slot,
    {
        let (row, col) = patch.cell(slot);
        let amount = amounts[slot];
        proof {
            lemma_row_tally_step(amounts@, slot as int, Tally::Energy);
            lemma_row_prefix_bounded(amounts@, slot as int + 1, Tally::Energy);
            lemma_total_bounds_cell(working@, row as int, col as int);
        }
        let ghost before = working@;
        working.credit(row, col, amount);
        proof {
            assert forall|r: int, c: int| working.holds(r, c) implies (#[trigger] working@[r][c])
                == old(working)@[r][c] + (if patch.contains(r, c) && patch.slot_of(r, c) < slot
                + 1 {
                amounts@[patch.slot_of(r, c)] as int
            } else {
                0
            }) by {
                assert(before[r][c] == old(working)@[r][c] + (if patch.contains(r, c)
                    && patch.slot_of(r, c) < slot {
                    amounts@[patch.slot_of(r, c)] as int
                } else {
                    0
                }));
                if patch.contains(r, c) {
                    patch.lemma_cell_of_slot(r, c);
                }
            }
        }
        allocated = allocated + amount;
        slot = slot + 1;
    }
    let (row, col) = patch.cell(lucky);
    proof {
        assert(amounts@.take(count as int) =~= amounts@);
        lemma_total_bounds_cell(working@, row as int, col as int);
    }
    let ghost before = working@;
    working.credit(row, col, energy - allocated);
    proof {
        assert forall|r: int, c: int| old(working).holds(r, c) implies (
        #[trigger] working@[r][c]) == old(working)@[r][c] + cell_credit(
            patch,
            amounts@,
            energy,
            lucky as int,
            r,
            c,
        ) by {
            assert(before[r][c] == old(working)@[r][c] + (if patch.contains(r, c)
                && patch.slot_of(r, c) < count {
                amounts@[patch.slot_of(r, c)] as int
            } else {
                0
            }));
            if patch.contains(r, c) {
                patch.lemma_cell_of_slot(r, c);
            }
        }
    }
}

/// The weighted amounts that a cell holding `energy` hands out on the given
/// fractional draws: none where there is no draw, else the portions by the
/// normalized draws.
pub open spec fn amounts_of(energy: u64, draws: Seq<u64>) -> Seq<u64> {
    if draws.len() == 0 {
        Seq::empty()
    } else {
        allocation(energy, shares_of(draws))
    }
}

/// Diffuses the `energy` of the cell (`row`, `col`) into `working`, on given
/// random choices: `draws` holds one fractional draw for each cell of the
/// cell's patch but the last, `lucky` is the slot that receives the remainder.
/// Every cell of the patch is credited with its rounded-down portion, the lucky
/// one with the remainder as well; the grid's total grows by exactly `energy`.
pub fn diffuse_cell(
    working: &mut Grid,
    row: usize,
    col: usize,
    energy: u64,
    draws: Vec<u64>,
    lucky: usize,
)
    requires
        old(working).wf(),
        old(working).holds(row as int, col as int),
        draws.len() + 1 == moore_patch_of(
            old(working).spec_height(),
            old(working).spec_width(),
            row,
            col,
        ).spec_count(),
        forall|k: int| 0 <= k < draws.len() ==> draws[k] < UNIT,
        lucky <= draws.len(),
        grid_total(old(working)@) + energy <= u64::MAX,
    ensures
        final(working).wf(),
        final(working).spec_height() == old(working).spec_height(),
        final(working).spec_width() == old(working).spec_width(),
        forall|r: int, c: int|
            old(working).holds(r, c) ==> (#[trigger] final(working)@[r][c]) == old(
                working,
            )@[r][c] + cell_credit(
                moore_patch_of(old(working).spec_height(), old(working).spec_width(), row, col),
                amounts_of(energy, draws@),
                energy,
                lucky as int,
                r,
                c,
            ),
        grid_total(final(working)@) == grid_total(old(working)@) + energy,
{
    let patch = moore_patch(working.height(), working.width(), row, col);
    let slots = patch.count();
    let amounts = if slots == 1 {
        Vec::new()
    } else {
        let weights = WeightVector::normalize(draws);
        weights.allocate(energy)
    };
    assert(amounts@ =~= amounts_of(energy, draws@));
    spread(working, patch, energy, &amounts, lucky);
}

/// The random choices made for one cell during a step: the fraction rolled
/// against the heat and, where the cell diffuses, the fractional draws for the
/// weights and the slot that receives the remainder.
pub struct CellChoice {
    pub roll: u64,
    pub draws: Seq<u64>,
    pub lucky: int,
}

/// The choices are ones that can be drawn for a cell whose patch has `slots`
/// cells.
pub open spec fn choice_fits(choice: CellChoice, heat: u64, slots: int) -> bool {
    &&& choice.roll < UNIT
    &&& choice.roll <= heat ==> {
        &&& choice.draws.len() + 1 == slots
        &&& forall|k: int| 0 <= k < choice.draws.len() ==> choice.draws[k] < UNIT
        &&& 0 <= choice.lucky < slots
    }
}

/// There is one fitting choice for every cell of the grid.
pub open spec fn choices_fit(
    choices: Seq<Seq<CellChoice>>,
    heat: u64,
    height: usize,
    width: usize,
) -> bool {
    &&& choices.len() == height
    &&& forall|i: int| 0 <= i < height ==> (#[trigger] choices[i]).len() == width
    &&& forall|i: int, j: int|
        0 <= i < height && 0 <= j < width ==> choice_fits(
            #[trigger] choices[i][j],
            heat,
            moore_patch_of(height, width, i as usize, j as usize).spec_count() as int,
        )
}

/// What the cell (`r`, `c`) is handed by the cell (`i`, `j`), which holds
/// `energy`: its credit where that cell diffuses, nothing where it does not.
pub open spec fn handed(
    height: usize,
    width: usize,
    i: int,
    j: int,
    energy: u64,
    heat: u64,
    choice: CellChoice,
    r: int,
    c: int,
) -> int {
    if choice.roll <= heat {
        cell_credit(
            moore_patch_of(height, width, i as usize, j as usize),
            amounts_of(energy, choice.draws),
            energy,
            choice.lucky,
            r,
            c,
        )
    } else {
        0
    }
}

/// What the cell (`r`, `c`) is handed by the first `upto` cells of row `i`.
pub open spec fn row_handed(
    height: usize,
    width: usize,
    energies: Seq<u64>,
    choices: Seq<CellChoice>,
    heat: u64,
    i: int,
    upto: int,
    r: int,
    c: int,
) -> int
    decreases upto,
{
    if upto <= 0 {
        0
    } else {
        row_handed(height, width, energies, choices, heat, i, upto - 1, r, c) + handed(
            height,
            width,
            i,
            upto - 1,
            energies[upto - 1],
            heat,
            choices[upto - 1],
            r,
            c,
        )
    }
}

/// What the cell (`r`, `c`) is handed by the cells of the first `upto` rows.
pub open spec fn grid_handed(
    height: usize,
    width: usize,
    source: Seq<Seq<u64>>,
    choices: Seq<Seq<CellChoice>>,
    heat: u64,
    upto: int,
    r: int,
    c: int,
) -> int
    decreases upto,
{
    if upto <= 0 {
        0
    } else {
        grid_handed(height, width, source, choices, heat, upto - 1, r, c) + row_handed(
            height,
            width,
            source[upto - 1],
            choices[upto - 1],
            heat,
            upto - 1,
            width as int,
            r,
            c,
        )
    }
}

/// A step on the choices `choices` turns `source`, written over `buffer`,
/// into `result`: every cell ends up with what the buffer held there and what
/// all cells of `source` handed to it.
pub open spec fn step_explained(
    source: Seq<Seq<u64>>,
    buffer: Seq<Seq<u64>>,
    heat: u64,
    height: usize,
    width: usize,
    choices: Seq<Seq<CellChoice>>,
    result: Seq<Seq<u64>>,
) -> bool {
    &&& choices_fit(choices, heat, height, width)
    &&& forall|r: int, c: int|
        0 <= r < height && 0 <= c < width ==> (#[trigger] result[r][c]) == buffer[r][c]
            + grid_handed(height, width, source, choices, heat, height as int, r, c)
}

/// What a row hands over depends only on the choices for the cells counted.
proof fn lemma_row_handed_frame(
    height: usize,
    width: usize,
    energies: Seq<u64>,
    a: Seq<CellChoice>,
    b: Seq<CellChoice>,
    heat: u64,
    i: int,
    upto: int,
    r: int,
    c: int,
)
    requires
        forall|k: int| 0 <= k < upto ==> a[k] == b[k],
    ensures
        row_handed(height, width, energies, a, heat, i, upto, r, c) == row_handed(
            height,
            width,
            energies,
            b,
            heat,
            i,
            upto,
            r,
            c,
        ),
    decreases upto,
{
    if upto > 0 {
        lemma_row_handed_frame(height, width, energies, a, b, heat, i, upto - 1, r, c);
    }
}

/// What the first rows hand over depends only on the choices for those rows.
proof fn lemma_grid_handed_frame(
    height: usize,
    width: usize,
    source: Seq<Seq<u64>>,
    a: Seq<Seq<CellChoice>>,
    b: Seq<Seq<CellChoice>>,
    heat: u64,
    upto: int,
    r: int,
    c: int,
)
    requires
        forall|k: int| 0 <= k < upto ==> a[k] == b[k],
    ensures
        grid_handed(height, width, source, a, heat, upto, r, c) == grid_handed(
            height,
            width,
            source,
            b,
            heat,
            upto,
            r,
            c,
        ),
    decreases upto,
{
    if upto > 0 {
        lemma_grid_handed_frame(height, width, source, a, b, heat, upto - 1, r, c);
    }
}

/// Advances the grid by one step of the integer rule.
///
/// Each cell of `lagged`, row by row, diffuses with probability `config.heat`:
/// a fraction is drawn, and the cell diffuses unless the draw exceeds the heat.
/// A cell that diffuses spreads all of its energy over its patch in `working`,
/// by fresh random weights and a fresh lucky slot. A cell that does not
/// diffuse adds nothing to `working`. At the end `lagged` takes over the cells
/// of `working`, and `working` is set to zero.
///
/// The new grid is the outcome of the rule on some fitting choice for every
/// cell. Whatever is drawn, no energy is made, and at full heat none is lost.
pub fn step(lagged: &mut Grid, working: &mut Grid, config: &Config, rng: &mut RandomSource)
    requires
        old(lagged).wf(),
        old(working).wf(),
        old(working).spec_height() == old(lagged).spec_height(),
        old(working).spec_width() == old(lagged).spec_width(),
        grid_total(old(lagged)@) + grid_total(old(working)@) <= u64::MAX,
    ensures
        final(lagged).wf(),
        final(working).wf(),
        final(lagged).spec_height() == old(lagged).spec_height(),
        final(lagged).spec_width() == old(lagged).spec_width(),
        final(working).spec_height() == old(lagged).spec_height(),
        final(working).spec_width() == old(lagged).spec_width(),
        all_zero(final(working)@),
        grid_total(final(working)@) == 0,
        exists|choices: Seq<Seq<CellChoice>>| #[trigger]
            step_explained(
                old(lagged)@,
                old(working)@,
                config.heat,
                old(lagged).spec_height(),
                old(lagged).spec_width(),
                choices,
                final(lagged)@,
            ),
        grid_total(old(working)@) <= grid_total(final(lagged)@),
        grid_total(final(lagged)@) <= grid_total(old(lagged)@) + grid_total(old(working)@),
        config.heat >= UNIT ==> grid_total(final(lagged)@) == grid_total(old(lagged)@)
            + grid_total(old(working)@),
{
    let height = lagged.height();
    let width = lagged.width();
    let heat = config.heat;
    let ghost source = lagged@;
    let ghost buffer = working@;
    let ghost start = grid_total(working@);
    let ghost mut done: Seq<Seq<CellChoice>> = Seq::empty();
    proof {
        lemma_tally_before_ends(source, Tally::Energy);
    }
    let mut row: usize = 0;
    while row < height
        invariant
            lagged.wf(),
            working.wf(),
            lagged@ == source,
            height == lagged.spec_height(),
            width == lagged.spec_width(),
            working.spec_height() == height,
            working.spec_width() == width,
            row <= height,
            grid_total(source) + start <= u64::MAX,
            start <= grid_total(working@),
            grid_total(working@) <= start + tally_before(source, row as int, 0, Tally::Energy),
            heat >= UNIT ==> grid_total(working@) == start + tally_before(
                source,
                row as int,
                0,
                Tally::Energy,
            ),
            done.len() == row,
            forall|i: int| 0 <= i < row ==> (#[trigger] done[i]).len() == width,
            forall|i: int, j: int|
                0 <= i < row && 0 <= j < width ==> choice_fits(
                    #[trigger] done[i][j],
                    heat,
                    moore_patch_of(height, width, i as usize, j as usize).spec_count() as int,
                ),
            forall|r: int, c: int|
                0 <= r < height && 0 <= c < width ==> (#[trigger] working@[r][c]) == buffer[r][c]
                    + grid_handed(height, width, source, done, heat, row as int, r, c),
        decreases height - row,
    {
        let ghost mut current: Seq<CellChoice> = Seq::empty();
        let mut col: usize = 0;
        while col < width
            invariant
                lagged.wf(),
                working.wf(),
                lagged@ == source,
                height == lagged.spec_height(),
                width == lagged.spec_width(),
                working.spec_height() == height,
                working.spec_width() == width,
                row < height,
                col <= width,
                grid_total(source) + start <= u64::MAX,
                start <= grid_total(working@),
                grid_total(working@) <= start + tally_before(
                    source,
                    row as int,
                    col as int,
                    Tally::Energy,
                ),
                heat >= UNIT ==> grid_total(working@) == start + tally_before(
                    source,
                    row as int,
                    col as int,
                    Tally::Energy,
                ),
                current.len() == col,
                forall|j: int|
                    0 <= j < col ==> choice_fits(
                        #[trigger] current[j],
                        heat,
                        moore_patch_of(height, width, row, j as usize).spec_count() as int,
                    ),
                forall|r: int, c: int|
                    0 <= r < height && 0 <= c < width ==> (#[trigger] working@[r][c])
                        == buffer[r][c] + grid_handed(
                        height,
                        width,
                        source,
                        done,
                        heat,
                        row as int,
                        r,
                        c,
                    ) + row_handed(
                        height,
                        width,
                        source[row as int],
                        current,
                        heat,
                        row as int,
                        col as int,
                        r,
                        c,
                    ),
            decreases width - col,
        {
            let energy = lagged.get(row, col);
            proof {
                lemma_tally_before_step(source, row as int, col as int, Tally::Energy);
                lemma_tally_before_bounded(source, row as int, col as int + 1, Tally::Energy);
            }
            let ghost before = working@;
            let ghost choice;
            let roll = rng.fraction();
            if roll <= heat {
                let patch = moore_patch(height, width, row, col);
                let slots = patch.count();
                let draws = draw_fractions(rng, slots - 1);
                let lucky = rng.index_below(slots);
                proof {
                    choice = CellChoice { roll, draws: draws@, lucky: lucky as int };
                }
                diffuse_cell(working, row, col, energy, draws, lucky);
            } else {
                proof {
                    choice = CellChoice { roll, draws: Seq::empty(), lucky: 0 };
                }
            }
            proof {
                let extended = current.push(choice);
                assert forall|r: int, c: int| 0 <= r < height && 0 <= c < width implies (
                #[trigger] working@[r][c]) == buffer[r][c] + grid_handed(
                    height,
                    width,
                    source,
                    done,
                    heat,
                    row as int,
                    r,
                    c,
                ) + row_handed(
                    height,
                    width,
                    source[row as int],
                    extended,
                    heat,
                    row as int,
                    col as int + 1,
                    r,
                    c,
                ) by {
                    lemma_row_handed_frame(
                        height,
                        width,
                        source[row as int],
                        current,
                        extended,
                        heat,
                        row as int,
                        col as int,
                        r,
                        c,
                    );
                    assert(working@[r][c] == before[r][c] + handed(
                        height,
                        width,
                        row as int,
                        col as int,
                        energy,
                        heat,
                        choice,
                        r,
                        c,
                    ));
                    assert(extended[col as int] == choice);
                }
                assert forall|j: int| 0 <= j < col + 1 implies choice_fits(
                    #[trigger] extended[j],
                    heat,
                    moore_patch_of(height, width, row, j as usize).spec_count() as int,
                ) by {
                    if j < col {
                        assert(extended[j] == current[j]);
                    }
                }
                current = extended;
            }
            col = col + 1;
        }
        proof {
            lemma_tally_before_wrap(source, row as int, Tally::Energy);
            let extended = done.push(current);
            assert forall|r: int, c: int| 0 <= r < height && 0 <= c < width implies (
            #[trigger] working@[r][c]) == buffer[r][c] + grid_handed(
                height,
                width,
                source,
                extended,
                heat,
                row as int + 1,
                r,
                c,
            ) by {
                lemma_grid_handed_frame(
                    height,
                    width,
                    source,
                    done,
                    extended,
                    heat,
                    row as int,
                    r,
                    c,
                );
                assert(extended[row as int] == current);
            }
            assert forall|i: int| 0 <= i < row + 1 implies (#[trigger] extended[i]).len()
                == width by {
                if i < row {
                    assert(extended[i] == done[i]);
                }
            }
            assert forall|i: int, j: int| 0 <= i < row + 1 && 0 <= j < width implies choice_fits(
                #[trigger] extended[i][j],
                heat,
                moore_patch_of(height, width, i as usize, j as usize).spec_count() as int,
            ) by {
                if i < row {
                    assert(extended[i] == done[i]);
                    assert(choice_fits(
                        done[i][j],
                        heat,
                        moore_patch_of(height, width, i as usize, j as usize).spec_count() as int,
                    ));
                } else {
                    assert(extended[i] == current);
                    assert(choice_fits(
                        current[j],
                        heat,
                        moore_patch_of(height, width, row, j as usize).spec_count() as int,
                    ));
                }
            }
            done = extended;
        }
        row = row + 1;
    }
    proof {
        lemma_tally_before_ends(source, Tally::Energy);
    }
    lagged.copy_from(working);
    working.clear();
    proof {
        assert(step_explained(source, buffer, heat, height, width, done, lagged@));
    }
}

} // verus!
