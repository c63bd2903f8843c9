//! Normalized random weights, held exactly.
//!
//! A weight vector holds one share per slot together with the sum of all
//! shares. The weight of a slot is the fraction `share / total`, so the
//! weights are non-negative and add up to exactly one.

use vstd::prelude::*;
use crate::grid::{lemma_row_tally_bounds_cell, lemma_row_tally_step, row_tally, Tally};
use crate::random::{RandomSource, UNIT};

verus! {

/// The largest number of slots: the cells of a three-by-three patch.
pub const MAX_SLOTS: usize = 9;

/// The sum of a sequence of values.
pub open spec fn sum_of(values: Seq<u64>) -> nat {
    row_tally(values, Tally::Energy)
}

/// The shares that a sequence of draws is normalized to: the draws themselves,
/// or one share each where every draw is zero.
pub open spec fn shares_of(draws: Seq<u64>) -> Seq<u64> {
    if sum_of(draws) > 0 {
        draws
    } else {
        Seq::new(draws.len(), |k: int| 1u64)
    }
}

/// What a share of `share` in `total` receives of `energy`, rounded down.
pub open spec fn portion_of(energy: u64, share: u64, total: u64) -> nat {
    ((energy * share) / (total as int)) as nat
}

/// The portions of `energy` that go to each slot, by the shares, rounded down.
pub open spec fn allocation(energy: u64, shares: Seq<u64>) -> Seq<u64> {
    Seq::new(shares.len(), |k: int| portion_of(energy, shares[k], sum_of(shares) as u64) as u64)
}

/// A portion is never more than the energy it is taken from.
proof fn lemma_portion_bounded(energy: u64, share: u64, total: u64)
    requires
        0 < total,
        share <= total,
    ensures
        portion_of(energy, share, total) <= energy,
        portion_of(energy, share, total) * total <= energy * share,
{
    let e = energy as int;
    let s = share as int;
    let t = total as int;
    assert((e * s) / t <= e && ((e * s) / t) * t <= e * s && 0 <= (e * s) / t)
        by (nonlinear_arith)
        requires
            0 <= e,
            0 <= s <= t,
            0 < t,
    ;
}

/// The sum of `count` ones.
proof fn lemma_sum_of_ones(count: nat)
    ensures
        sum_of(Seq::new(count, |k: int| 1u64)) == count,
    decreases count,
{
    let ones = Seq::new(count, |k: int| 1u64);
    if count > 0 {
        lemma_sum_of_ones((count - 1) as nat);
        assert(ones.drop_last() =~= Seq::new((count - 1) as nat, |k: int| 1u64));
    }
}

/// The first slots never receive more together than their shares entitle
/// them to.
proof fn lemma_allocation_prefix(energy: u64, shares: Seq<u64>, upto: int)
    requires
        0 <= upto <= shares.len(),
        0 < sum_of(shares) <= u64::MAX,
    ensures
        sum_of(allocation(energy, shares).take(upto)) * sum_of(shares) <= energy * sum_of(
            shares.take(upto),
        ),
    decreases upto,
{
    let total = sum_of(shares);
    let amounts = allocation(energy, shares);
    if upto > 0 {
        let k = upto - 1;
        lemma_allocation_prefix(energy, shares, k);
        lemma_row_tally_step(amounts, k, Tally::Energy);
        lemma_row_tally_step(shares, k, Tally::Energy);
        lemma_row_tally_bounds_cell(shares, k, Tally::Energy);
        lemma_portion_bounded(energy, shares[k], total as u64);
        let before = sum_of(amounts.take(k)) as int;
        let given = amounts[k] as int;
        let shares_before = sum_of(shares.take(k)) as int;
        let share = shares[k] as int;
        let e = energy as int;
        let t = total as int;
        assert(given == portion_of(energy, shares[k], total as u64));
        assert(sum_of(amounts.take(upto)) == before + given);
        assert(sum_of(shares.take(upto)) == shares_before + share);
        assert((before + given) * t <= e * (shares_before + share)) by (nonlinear_arith)
            requires
                before * t <= e * shares_before,
                given * t <= e * share,
        ;
    } else {
        assert(sum_of(amounts.take(0)) == 0);
        assert(sum_of(shares.take(0)) == 0);
        assert(0 * sum_of(shares) <= energy * 0) by (nonlinear_arith);
    }
}

/// All slots together never receive more than the energy shared out.
pub proof fn lemma_allocation_bounded(energy: u64, shares: Seq<u64>)
    requires
        0 < sum_of(shares) <= u64::MAX,
    ensures
        sum_of(allocation(energy, shares)) <= energy,
{
    let amounts = allocation(energy, shares);
    lemma_allocation_prefix(energy, shares, shares.len() as int);
    assert(amounts.take(shares.len() as int) =~= amounts);
    assert(shares.take(shares.len() as int) =~= shares);
    let given = sum_of(amounts) as int;
    let t = sum_of(shares) as int;
    let e = energy as int;
    assert(given <= e) by (nonlinear_arith)
        requires
            given * t <= e * t,
            0 < t,
    ;
}

/// The weight of a slot as a real number: its share of the sum of all shares.
pub open spec fn weight_at(shares: Seq<u64>, slot: int) -> real {
    (shares[slot] as int) as real / (sum_of(shares) as int) as real
}

/// The weights of the first `upto` slots, added up.
pub open spec fn weights_upto(shares: Seq<u64>, upto: int) -> real
    decreases upto,
{
    if upto <= 0 {
        0real
    } else {
        weights_upto(shares, upto - 1) + weight_at(shares, upto - 1)
    }
}

/// The weights of the first slots add up to the sum of their shares over the
/// sum of all shares.
proof fn lemma_weights_prefix(shares: Seq<u64>, upto: int)
    requires
        0 <= upto <= shares.len(),
        0 < sum_of(shares),
    ensures
        weights_upto(shares, upto) == (sum_of(shares.take(upto)) as int) as real / (sum_of(
            shares,
        ) as int) as real,
    decreases upto,
{
    let total = (sum_of(shares) as int) as real;
    if upto > 0 {
        lemma_weights_prefix(shares, upto - 1);
        lemma_row_tally_step(shares, upto - 1, Tally::Energy);
        let before = (sum_of(shares.take(upto - 1)) as int) as real;
        let share = (shares[upto - 1] as int) as real;
        assert(sum_of(shares.take(upto)) == sum_of(shares.take(upto - 1)) + shares[upto - 1]);
        assert((sum_of(shares.take(upto)) as int) as real == before + share);
        assert(before / total + share / total == (before + share) / total) by (nonlinear_arith)
            requires
                total > 0real,
        ;
    } else {
        assert(sum_of(shares.take(0)) == 0);
        assert(0real / total == 0real) by (nonlinear_arith)
            requires
                total > 0real,
        ;
    }
}

/// Weights are normalized: each lies between zero and one, and all of them
/// add up to exactly one.
pub proof fn lemma_weights_normalized(shares: Seq<u64>)
    requires
        0 < sum_of(shares),
    ensures
        weights_upto(shares, shares.len() as int) == 1real,
        forall|k: int|
            0 <= k < shares.len() ==> 0real <= #[trigger] weight_at(shares, k) <= 1real,
{
    let total = (sum_of(shares) as int) as real;
    lemma_weights_prefix(shares, shares.len() as int);
    assert(shares.take(shares.len() as int) =~= shares);
    assert(total / total == 1real) by (nonlinear_arith)
        requires
            total > 0real,
    ;
    assert forall|k: int| 0 <= k < shares.len() implies 0real <= #[trigger] weight_at(shares, k)
        <= 1real by {
        lemma_row_tally_bounds_cell(shares, k, Tally::Energy);
        let share = (shares[k] as int) as real;
        assert(0real <= share / total <= 1real) by (nonlinear_arith)
            requires
                0real <= share <= total,
                total > 0real,
        ;
    }
}

/// Non-negative weights that add up to one: the weight of slot `k` is
/// `self@[k] / self.total()`.
pub struct WeightVector {
    shares: Vec<u64>,
    total: u64,
}

impl View for WeightVector {
    type V = Seq<u64>;

    /// The shares, slot by slot.
    closed spec fn view(&self) -> Seq<u64> {
        self.shares@
    }
}

impl WeightVector {
    /// The sum of all shares.
    pub closed spec fn spec_total(&self) -> u64 {
        self.total
    }

    /// Between one and `MAX_SLOTS` shares, which add up to a positive total.
    pub open spec fn wf(&self) -> bool {
        &&& 1 <= self@.len() <= MAX_SLOTS
        &&& 0 < self.spec_total()
        &&& sum_of(self@) == self.spec_total()
    }

    /// Normalizes fractional draws: each draw becomes the share of its slot.
    /// Where every draw is zero, each slot gets an equal share instead.
    pub fn normalize(draws: Vec<u64>) -> (weights: WeightVector)
        requires
            1 <= draws.len() <= MAX_SLOTS,
            forall|k: int| 0 <= k < draws.len() ==> draws[k] < UNIT,
        ensures
            weights.wf(),
            weights@ == shares_of(draws@),
    {
        let count = draws.len();
        let mut total: u64 = 0;
        let mut slot: usize = 0;
        while slot < count
            invariant
                count == draws.len(),
                count <= MAX_SLOTS,
                slot <= count,
                forall|k: int| 0 <= k < draws.len() ==> draws[k] < UNIT,
                total == sum_of(draws@.take(slot as int)),
                total <= slot * UNIT,
            decreases count - slot,
        {
            proof {
                lemma_row_tally_step(draws@, slot as int, Tally::Energy);
            }
            total = total + draws[slot];
            slot = slot + 1;
        }
        assert(draws@.take(count as int) =~= draws@);
        if total > 0 {
            WeightVector { shares: draws, total }
        } else {
            let mut shares: Vec<u64> = Vec::new();
            let mut slot: usize = 0;
            while slot < count
                invariant
                    count <= MAX_SLOTS,
                    slot <= count,
                    shares@ =~= Seq::new(slot as nat, |k: int| 1u64),
                decreases count - slot,
            {
                shares.push(1);
                slot = slot + 1;
            }
            proof {
                lemma_sum_of_ones(count as nat);
            }
            WeightVector { shares, total: count as u64 }
        }
    }

    /// The number of slots.
    pub fn len(&self) -> (count: usize)
        ensures
            count == self@.len(),
    {
        self.shares.len()
    }

    /// The share of one slot.
    pub fn share(&self, slot: usize) -> (share: u64)
        requires
            slot < self@.len(),
        ensures
            share == self@[slot as int],
    {
        self.shares[slot]
    }

    /// The sum of all shares.
    #[verifier::when_used_as_spec(spec_total)]
    pub fn total(&self) -> (total: u64)
        ensures
            total == self.spec_total(),
    {
        self.total
    }

    /// What one slot receives of `energy`: its weight times the energy,
    /// rounded down.
    pub fn portion(&self, energy: u64, slot: usize) -> (amount: u64)
        requires
            self.wf(),
            slot < self@.len(),
        ensures
            amount == portion_of(energy, self@[slot as int], self.spec_total()),
            amount <= energy,
    {
        let share = self.shares[slot];
        proof {
            lemma_row_tally_bounds_cell(self@, slot as int, Tally::Energy);
            lemma_portion_bounded(energy, share, self.total);
            assert(energy * share <= 0xffff_ffff_ffff_ffff * 0xffff_ffff_ffff_ffff)
                by (nonlinear_arith)
                requires
                    0 <= energy <= 0xffff_ffff_ffff_ffff,
                    0 <= share <= 0xffff_ffff_ffff_ffff,
            ;
        }
        let product: u128 = energy as u128 * share as u128;
        let amount: u128 = product / self.total as u128;
        amount as u64
    }

    /// What each slot receives of `energy`, rounded down. The amounts never
    /// add up to more than `energy`.
    pub fn allocate(&self, energy: u64) -> (amounts: Vec<u64>)
        requires
            self.wf(),
        ensures
            amounts@ == allocation(energy, self@),
            sum_of(amounts@) <= energy,
    {
        let count = self.shares.len();
        let mut amounts: Vec<u64> = Vec::new();
        let mut slot: usize = 0;
        while slot < count
            invariant
                self.wf(),
                count == self@.len(),
                slot <= count,
                amounts@ =~= allocation(energy, self@).take(slot as int),
            decreases count - slot,
        {
            let amount = self.portion(energy, slot);
            amounts.push(amount);
            slot = slot + 1;
        }
        proof {
            assert(allocation(energy, self@).take(count as int) =~= allocation(energy, self@));
            lemma_allocation_bounded(energy, self@);
        }
        amounts
    }
}

/// Draws `count` independent fractions.
pub fn draw_fractions(rng: &mut RandomSource, count: usize) -> (draws: Vec<u64>)
    ensures
        draws.len() == count,
        forall|k: int| 0 <= k < draws.len() ==> draws[k] < UNIT,
{
    let mut draws: Vec<u64> = Vec::new();
    let mut slot: usize = 0;
    while slot < count
        invariant
            slot <= count,
            draws.len() == slot,
            forall|k: int| 0 <= k < draws.len() ==> draws[k] < UNIT,
        decreases count - slot,
    {
        let drawn = rng.fraction();
        draws.push(drawn);
        slot = slot + 1;
    }
    draws
}

/// Draws `slots` independent fractions and normalizes them: `slots`
/// non-negative weights that add up to exactly one.
pub fn random_weights(rng: &mut RandomSource, slots: usize) -> (weights: WeightVector)
    requires
        1 <= slots <= MAX_SLOTS,
    ensures
        weights.wf(),
        weights@.len() == slots,
{
    WeightVector::normalize(draw_fractions(rng, slots))
}

} // verus!
