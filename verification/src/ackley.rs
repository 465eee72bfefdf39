//! The Ackley benchmark problem, as far as it is free of real numbers: the
//! order in which the coordinates of a point are tried, and the choice of
//! the coordinates that a perturbation alters. A host that works on real
//! coordinates wraps these and does the arithmetic.

use crate::random::draw_in_range;
use crate::random::draw_weighted;
use crate::random::shuffle;
use crate::random::total_weight;
use rand_chacha::ChaCha20Rng;
use vstd::prelude::*;

verus! {

/// `order` lists each of the numbers below `dimensions` once.
pub open spec fn is_order_of(order: Seq<usize>, dimensions: usize) -> bool {
    &&& order.len() == dimensions
    &&& order.no_duplicates()
    &&& forall|i: int| 0 <= i < order.len() ==> order[i] < dimensions
}

/// The numbers below `dimensions`, in ascending order.
pub open spec fn ascending_order(dimensions: usize) -> Seq<usize> {
    Seq::new(dimensions as nat, |i: int| i as usize)
}

/// Lists the numbers below `dimensions` in ascending order.
fn list_dimensions(dimensions: usize) -> (order: Vec<usize>)
    ensures
        order@ == ascending_order(dimensions),
{
    let mut order: Vec<usize> = Vec::new();
    let mut next: usize = 0;
    while next < dimensions
        invariant
            next <= dimensions,
            order@ == ascending_order(next),
        decreases dimensions - next,
    {
        order.push(next);
        next += 1;
    }
    order
}

/// A list of numbers with the same members as often as the ascending order
/// is an order of the dimensions.
proof fn lemma_shuffled_is_order(order: Seq<usize>, dimensions: usize)
    requires
        order.to_multiset() == ascending_order(dimensions).to_multiset(),
    ensures
        is_order_of(order, dimensions),
{
    let plain = ascending_order(dimensions);
    plain.to_multiset_ensures();
    order.to_multiset_ensures();
    plain.lemma_multiset_has_no_duplicates();
    order.lemma_multiset_has_no_duplicates_conv();
    assert forall|i: int| 0 <= i < order.len() implies order[i] < dimensions by {
        assert(order.to_multiset().count(order[i]) > 0);
    }
}

/// Draws the order in which the coordinates of a point are tried: each of
/// the numbers below `dimensions` once.
pub fn draw_order(dimensions: usize, rng: &mut ChaCha20Rng) -> (order: Vec<usize>)
    ensures
        is_order_of(order@, dimensions),
{
    let mut order = list_dimensions(dimensions);
    shuffle(&mut order, rng);
    proof {
        lemma_shuffled_is_order(order@, dimensions);
    }
    order
}

/// Which way a move shifts a coordinate.
#[derive(Clone, Copy, Debug, PartialEq, Eq, Structural)]
pub enum MoveUpOrDown {
    Up,
    Down,
}

/// The moves along the coordinates in the given order: each coordinate first
/// up, then down.
pub open spec fn moves_along(order: Seq<usize>) -> Seq<(usize, MoveUpOrDown)> {
    Seq::new(
        2 * order.len(),
        |i: int|
            (
                order[i / 2],
                if i % 2 == 0 {
                    MoveUpOrDown::Up
                } else {
                    MoveUpOrDown::Down
                },
            ),
    )
}

/// Lists the moves along the coordinates in the given order.
pub fn list_moves(order: &Vec<usize>) -> (moves: Vec<(usize, MoveUpOrDown)>)
    ensures
        moves@ == moves_along(order@),
{
    let mut moves: Vec<(usize, MoveUpOrDown)> = Vec::new();
    let mut next: usize = 0;
    while next < order.len()
        invariant
            next <= order.len(),
            moves@ == moves_along(order@.take(next as int)),
        decreases order.len() - next,
    {
        moves.push((order[next], MoveUpOrDown::Up));
        moves.push((order[next], MoveUpOrDown::Down));
        next += 1;
    }
    moves
}

/// How a perturbation of a point proceeds.
#[derive(Clone, Copy, Debug, PartialEq, Eq, Structural)]
pub enum AckleyPerturbationStrategy {
    /// Some of the coordinates get new values.
    ChangeSubset,
    /// The point stays as it is.
    DoNothing,
}

/// Perturbs a point by a strategy that it draws by weight.
pub struct AckleyPerturbation {
    strategy: Vec<(AckleyPerturbationStrategy, u64)>,
}

/// The weight of [`AckleyPerturbationStrategy::ChangeSubset`] by default.
pub const DEFAULT_CHANGE_SUBSET_WEIGHT: u64 = 100;

/// The weight of [`AckleyPerturbationStrategy::DoNothing`] by default.
pub const DEFAULT_DO_NOTHING_WEIGHT: u64 = 10;

impl AckleyPerturbation {
    /// The strategies with their weights, in the order given.
    pub closed spec fn strategies(&self) -> Seq<(AckleyPerturbationStrategy, u64)> {
        self.strategy@
    }

    /// A perturbation that draws among `strategy`, each with a chance in
    /// proportion to its weight.
    pub fn new(strategy: Vec<(AckleyPerturbationStrategy, u64)>) -> (perturbation: Self)
        ensures
            perturbation.strategies() == strategy@,
    {
        Self { strategy }
    }

    /// The sum of the weights, or `None` where it is too large for `u64`.
    fn sum_of_weights(&self) -> (sum: Option<u64>)
        ensures
            sum is Some <==> total_weight(self.strategies()) <= u64::MAX,
            sum matches Some(total) ==> total == total_weight(self.strategies()),
    {
        let mut total: u64 = 0;
        let mut next: usize = 0;
        while next < self.strategy.len()
            invariant
                next <= self.strategy.len(),
                total == total_weight(self.strategy@.take(next as int)),
            decreases self.strategy.len() - next,
        {
            let weight = self.strategy[next].1;
            proof {
                let seen = self.strategy@.take(next + 1);
                assert(seen.drop_last() =~= self.strategy@.take(next as int));
                lemma_total_weight_grows(self.strategy@, next + 1);
            }
            if weight > u64::MAX - total {
                return None;
            }
            total += weight;
            next += 1;
        }
        assert(self.strategy@.take(self.strategy.len() as int) =~= self.strategy@);
        Some(total)
    }

    /// Draws a strategy, each with a chance in proportion to its weight.
    /// There is nothing to draw where the weights add up to zero, or to more
    /// than `u64` holds.
    pub fn draw_strategy(&self, rng: &mut ChaCha20Rng) -> (drawn: Option<AckleyPerturbationStrategy>)
        ensures
            drawn is Some <==> 0 < total_weight(self.strategies()) <= u64::MAX,
            drawn matches Some(strategy) ==> exists|i: int|
                0 <= i < self.strategies().len() && #[trigger] self.strategies()[i].0 == strategy
                    && self.strategies()[i].1 > 0,
    {
        match self.sum_of_weights() {
            None => None,
            Some(total) => {
                if total == 0 {
                    None
                } else {
                    match draw_weighted(&self.strategy, rng) {
                        Some(entry) => Some(entry.0),
                        None => None,
                    }
                }
            },
        }
    }

    /// Draws the coordinates that a perturbation alters: fewer than
    /// `dimensions` of them, none twice.
    pub fn draw_dimensions(dimensions: usize, rng: &mut ChaCha20Rng) -> (chosen: Vec<usize>)
        requires
            dimensions > 0,
        ensures
            chosen@.len() < dimensions,
            chosen@.no_duplicates(),
            forall|i: int| 0 <= i < chosen@.len() ==> chosen@[i] < dimensions,
    {
        let mut order = draw_order(dimensions, rng);
        let number = draw_in_range(rng, 0, order.len());
        order.truncate(number);
        order
    }
}

impl Default for AckleyPerturbation {
    /// A perturbation that changes a subset of the coordinates ten times as
    /// often as it does nothing.
    fn default() -> (perturbation: Self)
        ensures
            perturbation.strategies() == seq![
                (AckleyPerturbationStrategy::ChangeSubset, DEFAULT_CHANGE_SUBSET_WEIGHT),
                (AckleyPerturbationStrategy::DoNothing, DEFAULT_DO_NOTHING_WEIGHT),
            ],
    {
        let mut strategy: Vec<(AckleyPerturbationStrategy, u64)> = Vec::new();
        strategy.push((AckleyPerturbationStrategy::ChangeSubset, DEFAULT_CHANGE_SUBSET_WEIGHT));
        strategy.push((AckleyPerturbationStrategy::DoNothing, DEFAULT_DO_NOTHING_WEIGHT));
        Self::new(strategy)
    }
}

/// The weights of a longer prefix add up to no less.
proof fn lemma_total_weight_grows<T>(items: Seq<(T, u64)>, length: int)
    requires
        0 <= length <= items.len(),
    ensures
        total_weight(items.take(length)) <= total_weight(items),
    decreases items.len() - length,
{
    if length < items.len() {
        lemma_total_weight_grows(items, length + 1);
        assert(items.take(length + 1).drop_last() =~= items.take(length));
    } else {
        assert(items.take(length) =~= items);
    }
}

/// Generates starting points with a given number of coordinates.
pub struct AckleyInitialSolutionGenerator {
    dimensions: usize,
}

impl AckleyInitialSolutionGenerator {
    /// The number of coordinates of a generated point.
    pub closed spec fn spec_dimensions(&self) -> usize {
        self.dimensions
    }

    /// A generator of points with `dimensions` coordinates.
    pub fn new(dimensions: usize) -> (generator: Self)
        ensures
            generator.spec_dimensions() == dimensions,
    {
        AckleyInitialSolutionGenerator { dimensions }
    }

    /// The number of coordinates of a generated point.
    #[verifier::when_used_as_spec(spec_dimensions)]
    pub fn dimensions(&self) -> (dimensions: usize)
        ensures
            dimensions == self.spec_dimensions(),
    {
        self.dimensions
    }
}

} // verus!
