//! Roulette-wheel selection: a member is chosen with a probability in
//! proportion to its fitness.
//!
//! Probabilities are kept as exact fractions. The probability of member `i`
//! is its fitness over the sum of all fitness values, and a draw from
//! `[0, 1)` is a ticket over [`RESOLUTION`]. No rounding takes place.

use vstd::prelude::*;
use crate::population::{
    fitness_array_items, lemma_sum_of_grows, sum_of, total_of, FitnessArray,
};

verus! {

/// The number of tickets: a draw is a ticket `t` below this and stands for
/// the number `t / RESOLUTION` in `[0, 1)`.
pub const RESOLUTION: u32 = 16_777_216;

/// Whether the probabilities of the members up to and including `i` add up
/// to at least the draw that `ticket` stands for.
pub open spec fn reaches(weights: Seq<u32>, ticket: int, i: int) -> bool {
    ticket * total_of(weights) <= sum_of(weights, i + 1) * RESOLUTION
}

/// `index` is what the wheel selects for `ticket`: the first member at
/// which the running sum of probabilities reaches the draw, and member 0
/// where the running sum never does.
pub open spec fn is_selected(weights: Seq<u32>, ticket: int, index: int) -> bool {
    if exists|i: int| 0 <= i < weights.len() && reaches(weights, ticket, i) {
        &&& 0 <= index < weights.len()
        &&& reaches(weights, ticket, index)
        &&& forall|j: int| 0 <= j < index ==> !reaches(weights, ticket, j)
    } else {
        index == 0
    }
}

/// The member that the wheel selects for `ticket`. `mass` is the sum of
/// the weights.
pub fn select(weights: &FitnessArray, mass: u32, ticket: u32) -> (index: usize)
    requires
        mass == total_of(weights@),
    ensures
        is_selected(weights@, ticket as int, index as int),
{
    let n: usize = weights.len();
    assert(ticket * mass <= u64::MAX) by (nonlinear_arith)
        requires
            ticket <= u32::MAX,
            mass <= u32::MAX,
    ;
    let need: u64 = (ticket as u64) * (mass as u64);
    let mut running: u64 = 0;
    let mut i: usize = 0;
    while i < n
        invariant
            n == weights@.len(),
            i <= n,
            mass == total_of(weights@),
            need == ticket * total_of(weights@),
            running == sum_of(weights@, i as int),
            forall|j: int| 0 <= j < i ==> !reaches(weights@, ticket as int, j),
        decreases n - i,
    {
        proof {
            lemma_sum_of_grows(weights@, i + 1, n as int);
        }
        running = running + weights.get(i) as u64;
        assert(running * RESOLUTION <= u64::MAX) by (nonlinear_arith)
            requires
                running <= u32::MAX,
                RESOLUTION == 16_777_216,
        ;
        if need <= running * (RESOLUTION as u64) {
            assert(reaches(weights@, ticket as int, i as int));
            return i;
        }
        assert(!reaches(weights@, ticket as int, i as int));
        i = i + 1;
    }
    0
}

/// For a wheel with at least one member and a ticket that stands for a
/// draw of at most 1, the selected member exists, the probabilities up to
/// and including it reach the draw, and those up to any earlier member do
/// not.
pub proof fn lemma_selected_is_first_to_reach(weights: Seq<u32>, ticket: int, index: int)
    requires
        weights.len() > 0,
        0 <= ticket <= RESOLUTION,
        is_selected(weights, ticket, index),
    ensures
        0 <= index < weights.len(),
        reaches(weights, ticket, index),
        forall|j: int| 0 <= j < index ==> !reaches(weights, ticket, j),
{
    let last = weights.len() - 1;
    lemma_sum_of_grows(weights, 0, weights.len() as int);
    assert(reaches(weights, ticket, last)) by (nonlinear_arith)
        requires
            0 <= ticket <= RESOLUTION,
            0 <= total_of(weights),
            reaches(weights, ticket, last) == (ticket * total_of(weights) <= total_of(weights)
                * RESOLUTION),
    ;
}

/// At most one member is selected for a ticket.
pub proof fn lemma_selected_is_unique(weights: Seq<u32>, ticket: int, a: int, b: int)
    requires
        is_selected(weights, ticket, a),
        is_selected(weights, ticket, b),
    ensures
        a == b,
{
}

} // verus!
