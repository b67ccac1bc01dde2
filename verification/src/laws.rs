//! What holds of every gene and of every use of the genetic operators.

use vstd::prelude::*;
use crate::gene::{
    attacks, attacks_from, conflicts, conflicts_before, fitness_of, is_crossover, pairs,
    single_change, splice, zero_rows, lemma_pairs_step, Gene,
};
use crate::genetic_algorithm::{after_ticket, kept_or_mutated};
use crate::selection::RESOLUTION;

verus! {

proof fn lemma_zero_rows_attacks_from(n: nat, i: int, upto: int)
    requires
        0 <= i < upto <= n,
    ensures
        attacks_from(zero_rows(n), i, upto) == upto - i - 1,
    decreases upto - i,
{
    if upto > i + 1 {
        lemma_zero_rows_attacks_from(n, i, upto - 1);
        assert(attacks(zero_rows(n), i, upto - 1));
    }
}

proof fn lemma_zero_rows_conflicts_before(n: nat, columns: int)
    requires
        0 <= columns <= n,
    ensures
        conflicts_before(zero_rows(n), columns) + pairs((n - columns) as nat) == pairs(n),
    decreases columns,
{
    if columns > 0 {
        lemma_zero_rows_conflicts_before(n, columns - 1);
        lemma_zero_rows_attacks_from(n, columns - 1, n as int);
        lemma_pairs_step((n - columns) as nat);
    }
}

/// With every queen on row 0 each pair of columns shares a row: all
/// `pairs(n)` pairs attack, and the fitness of the board is 0, for every
/// number of columns.
pub proof fn lemma_zero_rows_fitness(n: nat)
    ensures
        conflicts(zero_rows(n)) == pairs(n),
        fitness_of(zero_rows(n)) == 0,
{
    lemma_zero_rows_conflicts_before(n, n as int);
}

/// On a board of at most one column, which has no pair of columns, the
/// fitness of the board with every queen on row 0 is the number of pairs.
pub proof fn lemma_zero_rows_fitness_is_pairs(n: nat)
    requires
        n <= 1,
    ensures
        fitness_of(zero_rows(n)) == pairs(n),
{
    lemma_zero_rows_fitness(n);
}

proof fn lemma_conflicts_before_grows(rows: Seq<u8>, from: int, to: int)
    requires
        0 <= from <= to,
    ensures
        conflicts_before(rows, from) <= conflicts_before(rows, to),
    decreases to - from,
{
    if from < to {
        lemma_conflicts_before_grows(rows, from, to - 1);
    }
}

/// The first two columns always count as attacking, so a board of two or
/// more columns never reaches the number of its pairs as fitness.
pub proof fn lemma_fitness_below_pairs(rows: Seq<u8>)
    requires
        rows.len() >= 2,
    ensures
        fitness_of(rows) < pairs(rows.len()),
{
    let n = rows.len() as int;
    assert(attacks(rows, 0, 1));
    assert(attacks_from(rows, 0, 2) >= 1) by {
        assert(attacks_from(rows, 0, 1) == 0);
    }
    crate::gene::lemma_attacks_from_monotone(rows, 0, 2, n);
    assert(conflicts_before(rows, 1) == conflicts_before(rows, 0) + attacks_from(rows, 0, n));
    lemma_conflicts_before_grows(rows, 1, n);
}

/// Fitness depends on the rows alone: two evaluations of one gene, with no
/// change between them, give the same value.
pub proof fn lemma_fitness_repeats(gene: Gene, first: u32, second: u32)
    requires
        first == fitness_of(gene@),
        second == fitness_of(gene@),
    ensures
        first == second,
{
}

/// A mutation keeps the number of columns, and there is one column such
/// that every other column keeps its row and that column's new row is
/// below the bound.
pub proof fn lemma_mutation_changes_one_column(before: Seq<u8>, after: Seq<u8>, max: int)
    requires
        single_change(before, after, max),
    ensures
        after.len() == before.len(),
        exists|c: int|
            0 <= c < before.len() && #[trigger] after[c] < max && forall|j: int|
                0 <= j < before.len() && j != c ==> after[j] == before[j],
{
    let (c, v) = choose|c: int, v: u8|
        0 <= c < before.len() && v < max && after == #[trigger] before.update(c, v);
    assert(after[c] < max);
}

/// The children of a crossover of two genes of one length have that length,
/// and there is a split point, with at least two columns on either side,
/// before which each child has the rows of one parent and from which on it
/// has the rows of the other parent.
pub proof fn lemma_crossover_recombines(
    a: Seq<u8>,
    b: Seq<u8>,
    first: Seq<u8>,
    second: Seq<u8>,
)
    requires
        a.len() == b.len(),
        a.len() >= 5,
        is_crossover(a, b, first, second),
    ensures
        first.len() == a.len(),
        second.len() == a.len(),
        exists|k: int|
            2 <= k < a.len() - 2 && first.subrange(0, k) == a.subrange(0, k) && first.subrange(
                k,
                a.len() as int,
            ) == b.subrange(k, a.len() as int) && second.subrange(0, k) == b.subrange(0, k)
                && #[trigger] second.subrange(k, a.len() as int) == a.subrange(
                k,
                a.len() as int,
            ),
{
    let k = choose|k: int|
        2 <= k < a.len() - 2 && first == #[trigger] splice(a, b, k) && second == splice(b, a, k);
    let n = a.len() as int;
    assert(first.subrange(0, k) =~= a.subrange(0, k));
    assert(first.subrange(k, n) =~= b.subrange(k, n));
    assert(second.subrange(0, k) =~= b.subrange(0, k));
    assert(second.subrange(k, n) =~= a.subrange(k, n));
}

/// On the smallest board that can be crossed, of five columns, the split
/// point is 2: each child has two columns of one parent and three of the
/// other.
pub proof fn lemma_smallest_board_split(a: Seq<u8>, b: Seq<u8>, first: Seq<u8>, second: Seq<u8>)
    requires
        a.len() == 5,
        b.len() == 5,
        is_crossover(a, b, first, second),
    ensures
        first == splice(a, b, 2),
        second == splice(b, a, 2),
{
}

/// With a threshold of 0 no ticket is below it, and no child is mutated.
/// With a threshold of `RESOLUTION` or more every ticket is below it, and
/// every child is mutated.
pub proof fn lemma_threshold_ends(before: Seq<u8>, after: Seq<u8>, max: int, threshold: int)
    requires
        kept_or_mutated(before, after, max, threshold),
    ensures
        threshold <= 0 ==> after == before,
        threshold >= RESOLUTION ==> single_change(before, after, max),
{
    let ticket = choose|ticket: int|
        0 <= ticket < RESOLUTION && #[trigger] after_ticket(ticket, threshold, before, after, max);
}

} // verus!
