//! The generational loop: a population of genes that is replaced as a whole,
//! generation after generation, by the children of selected parents.
//!
//! Probabilities are exact fractions over [`RESOLUTION`]: the probability
//! with which a child is mutated is given as a threshold, and a child is
//! mutated where a ticket drawn for it lies below that threshold.

use vstd::prelude::*;
use bracket_lib::random::RandomNumberGenerator;
use crate::gene::{
    fitness_of, is_crossover, lemma_pairs_bound, pair_count, pairs, rows_of, single_change,
    valid_rows, Gene, MAX_SIDE,
};
use crate::population::{lemma_sum_of_capped, total_of, FitnessArray, GeneArray};
use crate::random::{fresh_generator, range};
use crate::selection::{is_selected, lemma_selected_is_unique, select, RESOLUTION};
use crate::vector::Vector2;

verus! {

/// How often the draw of the second parent is repeated when it falls on the
/// first parent again. After that many draws the member that follows the
/// first parent is taken, so that a generation always comes to an end.
pub const RESAMPLE_LIMIT: usize = 1024;

/// One snapshot of the first member is kept for every this many
/// generations, starting with the first generation.
pub const SAMPLE_PERIOD: usize = 1000;

/// A mean, kept exact: the sum of the values and their number.
#[derive(Clone, Copy, Debug)]
pub struct Average {
    pub total: u32,
    pub count: usize,
}

/// What a run hands back.
pub struct Result {
    /// The genes that reached the number of pairs as fitness, in the order
    /// in which they were found. A gene may occur more than once.
    pub correct: Vec<Gene>,
    /// The mean fitness of each generation.
    pub avg_fitness: Vec<Average>,
    /// The first member of every `SAMPLE_PERIOD`-th generation.
    pub sample: Vec<Gene>,
}

/// A population of genes of one board size, with the fitness of each
/// member and the sum of those values, over which a member's fitness is
/// its probability of selection.
pub struct GeneticAlgorithm {
    population: GeneArray,
    fitness: FitnessArray,
    mass: u32,
    board_size: Vector2,
}

/// What the ticket drawn for a child does to it: below `threshold` one of
/// the child's rows is replaced by a row below `max`, and at or above
/// `threshold` the child is kept as it is.
pub open spec fn after_ticket(
    ticket: int,
    threshold: int,
    before: Seq<u8>,
    after: Seq<u8>,
    max: int,
) -> bool {
    if ticket < threshold {
        single_change(before, after, max)
    } else {
        after == before
    }
}

/// `after` is what some ticket, drawn for the child `before` alone, has
/// made of it.
pub open spec fn kept_or_mutated(
    before: Seq<u8>,
    after: Seq<u8>,
    max: int,
    threshold: int,
) -> bool {
    exists|ticket: int|
        0 <= ticket < RESOLUTION && #[trigger] after_ticket(ticket, threshold, before, after, max)
}

/// The member that follows member `p` in a population of `size`, the first
/// member following the last.
pub open spec fn successor(p: int, size: int) -> int {
    if p + 1 < size {
        p + 1
    } else {
        0
    }
}

/// `second` is the spare partner of member `first`: the first member
/// other than `first` whose weight is above 0, and where no other member
/// has any weight, the member that follows `first`.
pub open spec fn is_spare(scores: Seq<u32>, first: int, second: int) -> bool {
    &&& 0 <= second < scores.len()
    &&& second != first
    &&& ({
        ||| scores[second] > 0 && forall|j: int|
            0 <= j < second && j != first ==> #[trigger] scores[j] == 0
        ||| second == successor(first, scores.len() as int) && forall|j: int|
            0 <= j < scores.len() && j != first ==> #[trigger] scores[j] == 0
    })
}

/// `mother` and `father` are two parents as the wheel with the weights
/// `scores` pairs them. Their indices differ, and `mother` is selected for
/// some ticket. `father` is selected for some ticket, or has a weight
/// above 0, or is the member that follows `mother` while no member but
/// `mother` has any weight.
pub open spec fn is_pairing(scores: Seq<u32>, mother: int, father: int) -> bool {
    &&& 0 <= mother < scores.len()
    &&& 0 <= father < scores.len()
    &&& mother != father
    &&& exists|t: int| 0 <= t < RESOLUTION && #[trigger] is_selected(scores, t, mother)
    &&& ({
        ||| exists|t: int| 0 <= t < RESOLUTION && #[trigger] is_selected(scores, t, father)
        ||| scores[father] > 0
        ||| (father == successor(mother, scores.len() as int) && forall|j: int|
            0 <= j < scores.len() && j != mother ==> #[trigger] scores[j] == 0)
    })
}

/// `first` and `second` are the children of two members of `parents` that
/// the wheel with the weights `scores` has paired: the two results of one
/// crossover, each of them kept or mutated.
pub open spec fn bred(
    parents: Seq<Seq<u8>>,
    scores: Seq<u32>,
    first: Seq<u8>,
    second: Seq<u8>,
    max: int,
    threshold: int,
) -> bool {
    exists|mother: int, father: int, x: Seq<u8>, y: Seq<u8>|
        is_pairing(scores, mother, father) && #[trigger] is_crossover(
            parents[mother],
            parents[father],
            x,
            y,
        ) && kept_or_mutated(x, first, max, threshold) && kept_or_mutated(
            y,
            second,
            max,
            threshold,
        )
}

/// Those of the first `upto` members whose fitness is the number of pairs
/// of their columns, in the order of the members.
pub open spec fn winners(genes: Seq<Seq<u8>>, upto: int) -> Seq<Seq<u8>>
    decreases upto,
{
    if upto <= 0 {
        Seq::empty()
    } else if fitness_of(genes[upto - 1]) == pairs(genes[upto - 1].len()) {
        winners(genes, upto - 1).push(genes[upto - 1])
    } else {
        winners(genes, upto - 1)
    }
}

/// Every winner is one of the members that were looked at, with the number
/// of its pairs as fitness.
pub proof fn lemma_winners_are_members(genes: Seq<Seq<u8>>, upto: int)
    requires
        0 <= upto <= genes.len(),
    ensures
        forall|w: int|
            0 <= w < winners(genes, upto).len() ==> exists|m: int|
                0 <= m < upto && #[trigger] winners(genes, upto)[w] == genes[m] && fitness_of(
                    genes[m],
                ) == pairs(genes[m].len()),
    decreases upto,
{
    if upto > 0 {
        lemma_winners_are_members(genes, upto - 1);
        let rest = winners(genes, upto - 1);
        assert forall|w: int| 0 <= w < winners(genes, upto).len() implies exists|m: int|
            0 <= m < upto && #[trigger] winners(genes, upto)[w] == genes[m] && fitness_of(genes[m])
                == pairs(genes[m].len()) by {
            if w < rest.len() {
                let m = choose|m: int|
                    0 <= m < upto - 1 && rest[w] == genes[m] && fitness_of(genes[m]) == pairs(
                        genes[m].len(),
                    );
                assert(winners(genes, upto)[w] == genes[m]);
            } else {
                assert(winners(genes, upto)[w] == genes[upto - 1]);
            }
        }
    }
}

/// The fitness of each member.
pub open spec fn scores_of(genes: Seq<Seq<u8>>) -> Seq<u32> {
    Seq::new(genes.len(), |i: int| fitness_of(genes[i]) as u32)
}

/// `children` is a generation bred from `parents`: two children for each
/// two members, every two of them bred from parents that the wheel paired
/// by the fitness of the parents.
pub open spec fn is_offspring(
    parents: Seq<Seq<u8>>,
    children: Seq<Seq<u8>>,
    side: int,
    threshold: int,
) -> bool {
    &&& children.len() == 2 * (parents.len() / 2)
    &&& forall|c: int|
        0 <= c < parents.len() / 2 ==> bred(
            parents,
            scores_of(parents),
            #[trigger] children[2 * c],
            children[2 * c + 1],
            side,
            threshold,
        )
}

/// `history` holds the population at the start and after each of
/// `generations` generations, each bred from the one before.
pub open spec fn is_history(
    start: Seq<Seq<u8>>,
    history: Seq<Seq<Seq<u8>>>,
    generations: int,
    side: int,
    threshold: int,
) -> bool {
    &&& history.len() == generations + 1
    &&& history[0] == start
    &&& forall|g: int|
        0 <= g < generations ==> is_offspring(
            #[trigger] history[g],
            history[g + 1],
            side,
            threshold,
        )
}

/// The winners of the first `generations` generations that were bred, one
/// generation after the other.
pub open spec fn correct_of(history: Seq<Seq<Seq<u8>>>, generations: int) -> Seq<Seq<u8>>
    decreases generations,
{
    if generations <= 0 {
        Seq::empty()
    } else {
        correct_of(history, generations - 1) + winners(
            history[generations],
            history[generations].len() as int,
        )
    }
}

/// The first member of every `SAMPLE_PERIOD`-th of the first `generations`
/// generations that were bred, counted from 0.
pub open spec fn samples_of(history: Seq<Seq<Seq<u8>>>, generations: int) -> Seq<Seq<u8>>
    decreases generations,
{
    if generations <= 0 {
        Seq::empty()
    } else if (generations - 1) % (SAMPLE_PERIOD as int) == 0 {
        samples_of(history, generations - 1).push(history[generations][0])
    } else {
        samples_of(history, generations - 1)
    }
}

/// `means` holds the mean fitness of each generation that was bred.
pub open spec fn means_of(history: Seq<Seq<Seq<u8>>>, means: Seq<Average>) -> bool {
    &&& means.len() + 1 == history.len()
    &&& forall|g: int|
        0 <= g < means.len() ==> (#[trigger] means[g]).total == total_of(
            scores_of(history[g + 1]),
        ) && means[g].count == history[g + 1].len()
}

/// `history` explains a run of `generations` generations from `start`: it
/// ends with `last`, and `correct`, `means` and `samples` are what the
/// run recorded of it.
pub open spec fn explains(
    history: Seq<Seq<Seq<u8>>>,
    start: Seq<Seq<u8>>,
    generations: int,
    side: int,
    threshold: int,
    last: Seq<Seq<u8>>,
    correct: Seq<Seq<u8>>,
    means: Seq<Average>,
    samples: Seq<Seq<u8>>,
) -> bool {
    &&& is_history(start, history, generations, side, threshold)
    &&& history[generations] == last
    &&& correct == correct_of(history, generations)
    &&& means_of(history, means)
    &&& samples == samples_of(history, generations)
}

proof fn lemma_correct_of_prefix(history: Seq<Seq<Seq<u8>>>, next: Seq<Seq<u8>>, generations: int)
    requires
        0 <= generations < history.len(),
    ensures
        correct_of(history.push(next), generations) == correct_of(history, generations),
    decreases generations,
{
    if generations > 0 {
        lemma_correct_of_prefix(history, next, generations - 1);
        assert(history.push(next)[generations] == history[generations]);
    }
}

proof fn lemma_samples_of_prefix(history: Seq<Seq<Seq<u8>>>, next: Seq<Seq<u8>>, generations: int)
    requires
        0 <= generations < history.len(),
    ensures
        samples_of(history.push(next), generations) == samples_of(history, generations),
    decreases generations,
{
    if generations > 0 {
        lemma_samples_of_prefix(history, next, generations - 1);
        assert(history.push(next)[generations] == history[generations]);
    }
}

/// A ticket: a draw from `[0, 1)` in units of one over `RESOLUTION`.
fn draw(rng: &mut RandomNumberGenerator) -> (ticket: u32)
    ensures
        ticket < RESOLUTION,
{
    range(rng, 0, RESOLUTION as usize) as u32
}

/// Whether the child for which `ticket` was drawn is mutated: it is where
/// the ticket is below the threshold.
pub fn is_mutated(ticket: u32, mutate_threshold: u32) -> (yes: bool)
    ensures
        yes == (ticket < mutate_threshold),
{
    ticket < mutate_threshold
}

impl GeneticAlgorithm {
    /// The rows of each member, in selection order.
    pub closed spec fn genes(&self) -> Seq<Seq<u8>> {
        self.population@
    }

    /// The fitness values as last evaluated, one for each member.
    pub closed spec fn scores(&self) -> Seq<u32> {
        self.fitness@
    }

    /// The sum over which a fitness value is a probability of selection.
    pub closed spec fn mass(&self) -> int {
        self.mass as int
    }

    /// The dimension of the board.
    pub closed spec fn board(&self) -> Vector2 {
        self.board_size
    }

    /// The side of the board: the number of columns of every member.
    pub open spec fn side(&self) -> int {
        self.board().x as int
    }

    /// The board is square and of at most `MAX_SIDE` columns, every member
    /// is a valid gene of that many columns, and the fitness values are
    /// within the range of the board and few enough for their sum to fit.
    pub open spec fn wf(&self) -> bool {
        &&& self.board().x == self.board().y
        &&& 0 <= self.side() <= MAX_SIDE
        &&& forall|i: int|
            0 <= i < self.genes().len() ==> valid_rows(#[trigger] self.genes()[i])
                && self.genes()[i].len() == self.side()
        &&& self.genes().len() <= self.scores().len()
        &&& self.scores().len() * pairs(self.side() as nat) <= u32::MAX
        &&& forall|i: int|
            0 <= i < self.scores().len() ==> #[trigger] self.scores()[i] <= pairs(
                self.side() as nat,
            )
    }

    /// The fitness values are those of the present members, and the mass
    /// is their sum.
    pub open spec fn evaluated(&self) -> bool {
        &&& self.scores().len() == self.genes().len()
        &&& forall|i: int|
            0 <= i < self.genes().len() ==> #[trigger] self.scores()[i] == fitness_of(
                self.genes()[i],
            )
        &&& self.mass() == total_of(self.scores())
    }

    /// Whether a population of `population_size` genes can be made for
    /// `board_size`: the board is square, of at most `MAX_SIDE` columns,
    /// and the sum of the largest fitness values of that many genes fits
    /// the 32 bits in which fitness is summed.
    pub open spec fn admits_spec(board_size: Vector2, population_size: int) -> bool {
        &&& board_size.x == board_size.y
        &&& 0 <= board_size.x <= MAX_SIDE
        &&& population_size * pairs(board_size.x as nat) <= u32::MAX
    }

    /// Whether a population of `population_size` genes can be made for
    /// `board_size`.
    pub fn admits(board_size: &Vector2, population_size: usize) -> (ok: bool)
        ensures
            ok == Self::admits_spec(*board_size, population_size as int),
    {
        if board_size.x != board_size.y || board_size.x < 0 || board_size.x > 255 {
            return false;
        }
        proof {
            lemma_pairs_bound(board_size.x as nat);
        }
        let most: u32 = pair_count(board_size.x as usize);
        if most == 0 {
            assert(population_size * 0 == 0);
            return true;
        }
        let limit: u32 = u32::MAX / most;
        let ok = population_size <= limit as usize;
        assert(ok == (population_size * most <= u32::MAX)) by (nonlinear_arith)
            requires
                most > 0,
                limit == u32::MAX / most,
                ok == (population_size <= limit),
        ;
        ok
    }

    /// A population of `population_size` genes for the square board
    /// `board_size`, each with its queens on random rows. The fitness
    /// values start at zero and say nothing of the members until they are
    /// evaluated.
    pub fn new(board_size: Vector2, population_size: usize) -> (ga: GeneticAlgorithm)
        requires
            Self::admits_spec(board_size, population_size as int),
        ensures
            ga.wf(),
            ga.board() == board_size,
            ga.genes().len() == population_size,
            ga.scores() == Seq::new(population_size as nat, |i: int| 0u32),
            ga.mass() == 0,
    {
        let mut rng = fresh_generator();
        let mut genes: Vec<Gene> = Vec::new();
        let mut zeros: Vec<u32> = Vec::new();
        let mut i: usize = 0;
        while i < population_size
            invariant
                board_size.x == board_size.y,
                0 <= board_size.x <= MAX_SIDE,
                i <= population_size,
                genes@.len() == i,
                zeros@ == Seq::new(i as nat, |j: int| 0u32),
                forall|j: int|
                    0 <= j < genes@.len() ==> valid_rows(#[trigger] genes@[j]@) && genes@[j]@.len()
                        == board_size.x,
            decreases population_size - i,
        {
            let mut gene = Gene::new(&board_size);
            gene.randomize(&board_size, &mut rng);
            genes.push(gene);
            zeros.push(0);
            i = i + 1;
        }
        let population = GeneArray::from_vec(genes);
        let fitness = FitnessArray::from_vec(zeros);
        GeneticAlgorithm { population, fitness, mass: 0, board_size }
    }

    /// The dimension of the board.
    pub fn board_size(&self) -> (dimension: Vector2)
        ensures
            dimension == self.board(),
    {
        self.board_size
    }

    /// The number of members.
    pub fn population_size(&self) -> (n: usize)
        ensures
            n == self.genes().len(),
    {
        self.population.len()
    }

    /// The member at `index`, or `None` past the last member.
    pub fn member(&self, index: usize) -> (gene: Option<Gene>)
        ensures
            gene is Some <==> index < self.genes().len(),
            gene matches Some(g) ==> g@ == self.genes()[index as int],
    {
        if index < self.population.len() {
            Some(self.population.get(index).clone())
        } else {
            None
        }
    }

    /// The fitness values as last evaluated.
    pub fn fitness_values(&self) -> (values: Vec<u32>)
        ensures
            values@ == self.scores(),
    {
        self.fitness.values()
    }

    /// Evaluates the fitness of every member.
    pub fn fitness(&mut self)
        requires
            old(self).wf(),
        ensures
            final(self).wf(),
            final(self).genes() == old(self).genes(),
            final(self).board() == old(self).board(),
            final(self).mass() == old(self).mass(),
            final(self).scores().len() == final(self).genes().len(),
            forall|i: int|
                0 <= i < final(self).genes().len() ==> #[trigger] final(self).scores()[i]
                    == fitness_of(final(self).genes()[i]),
    {
        let n: usize = self.population.len();
        let mut values: Vec<u32> = Vec::new();
        let mut g: usize = 0;
        while g < n
            invariant
                self.wf(),
                n == self.genes().len(),
                g <= n,
                values@.len() == g,
                forall|i: int|
                    0 <= i < g ==> #[trigger] values@[i] == fitness_of(self.genes()[i]),
                forall|i: int|
                    0 <= i < g ==> #[trigger] values@[i] <= pairs(self.side() as nat),
            decreases n - g,
        {
            let gene = self.population.get(g);
            assert(valid_rows(self.genes()[g as int]));
            values.push(gene.fitness());
            g = g + 1;
        }
        proof {
            let cap = pairs(self.side() as nat);
            assert(n * cap <= self.scores().len() * cap) by (nonlinear_arith)
                requires
                    n <= self.scores().len(),
                    0 <= cap,
            ;
        }
        self.fitness = FitnessArray::from_vec(values);
    }

    /// Takes the sum of the fitness values as the mass over which each of
    /// them is a probability of selection. A sum of zero is kept as it is:
    /// nothing is divided, and selection then falls on the first member.
    pub fn probability(&mut self)
        requires
            old(self).wf(),
        ensures
            final(self).wf(),
            final(self).genes() == old(self).genes(),
            final(self).scores() == old(self).scores(),
            final(self).board() == old(self).board(),
            final(self).mass() == total_of(final(self).scores()),
    {
        proof {
            lemma_sum_of_capped(
                self.scores(),
                self.scores().len() as int,
                pairs(self.side() as nat) as int,
            );
        }
        self.mass = self.fitness.sum();
    }

    /// The mean of the fitness values as last evaluated: their sum and
    /// their number.
    pub fn average_fitness(&self) -> (mean: Average)
        requires
            self.wf(),
        ensures
            mean.total == total_of(self.scores()),
            mean.count == self.scores().len(),
    {
        proof {
            lemma_sum_of_capped(
                self.scores(),
                self.scores().len() as int,
                pairs(self.side() as nat) as int,
            );
        }
        Average { total: self.fitness.sum(), count: self.fitness.len() }
    }

    /// The member that the roulette wheel selects for `ticket`, which
    /// stands for the draw `ticket / RESOLUTION`: the first member at which
    /// the running sum of probabilities reaches the draw.
    pub fn choose_parent(&self, ticket: u32) -> (index: usize)
        requires
            self.mass() == total_of(self.scores()),
        ensures
            is_selected(self.scores(), ticket as int, index as int),
    {
        select(&self.fitness, self.mass, ticket)
    }

    /// The second parent that `ticket` gives beside the parent `first`:
    /// the member that the wheel selects for the ticket, and `None` where
    /// that is `first` again, so that another ticket has to be drawn.
    pub fn other_parent(&self, first: usize, ticket: u32) -> (second: Option<usize>)
        requires
            self.mass() == total_of(self.scores()),
        ensures
            second matches Some(i) ==> i != first && is_selected(
                self.scores(),
                ticket as int,
                i as int,
            ),
            second is None <==> is_selected(self.scores(), ticket as int, first as int),
    {
        let index: usize = self.choose_parent(ticket);
        if index == first {
            None
        } else {
            proof {
                if is_selected(self.scores(), ticket as int, first as int) {
                    lemma_selected_is_unique(
                        self.scores(),
                        ticket as int,
                        index as int,
                        first as int,
                    );
                }
            }
            Some(index)
        }
    }

    /// The second parent where every draw for it fell on the parent
    /// `first`: the first member other than `first` whose fitness is above
    /// 0, and where no other member has any fitness, the member that
    /// follows `first`.
    pub fn spare_parent(&self, first: usize) -> (second: usize)
        requires
            self.scores().len() >= 2,
            first < self.scores().len(),
        ensures
            is_spare(self.scores(), first as int, second as int),
    {
        let n: usize = self.fitness.len();
        let mut j: usize = 0;
        while j < n
            invariant
                n == self.scores().len(),
                j <= n,
                forall|m: int| 0 <= m < j && m != first ==> #[trigger] self.scores()[m] == 0,
            decreases n - j,
        {
            if j != first && self.fitness.get(j) > 0 {
                return j;
            }
            j = j + 1;
        }
        if first + 1 < n {
            first + 1
        } else {
            0
        }
    }

    /// Selects two parents of different indices. The first is what the
    /// wheel selects for one ticket. For the second, tickets are drawn
    /// until one selects another member than the first parent, as
    /// [`GeneticAlgorithm::other_parent`] says, but at most
    /// `RESAMPLE_LIMIT` times: after that the second parent is the spare
    /// one, as [`GeneticAlgorithm::spare_parent`] says. Members with equal
    /// rows at different indices may be paired.
    pub fn pick_parents(&self, rng: &mut RandomNumberGenerator) -> (parents: (usize, usize))
        requires
            self.evaluated(),
            self.genes().len() >= 2,
        ensures
            is_pairing(self.scores(), parents.0 as int, parents.1 as int),
    {
        let ticket = draw(rng);
        let parent1: usize = self.choose_parent(ticket);
        assert(is_selected(self.scores(), ticket as int, parent1 as int));
        let mut found: Option<usize> = None;
        let mut tries: usize = 0;
        while found.is_none() && tries < RESAMPLE_LIMIT
            invariant
                self.evaluated(),
                self.scores().len() >= 2,
                parent1 < self.scores().len(),
                tries <= RESAMPLE_LIMIT,
                found matches Some(i) ==> i != parent1 && i < self.scores().len() && exists|t: int|
                    0 <= t < RESOLUTION && #[trigger] is_selected(self.scores(), t, i as int),
            decreases RESAMPLE_LIMIT - tries,
        {
            let ticket = draw(rng);
            found = self.other_parent(parent1, ticket);
            tries = tries + 1;
        }
        let parent2: usize = match found {
            Some(i) => i,
            None => self.spare_parent(parent1),
        };
        (parent1, parent2)
    }

    /// Replaces the population by the children of selected parents.
    ///
    /// For each pair of children two parents are selected as
    /// [`GeneticAlgorithm::pick_parents`] says and crossed. Then one ticket
    /// is drawn for each of the two children, and a child is mutated where
    /// [`is_mutated`] says so of its own ticket.
    /// A population of odd size loses its last place. The fitness values
    /// stay those of the parents until they are evaluated again.
    pub fn reproduce(&mut self, rng: &mut RandomNumberGenerator, mutate_threshold: u32)
        requires
            old(self).wf(),
            old(self).evaluated(),
            old(self).genes().len() >= 2,
            old(self).side() >= 5,
        ensures
            final(self).wf(),
            final(self).board() == old(self).board(),
            final(self).scores() == old(self).scores(),
            final(self).mass() == old(self).mass(),
            final(self).genes().len() == 2 * (old(self).genes().len() / 2),
            forall|c: int|
                0 <= c < old(self).genes().len() / 2 ==> bred(
                    old(self).genes(),
                    old(self).scores(),
                    #[trigger] final(self).genes()[2 * c],
                    final(self).genes()[2 * c + 1],
                    old(self).side(),
                    mutate_threshold as int,
                ),
    {
        let popsize: usize = self.population.len();
        let half: usize = popsize / 2;
        let max: u8 = self.board_size.x as u8;
        let mut children: Vec<Gene> = Vec::new();
        let mut i: usize = 0;
        while i < half
            invariant
                self.wf(),
                self.evaluated(),
                *self == *old(self),
                self.side() >= 5,
                max == self.side(),
                popsize == self.genes().len(),
                popsize >= 2,
                half == popsize / 2,
                i <= half,
                children@.len() == 2 * i,
                forall|j: int|
                    0 <= j < children@.len() ==> valid_rows(#[trigger] children@[j]@)
                        && children@[j]@.len() == self.side(),
                forall|c: int|
                    0 <= c < i ==> bred(
                        self.genes(),
                        self.scores(),
                        #[trigger] children@[2 * c]@,
                        children@[2 * c + 1]@,
                        self.side(),
                        mutate_threshold as int,
                    ),
            decreases half - i,
        {
            let (parent1, parent2) = self.pick_parents(rng);
            let mother = self.population.get(parent1);
            let father = self.population.get(parent2);
            assert(valid_rows(self.genes()[parent1 as int]));
            assert(valid_rows(self.genes()[parent2 as int]));
            let cross = mother.crossover(father, rng);
            let mut first = cross.0;
            let mut second = cross.1;
            let ghost x = first@;
            let ghost y = second@;
            let m0 = draw(rng);
            let m1 = draw(rng);
            if is_mutated(m0, mutate_threshold) {
                first.mutate(max, rng);
            }
            if is_mutated(m1, mutate_threshold) {
                second.mutate(max, rng);
            }
            proof {
                assert(after_ticket(m0 as int, mutate_threshold as int, x, first@, self.side()));
                assert(after_ticket(m1 as int, mutate_threshold as int, y, second@, self.side()));
                assert(is_crossover(
                    self.genes()[parent1 as int],
                    self.genes()[parent2 as int],
                    x,
                    y,
                ));
                assert(bred(
                    self.genes(),
                    self.scores(),
                    first@,
                    second@,
                    self.side(),
                    mutate_threshold as int,
                ));
            }
            let ghost before = children@;
            children.push(first);
            children.push(second);
            proof {
                assert forall|c: int| 0 <= c < i + 1 implies bred(
                    self.genes(),
                    self.scores(),
                    #[trigger] children@[2 * c]@,
                    children@[2 * c + 1]@,
                    self.side(),
                    mutate_threshold as int,
                ) by {
                    if c < i {
                        assert(children@[2 * c] == before[2 * c]);
                        assert(children@[2 * c + 1] == before[2 * c + 1]);
                    }
                }
            }
            i = i + 1;
        }
        self.population = GeneArray::from_vec(children);
    }

    /// Records one generation in `result`: a copy of every member whose
    /// fitness is the number of pairs, in the order of the members; the
    /// mean fitness; and, where `generation` is a multiple of
    /// `SAMPLE_PERIOD`, a copy of the first member.
    pub fn record(&self, generation: usize, result: &mut Result)
        requires
            self.wf(),
            self.evaluated(),
            generation % SAMPLE_PERIOD == 0 ==> self.genes().len() >= 1,
        ensures
            rows_of(final(result).correct@) == rows_of(old(result).correct@) + winners(
                self.genes(),
                self.genes().len() as int,
            ),
            final(result).avg_fitness@.len() == old(result).avg_fitness@.len() + 1,
            final(result).avg_fitness@.drop_last() == old(result).avg_fitness@,
            final(result).avg_fitness@.last().total == total_of(self.scores()),
            final(result).avg_fitness@.last().count == self.genes().len(),
            rows_of(final(result).sample@) == if generation % SAMPLE_PERIOD == 0 {
                rows_of(old(result).sample@).push(self.genes()[0])
            } else {
                rows_of(old(result).sample@)
            },
    {
        proof {
            lemma_pairs_bound(self.side() as nat);
        }
        let best: u32 = pair_count(self.board_size.x as usize);
        let n: usize = self.population.len();
        let mut i: usize = 0;
        while i < n
            invariant
                self.wf(),
                self.evaluated(),
                n == self.genes().len(),
                i <= n,
                best == pairs(self.side() as nat),
                result.avg_fitness == old(result).avg_fitness,
                result.sample == old(result).sample,
                rows_of(result.correct@) == rows_of(old(result).correct@) + winners(
                    self.genes(),
                    i as int,
                ),
            decreases n - i,
        {
            assert(valid_rows(self.genes()[i as int]));
            assert(self.scores()[i as int] == fitness_of(self.genes()[i as int]));
            if self.fitness.get(i) == best {
                let winner = self.population.get(i).clone();
                let ghost before = result.correct@;
                result.correct.push(winner);
                assert(rows_of(result.correct@) == rows_of(before).push(self.genes()[i as int]));
            }
            i = i + 1;
        }

        let mean = self.average_fitness();
        let ghost means = result.avg_fitness@;
        result.avg_fitness.push(mean);
        assert(result.avg_fitness@.drop_last() == means);
        if generation % SAMPLE_PERIOD == 0 {
            let leader = self.population.get(0).clone();
            let ghost before = result.sample@;
            result.sample.push(leader);
            assert(rows_of(result.sample@) == rows_of(before).push(self.genes()[0]));
        }
    }

    /// Evaluates the population, then for each of `num_iterations`
    /// generations, counted from 0, replaces it by its children, evaluates
    /// the children and records the generation as
    /// [`GeneticAlgorithm::record`] says. The run never ends early.
    ///
    /// As the first two columns of a board always count as attacking, no
    /// member of two or more columns is ever recorded as correct.
    pub fn run(&mut self, num_iterations: usize, mutate_threshold: u32) -> (result: Result)
        requires
            old(self).wf(),
            num_iterations > 0 ==> old(self).genes().len() >= 2 && old(self).side() >= 5,
        ensures
            final(self).wf(),
            final(self).evaluated(),
            final(self).board() == old(self).board(),
            final(self).genes().len() == if num_iterations == 0 {
                old(self).genes().len()
            } else {
                2 * (old(self).genes().len() / 2)
            },
            result.avg_fitness@.len() == num_iterations,
            result.sample@.len() == (num_iterations + SAMPLE_PERIOD - 1) / (SAMPLE_PERIOD as int),
            forall|i: int|
                0 <= i < result.correct@.len() ==> valid_rows(#[trigger] result.correct@[i]@)
                    && result.correct@[i]@.len() == old(self).side() && fitness_of(
                    result.correct@[i]@,
                ) == pairs(old(self).side() as nat),
            forall|i: int|
                0 <= i < result.avg_fitness@.len() ==> (#[trigger] result.avg_fitness@[i]).count
                    == 2 * (old(self).genes().len() / 2) && result.avg_fitness@[i].total
                    <= result.avg_fitness@[i].count * pairs(old(self).side() as nat),
            num_iterations > 0 ==> result.avg_fitness@[num_iterations - 1].total == total_of(
                final(self).scores(),
            ),
            forall|i: int|
                0 <= i < result.sample@.len() ==> valid_rows(#[trigger] result.sample@[i]@)
                    && result.sample@[i]@.len() == old(self).side(),
            exists|history: Seq<Seq<Seq<u8>>>| #[trigger]
                explains(
                    history,
                    old(self).genes(),
                    num_iterations as int,
                    old(self).side(),
                    mutate_threshold as int,
                    final(self).genes(),
                    rows_of(result.correct@),
                    result.avg_fitness@,
                    rows_of(result.sample@),
                ),
    {
        let mut rng = fresh_generator();
        let mut result = Result {
            correct: Vec::new(),
            avg_fitness: Vec::new(),
            sample: Vec::new(),
        };
        self.fitness();
        self.probability();
        let ghost mut history: Seq<Seq<Seq<u8>>> = seq![self.genes()];
        assert(rows_of(result.correct@) == correct_of(history, 0));
        assert(rows_of(result.sample@) == samples_of(history, 0));

        let mut iteration: usize = 0;
        while iteration < num_iterations
            invariant
                self.wf(),
                self.evaluated(),
                self.board() == old(self).board(),
                iteration <= num_iterations,
                explains(
                    history,
                    old(self).genes(),
                    iteration as int,
                    self.side(),
                    mutate_threshold as int,
                    self.genes(),
                    rows_of(result.correct@),
                    result.avg_fitness@,
                    rows_of(result.sample@),
                ),
                num_iterations > 0 ==> old(self).genes().len() >= 2 && self.side() >= 5,
                self.genes().len() == if iteration == 0 {
                    old(self).genes().len()
                } else {
                    2 * (old(self).genes().len() / 2)
                },
                result.avg_fitness@.len() == iteration,
                result.sample@.len() == (iteration + SAMPLE_PERIOD - 1) / (SAMPLE_PERIOD as int),
                forall|i: int|
                    0 <= i < result.correct@.len() ==> valid_rows(#[trigger] result.correct@[i]@)
                        && result.correct@[i]@.len() == self.side() && fitness_of(
                        result.correct@[i]@,
                    ) == pairs(self.side() as nat),
                forall|i: int|
                    0 <= i < result.avg_fitness@.len() ==> (#[trigger] result.avg_fitness@[i]).count
                        == 2 * (old(self).genes().len() / 2) && result.avg_fitness@[i].total
                        <= result.avg_fitness@[i].count * pairs(self.side() as nat),
                iteration > 0 ==> result.avg_fitness@[iteration - 1].total == total_of(
                    self.scores(),
                ),
                forall|i: int|
                    0 <= i < result.sample@.len() ==> valid_rows(#[trigger] result.sample@[i]@)
                        && result.sample@[i]@.len() == self.side(),
            decreases num_iterations - iteration,
        {
            let ghost parents = self.genes();
            assert(self.scores() == scores_of(parents));
            self.reproduce(&mut rng, mutate_threshold);
            self.fitness();
            self.probability();
            assert(self.scores() == scores_of(self.genes()));

            let ghost earlier = result;
            let ghost past = history;
            self.record(iteration, &mut result);
            proof {
                history = past.push(self.genes());
                let now = iteration + 1;
                assert(is_offspring(parents, self.genes(), self.side(), mutate_threshold as int));
                assert forall|g: int| 0 <= g < now implies is_offspring(
                    #[trigger] history[g],
                    history[g + 1],
                    self.side(),
                    mutate_threshold as int,
                ) by {
                    if g < iteration {
                        assert(history[g] == past[g]);
                        assert(history[g + 1] == past[g + 1]);
                    }
                }
                lemma_correct_of_prefix(past, self.genes(), iteration as int);
                lemma_samples_of_prefix(past, self.genes(), iteration as int);
                assert(rows_of(result.correct@) == correct_of(history, now));
                assert(rows_of(result.sample@) == samples_of(history, now));
                assert forall|g: int| 0 <= g < result.avg_fitness@.len() implies (
                #[trigger] result.avg_fitness@[g]).total == total_of(scores_of(history[g + 1]))
                    && result.avg_fitness@[g].count == history[g + 1].len() by {
                    if g < iteration {
                        assert(result.avg_fitness@[g] == result.avg_fitness@.drop_last()[g]);
                        assert(history[g + 1] == past[g + 1]);
                    } else {
                        assert(result.avg_fitness@[g] == result.avg_fitness@.last());
                    }
                }
                let n = self.genes().len() as int;
                let won = winners(self.genes(), n);
                lemma_winners_are_members(self.genes(), n);
                lemma_sum_of_capped(self.scores(), n, pairs(self.side() as nat) as int);
                assert(rows_of(result.correct@).len() == result.correct@.len());
                assert(rows_of(result.sample@).len() == result.sample@.len());
                assert(rows_of(earlier.correct@).len() == earlier.correct@.len());
                assert(rows_of(earlier.sample@).len() == earlier.sample@.len());
                assert forall|i: int| 0 <= i < result.correct@.len() implies valid_rows(
                    #[trigger] result.correct@[i]@,
                ) && result.correct@[i]@.len() == self.side() && fitness_of(result.correct@[i]@)
                    == pairs(self.side() as nat) by {
                    assert(result.correct@[i]@ == rows_of(result.correct@)[i]);
                    if i < earlier.correct@.len() {
                        assert(rows_of(earlier.correct@)[i] == earlier.correct@[i]@);
                    } else {
                        let w = i - earlier.correct@.len();
                        assert(rows_of(result.correct@)[i] == won[w]);
                        let m = choose|m: int|
                            0 <= m < n && won[w] == self.genes()[m] && fitness_of(self.genes()[m])
                                == pairs(self.genes()[m].len());
                        assert(valid_rows(self.genes()[m]));
                    }
                }
                assert forall|i: int| 0 <= i < result.avg_fitness@.len() implies (
                #[trigger] result.avg_fitness@[i]).count == 2 * (old(self).genes().len() / 2)
                    && result.avg_fitness@[i].total <= result.avg_fitness@[i].count * pairs(
                    self.side() as nat,
                ) by {
                    if i < earlier.avg_fitness@.len() {
                        assert(result.avg_fitness@[i] == result.avg_fitness@.drop_last()[i]);
                    } else {
                        assert(result.avg_fitness@[i] == result.avg_fitness@.last());
                    }
                }
                assert forall|i: int| 0 <= i < result.sample@.len() implies valid_rows(
                    #[trigger] result.sample@[i]@,
                ) && result.sample@[i]@.len() == self.side() by {
                    assert(result.sample@[i]@ == rows_of(result.sample@)[i]);
                    if i < earlier.sample@.len() {
                        assert(rows_of(earlier.sample@)[i] == earlier.sample@[i]@);
                    } else {
                        assert(valid_rows(self.genes()[0]));
                    }
                }
            }
            iteration = iteration + 1;
        }

        result
    }
}

} // verus!
