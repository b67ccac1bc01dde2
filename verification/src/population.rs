//! The `ndarray` arrays of a population: its genes, and one fitness value
//! for each of them.
//!
//! As with a gene's rows, Verus does not look inside these arrays. What
//! they hold is named by [`gene_array_items`] and [`fitness_array_items`],
//! and each function marked as unproved states what one `ndarray` call
//! does to those sequences.

use vstd::prelude::*;
use ndarray::Array1;
use crate::gene::Gene;

verus! {

/// A one-dimensional `ndarray` array of genes, `ndarray::Array1<Gene>`.
/// The field is hidden from Verus.
#[verifier::external_body]
pub struct GeneArray {
    inner: Array1<Gene>,
}

/// The rows of each gene that an array holds, in index order. It has no
/// definition: the functions below say what the calls into `ndarray` do to
/// it.
pub uninterp spec fn gene_array_items(a: GeneArray) -> Seq<Seq<u8>>;

impl GeneArray {
    /// Calls `ndarray::Array1::from_vec`. Claimed: the array holds the
    /// vector's genes, in their order.
    #[verifier::external_body]
    pub(crate) fn from_vec(genes: Vec<Gene>) -> (a: GeneArray)
        ensures
            gene_array_items(a) == Seq::new(genes@.len(), |i: int| genes@[i]@),
    {
        GeneArray { inner: Array1::from_vec(genes) }
    }

    /// Calls `len` of an `ndarray` array. Claimed: it is the number of
    /// genes held.
    #[verifier::external_body]
    pub(crate) fn len(&self) -> (n: usize)
        ensures
            n == gene_array_items(*self).len(),
    {
        self.inner.len()
    }

    /// Calls `index` of an `ndarray` array, written `&array[i]`. Claimed:
    /// it is the gene at `i`. The call panics past the end.
    #[verifier::external_body]
    pub(crate) fn get(&self, i: usize) -> (gene: &Gene)
        requires
            i < gene_array_items(*self).len(),
        ensures
            gene@ == gene_array_items(*self)[i as int],
    {
        &self.inner[i]
    }
}

/// A one-dimensional `ndarray` array of fitness values,
/// `ndarray::Array1<u32>`. The field is hidden from Verus.
#[verifier::external_body]
pub struct FitnessArray {
    inner: Array1<u32>,
}

/// The values that an array holds, in index order. It has no definition:
/// the functions below say what the calls into `ndarray` do to it.
pub uninterp spec fn fitness_array_items(a: FitnessArray) -> Seq<u32>;

/// The sum of the first `count` values.
pub open spec fn sum_of(values: Seq<u32>, count: int) -> int
    decreases count,
{
    if count <= 0 {
        0
    } else {
        sum_of(values, count - 1) + values[count - 1]
    }
}

/// The sum of all the values.
pub open spec fn total_of(values: Seq<u32>) -> int {
    sum_of(values, values.len() as int)
}

impl FitnessArray {
    /// Calls `ndarray::Array1::from_vec`. Claimed: the array holds the
    /// vector's values, in their order.
    #[verifier::external_body]
    pub(crate) fn from_vec(values: Vec<u32>) -> (a: FitnessArray)
        ensures
            fitness_array_items(a) == values@,
    {
        FitnessArray { inner: Array1::from_vec(values) }
    }

    /// Calls `len` of an `ndarray` array. Claimed: it is the number of
    /// values held.
    #[verifier::external_body]
    pub(crate) fn len(&self) -> (n: usize)
        ensures
            n == fitness_array_items(*self).len(),
    {
        self.inner.len()
    }

    /// Calls `index` of an `ndarray` array, written `array[i]`. Claimed:
    /// it is the value at `i`. The call panics past the end.
    #[verifier::external_body]
    pub(crate) fn get(&self, i: usize) -> (v: u32)
        requires
            i < fitness_array_items(*self).len(),
        ensures
            v == fitness_array_items(*self)[i as int],
    {
        self.inner[i]
    }

    /// Calls `sum` of an `ndarray` array. Claimed: it is the sum of the
    /// values. The call adds with the `+` of `u32`, which may panic when a
    /// sum does not fit, so such arrays are left out.
    #[verifier::external_body]
    pub(crate) fn sum(&self) -> (total: u32)
        requires
            total_of(fitness_array_items(*self)) <= u32::MAX,
        ensures
            total == total_of(fitness_array_items(*self)),
    {
        self.inner.sum()
    }

    /// An array of the given values, in their order.
    pub fn from_values(values: Vec<u32>) -> (a: FitnessArray)
        ensures
            a@ == values@,
    {
        FitnessArray::from_vec(values)
    }

    /// The values held, in order.
    pub fn values(&self) -> (values: Vec<u32>)
        ensures
            values@ == self@,
    {
        let n: usize = self.len();
        let mut values: Vec<u32> = Vec::new();
        let mut i: usize = 0;
        while i < n
            invariant
                n == self@.len(),
                i <= n,
                values@ == self@.subrange(0, i as int),
            decreases n - i,
        {
            values.push(self.get(i));
            i = i + 1;
        }
        values
    }
}

impl View for FitnessArray {
    type V = Seq<u32>;

    open spec fn view(&self) -> Seq<u32> {
        fitness_array_items(*self)
    }
}

impl View for GeneArray {
    type V = Seq<Seq<u8>>;

    open spec fn view(&self) -> Seq<Seq<u8>> {
        gene_array_items(*self)
    }
}

/// A partial sum is never negative and never above a later one.
pub proof fn lemma_sum_of_grows(values: Seq<u32>, from: int, to: int)
    requires
        from <= to,
    ensures
        0 <= sum_of(values, from) <= sum_of(values, to),
    decreases to - from,
{
    if from < to {
        lemma_sum_of_grows(values, from, to - 1);
    } else {
        lemma_sum_of_nonnegative(values, from);
    }
}

/// A partial sum is never negative.
pub proof fn lemma_sum_of_nonnegative(values: Seq<u32>, count: int)
    ensures
        0 <= sum_of(values, count),
    decreases count,
{
    if count > 0 {
        lemma_sum_of_nonnegative(values, count - 1);
    }
}

/// Where no value is above `cap`, the sum of the first `count` values is
/// at most `count` times `cap`.
pub proof fn lemma_sum_of_capped(values: Seq<u32>, count: int, cap: int)
    requires
        0 <= count <= values.len(),
        forall|i: int| 0 <= i < values.len() ==> values[i] <= cap,
    ensures
        sum_of(values, count) <= count * cap,
    decreases count,
{
    if count > 0 {
        lemma_sum_of_capped(values, count - 1, cap);
        assert(count * cap == (count - 1) * cap + cap) by (nonlinear_arith);
    } else {
        assert(count * cap == 0) by (nonlinear_arith)
            requires
                count == 0,
        ;
    }
}

} // verus!
