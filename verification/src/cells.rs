//! The `ndarray` arrays of a single board: the grid of its cells, and the
//! flags that mark queens as matched when two boards are held together.
//!
//! Verus does not look inside these arrays. What they hold is named by
//! [`cell_grid_items`] and [`flag_array_items`], and each function here
//! states, without proof, what one `ndarray` call does to them.

use vstd::prelude::*;
use ndarray::{Array1, Array2};

verus! {

/// A two-dimensional `ndarray` array of cells,
/// `ndarray::Array2<Option<usize>>`. A cell is empty or holds the number of
/// a queen. The field is hidden from Verus.
#[verifier::external_body]
pub struct CellGrid {
    inner: Array2<Option<usize>>,
}

/// The cells that a grid holds: its rows from the first down, and in each
/// row the cells from the first column on. It has no definition: the
/// functions below say what the calls into `ndarray` do to it.
pub uninterp spec fn cell_grid_items(g: CellGrid) -> Seq<Seq<Option<usize>>>;

impl CellGrid {
    /// Calls `ndarray::Array2::from_elem` with an empty cell. Claimed: the
    /// grid has `rows` rows of `columns` empty cells each. The call panics
    /// when the product of those of the two lengths that are not zero
    /// exceeds `isize::MAX`, so a length above that is left out even
    /// beside a length of zero.
    #[verifier::external_body]
    pub(crate) fn empty(rows: usize, columns: usize) -> (g: CellGrid)
        requires
            rows <= isize::MAX,
            columns <= isize::MAX,
            rows * columns <= isize::MAX,
        ensures
            cell_grid_items(g) == Seq::new(
                rows as nat,
                |r: int| Seq::new(columns as nat, |c: int| None::<usize>),
            ),
    {
        CellGrid { inner: Array2::from_elem((rows, columns), None) }
    }

    /// Calls `index` of an `ndarray` array, written `grid[[row, column]]`.
    /// Claimed: it is the cell of `row` and `column`. The call panics
    /// outside the grid.
    #[verifier::external_body]
    pub(crate) fn get(&self, row: usize, column: usize) -> (cell: Option<usize>)
        requires
            row < cell_grid_items(*self).len(),
            column < cell_grid_items(*self)[row as int].len(),
        ensures
            cell == cell_grid_items(*self)[row as int][column as int],
    {
        self.inner[[row, column]]
    }

    /// Calls `index_mut` of an `ndarray` array, written
    /// `grid[[row, column]] = cell`. Claimed: the cell of `row` and
    /// `column` becomes `cell`, and the others stay. The call panics
    /// outside the grid.
    #[verifier::external_body]
    pub(crate) fn set(&mut self, row: usize, column: usize, cell: Option<usize>)
        requires
            row < cell_grid_items(*old(self)).len(),
            column < cell_grid_items(*old(self))[row as int].len(),
        ensures
            cell_grid_items(*final(self)) == cell_grid_items(*old(self)).update(
                row as int,
                cell_grid_items(*old(self))[row as int].update(column as int, cell),
            ),
    {
        self.inner[[row, column]] = cell;
    }

    /// Calls `clone` of an `ndarray` array. Claimed: the copy holds the
    /// same cells.
    #[verifier::external_body]
    pub(crate) fn duplicate(&self) -> (copy: CellGrid)
        ensures
            cell_grid_items(copy) == cell_grid_items(*self),
    {
        CellGrid { inner: self.inner.clone() }
    }
}

/// A one-dimensional `ndarray` array of flags, `ndarray::Array1<bool>`.
/// The field is hidden from Verus.
#[verifier::external_body]
pub struct FlagArray {
    inner: Array1<bool>,
}

/// The flags that an array holds, in index order. It has no definition:
/// the functions below say what the calls into `ndarray` do to it.
pub uninterp spec fn flag_array_items(a: FlagArray) -> Seq<bool>;

impl FlagArray {
    /// Calls `ndarray::Array1::from_elem` with `false`. Claimed: the array
    /// holds `n` flags, none of them set. The call panics when `n` exceeds
    /// `isize::MAX`.
    #[verifier::external_body]
    pub(crate) fn cleared(n: usize) -> (a: FlagArray)
        requires
            n <= isize::MAX,
        ensures
            flag_array_items(a) == Seq::new(n as nat, |i: int| false),
    {
        FlagArray { inner: Array1::from_elem(n, false) }
    }

    /// Calls `index` of an `ndarray` array, written `array[i]`. Claimed:
    /// it is the flag at `i`. The call panics past the end.
    #[verifier::external_body]
    pub(crate) fn get(&self, i: usize) -> (flag: bool)
        requires
            i < flag_array_items(*self).len(),
        ensures
            flag == flag_array_items(*self)[i as int],
    {
        self.inner[i]
    }

    /// Calls `index_mut` of an `ndarray` array, written
    /// `array[i] = flag`. Claimed: the flag at `i` becomes `flag`, and the
    /// others stay. The call panics past the end.
    #[verifier::external_body]
    pub(crate) fn set(&mut self, i: usize, flag: bool)
        requires
            i < flag_array_items(*old(self)).len(),
        ensures
            flag_array_items(*final(self)) == flag_array_items(*old(self)).update(i as int, flag),
    {
        self.inner[i] = flag;
    }
}

} // verus!
