//! A single board of eight queens, one in each column: made, shuffled,
//! drawn, and checked for queens that threaten each other. No search is
//! made here.

use vstd::prelude::*;
use vstd::string::StringExecFns;
use crate::cells::{cell_grid_items, flag_array_items, CellGrid, FlagArray};
use crate::random::{fresh_generator, range};
use crate::vector::Vector2;

verus! {

/// The side of the board, and the number of its queens.
pub const SIDE: usize = 8;

/// A queen standing on one cell of the board.
#[derive(Clone, Copy, Debug)]
pub struct Queen {
    pub position: Vector2,
}

impl Queen {
    /// A queen at `position`.
    pub fn new(position: Vector2) -> (queen: Queen)
        ensures
            queen.position == position,
    {
        Queen { position }
    }
}

/// Whether queens at `p` and `q` threaten each other: they share a row, a
/// column or a diagonal. Pieces between them are not looked at.
pub open spec fn threatens(p: Vector2, q: Vector2) -> bool {
    let dx = p.x - q.x;
    let dy = p.y - q.y;
    dx == 0 || dy == 0 || dx == dy || dx == -dy
}

/// The number of queens `k` with `i < k < upto` that queen `i` threatens.
pub open spec fn threats_from(positions: Seq<Vector2>, i: int, upto: int) -> nat
    decreases upto - i,
{
    if upto <= i + 1 {
        0
    } else {
        threats_from(positions, i, upto - 1) + if threatens(positions[i], positions[upto - 1]) {
            1nat
        } else {
            0nat
        }
    }
}

/// The number of threatened pairs whose first queen is before `queens`.
pub open spec fn threats_before(positions: Seq<Vector2>, queens: int) -> nat
    decreases queens,
{
    if queens <= 0 {
        0
    } else {
        threats_before(positions, queens - 1) + threats_from(
            positions,
            queens - 1,
            positions.len() as int,
        )
    }
}

/// The number of pairs of queens that threaten each other.
pub open spec fn threatened_pairs(positions: Seq<Vector2>) -> nat {
    threats_before(positions, positions.len() as int)
}

/// The cell of `row` and `column` on a board with queens at `positions`:
/// the number of the column's queen where it stands on that row.
pub open spec fn cell_of(positions: Seq<Vector2>, row: int, column: int) -> Option<usize> {
    if positions[column].x == row {
        Some(column as usize)
    } else {
        None
    }
}

/// The first `columns` cells of one row as text: `Q` for a queen and `_`
/// for an empty cell, each followed by a space.
pub open spec fn row_text(cells: Seq<Option<usize>>, columns: int) -> Seq<char>
    decreases columns,
{
    if columns <= 0 {
        Seq::empty()
    } else {
        row_text(cells, columns - 1) + seq![
            if cells[columns - 1] is Some {
                'Q'
            } else {
                '_'
            },
            ' ',
        ]
    }
}

/// The first `rows` rows of a grid as text, each ended by a line feed.
pub open spec fn grid_text(cells: Seq<Seq<Option<usize>>>, rows: int) -> Seq<char>
    decreases rows,
{
    if rows <= 0 {
        Seq::empty()
    } else {
        grid_text(cells, rows - 1) + row_text(cells[rows - 1], cells[rows - 1].len() as int)
            + seq!['\n']
    }
}

proof fn lemma_threats_from_bound(positions: Seq<Vector2>, i: int, upto: int)
    requires
        i < upto,
    ensures
        threats_from(positions, i, upto) <= upto - i - 1,
    decreases upto - i,
{
    if upto > i + 1 {
        lemma_threats_from_bound(positions, i, upto - 1);
    }
}

/// A board of eight queens, with the grid of its cells.
pub struct Board {
    pieces: Vec<Queen>,
    dimension: Vector2,
    map: CellGrid,
}

impl Board {
    /// Where each queen stands, by the number of the queen.
    pub closed spec fn positions(&self) -> Seq<Vector2> {
        Seq::new(self.pieces@.len(), |i: int| self.pieces@[i].position)
    }

    /// The grid of cells: for each row, the cells of its columns.
    pub closed spec fn cells(&self) -> Seq<Seq<Option<usize>>> {
        cell_grid_items(self.map)
    }

    /// The dimension of the board.
    pub closed spec fn dimension(&self) -> Vector2 {
        self.dimension
    }

    /// The board is eight by eight, queen `c` stands in column `c` on a
    /// row of the board, and the grid shows each queen where it stands.
    pub open spec fn wf(&self) -> bool {
        &&& self.dimension() == (Vector2 { x: 8, y: 8 })
        &&& self.positions().len() == SIDE
        &&& forall|c: int|
            0 <= c < SIDE ==> (#[trigger] self.positions()[c]).y == c && 0
                <= self.positions()[c].x < SIDE
        &&& self.cells().len() == SIDE
        &&& forall|r: int| 0 <= r < SIDE ==> (#[trigger] self.cells()[r]).len() == SIDE
        &&& forall|r: int, c: int|
            0 <= r < SIDE && 0 <= c < SIDE ==> #[trigger] self.cells()[r][c] == cell_of(
                self.positions(),
                r,
                c,
            )
    }

    /// A board with every queen on row 0.
    pub fn new() -> (board: Board)
        ensures
            board.wf(),
            board.positions() == Seq::new(SIDE as nat, |c: int| Vector2 { x: 0, y: c as i32 }),
    {
        let mut pieces: Vec<Queen> = Vec::new();
        let dimension = Vector2::new(8, 8);
        let shape = dimension.dim();
        let mut map = CellGrid::empty(shape.0, shape.1);
        let mut c: usize = 0;
        while c < SIDE
            invariant
                c <= SIDE,
                pieces@.len() == c,
                forall|k: int|
                    0 <= k < c ==> (#[trigger] pieces@[k]).position == (Vector2 {
                        x: 0,
                        y: k as i32,
                    }),
                cell_grid_items(map).len() == SIDE,
                forall|r: int| 0 <= r < SIDE ==> (#[trigger] cell_grid_items(map)[r]).len() == SIDE,
                forall|r: int, k: int|
                    0 <= r < SIDE && 0 <= k < SIDE ==> #[trigger] cell_grid_items(map)[r][k] == (
                    if r == 0 && k < c {
                        Some(k as usize)
                    } else {
                        None
                    }),
            decreases SIDE - c,
        {
            pieces.push(Queen::new(Vector2::new(0, c as i32)));
            map.set(0, c, Some(c));
            c = c + 1;
        }
        let board = Board { pieces, dimension, map };
        assert(board.positions() =~= Seq::new(SIDE as nat, |c: int| Vector2 { x: 0, y: c as i32 }));
        board
    }

    /// A board with every queen on a random row of its column.
    pub fn new_random() -> (board: Board)
        ensures
            board.wf(),
    {
        let board = Board::new();
        board.randomize()
    }

    /// A copy of the board on which every queen has moved to a random row
    /// of its column.
    pub fn randomize(&self) -> (shuffled: Board)
        requires
            self.wf(),
        ensures
            shuffled.wf(),
    {
        let mut pieces: Vec<Queen> = Vec::new();
        let mut k: usize = 0;
        while k < SIDE
            invariant
                self.wf(),
                k <= SIDE,
                pieces@.len() == k,
                forall|c: int|
                    0 <= c < k ==> (#[trigger] pieces@[c]).position == self.positions()[c],
            decreases SIDE - k,
        {
            assert(self.positions()[k as int] == self.pieces@[k as int].position);
            pieces.push(self.pieces[k]);
            k = k + 1;
        }
        let mut shuffled = Board { pieces, dimension: self.dimension, map: self.map.duplicate() };
        assert(shuffled.positions() =~= self.positions());
        let mut rng = fresh_generator();

        let mut j: usize = 0;
        while j < SIDE
            invariant
                j <= SIDE,
                shuffled.wf(),
            decreases SIDE - j,
        {
            let row: usize = range(&mut rng, 0, SIDE);
            shuffled.move_queen(j, row);
            j = j + 1;
        }
        shuffled
    }

    /// Moves the queen of `column` to `row`: its old cell is emptied and
    /// the cell of `row` takes the queen. The other queens stay.
    pub fn move_queen(&mut self, column: usize, row: usize)
        requires
            old(self).wf(),
            column < SIDE,
            row < SIDE,
        ensures
            final(self).wf(),
            final(self).dimension() == old(self).dimension(),
            final(self).positions() == old(self).positions().update(
                column as int,
                Vector2 { x: row as i32, y: column as i32 },
            ),
    {
        let mut queen = self.pieces[column];
        assert(queen.position == self.positions()[column as int]);
        let at = queen.position.index();
        self.map.set(at.0, at.1, None);
        queen.position.x = row as i32;
        let at = queen.position.index();
        self.map.set(at.0, at.1, Some(column));
        self.pieces.set(column, queen);
        assert(self.positions() =~= old(self).positions().update(
            column as int,
            Vector2 { x: row as i32, y: column as i32 },
        ));
        assert forall|r: int, c: int|
            0 <= r < SIDE && 0 <= c < SIDE implies #[trigger] self.cells()[r][c] == cell_of(
            self.positions(),
            r,
            c,
        ) by {
            assert(old(self).cells()[r][c] == cell_of(old(self).positions(), r, c));
        }
    }

    /// Where each queen stands, by the number of the queen.
    pub fn queens(&self) -> (positions: Vec<Vector2>)
        ensures
            positions@ == self.positions(),
    {
        let n: usize = self.pieces.len();
        let mut positions: Vec<Vector2> = Vec::new();
        let mut i: usize = 0;
        while i < n
            invariant
                n == self.pieces@.len(),
                i <= n,
                positions@ == self.positions().subrange(0, i as int),
            decreases n - i,
        {
            positions.push(self.pieces[i].position);
            i = i + 1;
        }
        positions
    }

    /// The number of pairs of queens that threaten each other. Pieces that
    /// stand between two queens are not taken into account.
    pub fn check_queens(&self) -> (count: u32)
        requires
            self.wf(),
        ensures
            count == threatened_pairs(self.positions()),
    {
        let n: usize = self.pieces.len();
        let mut count: u32 = 0;
        let mut i: usize = 0;
        while i < n
            invariant
                self.wf(),
                n == SIDE,
                i <= n,
                count == threats_before(self.positions(), i as int),
                count <= i * SIDE,
            decreases n - i,
        {
            let queen1 = self.pieces[i];
            let ghost before = count;
            let mut k: usize = i + 1;
            while k < n
                invariant
                    self.wf(),
                    n == SIDE,
                    i < n,
                    i + 1 <= k <= n,
                    queen1.position == self.positions()[i as int],
                    before <= i * SIDE,
                    count == before + threats_from(self.positions(), i as int, k as int),
                decreases n - k,
            {
                let queen2 = self.pieces[k];
                assert(queen2.position == self.positions()[k as int]);
                proof {
                    lemma_threats_from_bound(self.positions(), i as int, k as int);
                }
                let dx: i32 = queen1.position.x - queen2.position.x;
                let dy: i32 = queen1.position.y - queen2.position.y;
                if dx == 0 || dy == 0 || dx == dy || dx == -dy {
                    count = count + 1;
                }
                k = k + 1;
            }
            proof {
                lemma_threats_from_bound(self.positions(), i as int, n as int);
            }
            i = i + 1;
        }
        count
    }

    /// Whether both boards hold the same queens. Each queen of `self` is
    /// matched with the first queen of `other` that stands on the same
    /// cell and is not matched yet; the boards are equal when every queen
    /// of `other` is matched in the end.
    pub fn eq(&self, other: &Board) -> (same: bool)
        requires
            self.wf(),
            other.wf(),
        ensures
            same == (self.positions() == other.positions()),
    {
        if self.pieces.len() != other.pieces.len() {
            return false;
        }
        let n: usize = self.pieces.len();
        let mut truth = FlagArray::cleared(n);
        let mut i: usize = 0;
        while i < n
            invariant
                self.wf(),
                other.wf(),
                n == SIDE,
                n == self.pieces@.len(),
                n == other.pieces@.len(),
                i <= n,
                flag_array_items(truth).len() == n,
                forall|j: int|
                    0 <= j < n ==> (#[trigger] flag_array_items(truth)[j] <==> (j < i
                        && self.positions()[j] == other.positions()[j])),
            decreases n - i,
        {
            let queen1 = self.pieces[i];
            assert(queen1.position == self.positions()[i as int]);
            let ghost flags = flag_array_items(truth);
            let mut j: usize = 0;
            let mut found = false;
            while j < n && !found
                invariant
                    self.wf(),
                    other.wf(),
                    n == SIDE,
                    n == other.pieces@.len(),
                    i < n,
                    j <= n,
                    queen1.position == self.positions()[i as int],
                    flags.len() == n,
                    forall|m: int|
                        0 <= m < n ==> (#[trigger] flags[m] <==> (m < i && self.positions()[m]
                            == other.positions()[m])),
                    !found ==> flag_array_items(truth) == flags,
                    !found ==> forall|m: int|
                        0 <= m < j ==> !(m == i && self.positions()[i as int]
                            == #[trigger] other.positions()[m]),
                    found ==> flag_array_items(truth) == flags.update(i as int, true)
                        && self.positions()[i as int] == other.positions()[i as int],
                decreases 2 * (n - j) + if found { 0int } else { 1int },
            {
                let queen2 = other.pieces[j];
                assert(queen2.position == other.positions()[j as int]);
                if !truth.get(j) && queen1.position == queen2.position {
                    assert(j == i);
                    truth.set(j, true);
                    found = true;
                } else {
                    assert(queen1.position == queen2.position ==> flags[j as int]);
                    j = j + 1;
                }
            }
            assert forall|m: int| 0 <= m < n implies (#[trigger] flag_array_items(truth)[m] <==> (m
                < i + 1 && self.positions()[m] == other.positions()[m])) by {
                assert(flags[m] <==> (m < i && self.positions()[m] == other.positions()[m]));
            }
            i = i + 1;
        }
        let mut t: usize = 0;
        while t < n
            invariant
                n == SIDE,
                self.positions().len() == n,
                other.positions().len() == n,
                t <= n,
                flag_array_items(truth).len() == n,
                forall|j: int|
                    0 <= j < n ==> (#[trigger] flag_array_items(truth)[j] <==> self.positions()[j]
                        == other.positions()[j]),
                forall|j: int| 0 <= j < t ==> self.positions()[j] == other.positions()[j],
            decreases n - t,
        {
            if !truth.get(t) {
                assert(self.positions()[t as int] != other.positions()[t as int]);
                return false;
            }
            t = t + 1;
        }
        assert(self.positions() =~= other.positions());
        true
    }

    /// The board drawn as text: one line for each row, and on it `Q` for a
    /// queen and `_` for an empty cell, each followed by a space.
    pub fn to_string(&self) -> (text: String)
        requires
            self.wf(),
        ensures
            text@ == grid_text(self.cells(), SIDE as int),
    {
        let mut string = String::new();
        let mut r: usize = 0;
        while r < SIDE
            invariant
                self.wf(),
                r <= SIDE,
                string@ == grid_text(self.cells(), r as int),
            decreases SIDE - r,
        {
            let ghost above = string@;
            let mut c: usize = 0;
            while c < SIDE
                invariant
                    self.wf(),
                    r < SIDE,
                    c <= SIDE,
                    string@ == above + row_text(self.cells()[r as int], c as int),
                decreases SIDE - c,
            {
                let ghost left = string@;
                proof {
                    reveal_strlit("Q ");
                    reveal_strlit("_ ");
                }
                match self.map.get(r, c) {
                    Some(_) => {
                        string.append("Q ");
                        assert(string@ == left + seq!['Q', ' ']);
                    },
                    None => {
                        string.append("_ ");
                        assert(string@ == left + seq!['_', ' ']);
                    },
                }
                c = c + 1;
            }
            proof {
                reveal_strlit("\n");
            }
            string.append("\n");
            assert(string@ == above + row_text(self.cells()[r as int], SIDE as int) + seq!['\n']);
            r = r + 1;
        }
        string
    }
}

} // verus!
