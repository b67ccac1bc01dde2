//! The chromosome of the search: one queen per column, stored as the row
//! on which each column's queen stands.

use vstd::prelude::*;
use vstd::pervasive::unreached;
use vstd::string::StringExecFns;
use bracket_lib::random::RandomNumberGenerator;
use crate::random::range;
use crate::rows::{row_array_items, RowArray};
use crate::vector::Vector2;

verus! {

/// The largest board side. Rows are stored as bytes, and the side itself is
/// handed to the random draws as a byte.
pub const MAX_SIDE: usize = 255;

/// The number of unordered pairs among `n` columns.
pub open spec fn pairs(n: nat) -> nat {
    (n * (n - 1) / 2) as nat
}

/// Rows that fit a board: at most `MAX_SIDE` columns, and each queen on a
/// row of the board, whose side is the number of columns.
pub open spec fn valid_rows(rows: Seq<u8>) -> bool {
    &&& rows.len() <= MAX_SIDE
    &&& forall|c: int| 0 <= c < rows.len() ==> rows[c] < rows.len()
}

/// Whether the queens of columns `i` and `k`, with `i < k`, count as
/// attacking each other.
///
/// Column `k` is measured by its offset among the columns that follow `i`,
/// so that the column next to `i` has offset 0. With `d` the difference of
/// `i` and that offset, the pair attacks when `d` is zero, when both queens
/// share a row, or when `d` equals the difference of the two rows. This is
/// not the geometric diagonal: the pair of columns `i` and `2 * i + 1`
/// always attacks.
pub open spec fn attacks(rows: Seq<u8>, i: int, k: int) -> bool {
    let d = i - (k - i - 1);
    let rise = rows[i] - rows[k];
    d == 0 || rise == 0 || d == rise
}

/// The number of columns `k` with `i < k < upto` whose queen attacks the
/// queen of column `i`.
pub open spec fn attacks_from(rows: Seq<u8>, i: int, upto: int) -> nat
    decreases upto - i,
{
    if upto <= i + 1 {
        0
    } else {
        attacks_from(rows, i, upto - 1) + if attacks(rows, i, upto - 1) {
            1nat
        } else {
            0nat
        }
    }
}

/// The number of attacking pairs whose first column is before `columns`.
pub open spec fn conflicts_before(rows: Seq<u8>, columns: int) -> nat
    decreases columns,
{
    if columns <= 0 {
        0
    } else {
        conflicts_before(rows, columns - 1) + attacks_from(rows, columns - 1, rows.len() as int)
    }
}

/// The number of attacking pairs of columns.
pub open spec fn conflicts(rows: Seq<u8>) -> nat {
    conflicts_before(rows, rows.len() as int)
}

/// The fitness of a board: the pairs of columns that do not attack.
pub open spec fn fitness_of(rows: Seq<u8>) -> int {
    pairs(rows.len()) - conflicts(rows)
}

/// The rows of a board of `n` columns with every queen on row 0.
pub open spec fn zero_rows(n: nat) -> Seq<u8> {
    Seq::new(n, |c: int| 0u8)
}

/// One more column adds as many pairs as there were columns.
pub proof fn lemma_pairs_step(n: nat)
    ensures
        pairs(n + 1) == pairs(n) + n,
{
    assert((n + 1) * n == n * (n - 1) + 2 * n) by (nonlinear_arith);
}

/// A column attacks at most every column between it and `upto`.
pub proof fn lemma_attacks_from_bound(rows: Seq<u8>, i: int, upto: int)
    requires
        i < upto,
    ensures
        attacks_from(rows, i, upto) <= upto - i - 1,
    decreases upto - i,
{
    if upto > i + 1 {
        lemma_attacks_from_bound(rows, i, upto - 1);
    }
}

/// The attacking pairs that start before `columns` are at most the pairs
/// that start there.
pub proof fn lemma_conflicts_before_bound(rows: Seq<u8>, columns: int)
    requires
        0 <= columns <= rows.len(),
    ensures
        conflicts_before(rows, columns) + pairs((rows.len() - columns) as nat) <= pairs(
            rows.len(),
        ),
    decreases columns,
{
    if columns > 0 {
        lemma_conflicts_before_bound(rows, columns - 1);
        lemma_attacks_from_bound(rows, columns - 1, rows.len() as int);
        lemma_pairs_step((rows.len() - columns) as nat);
    }
}

/// There are never more attacking pairs than pairs, so fitness is never
/// negative and never above the number of pairs.
pub proof fn lemma_fitness_range(rows: Seq<u8>)
    ensures
        0 <= fitness_of(rows) <= pairs(rows.len()),
{
    lemma_conflicts_before_bound(rows, rows.len() as int);
}

/// A board of at most `MAX_SIDE` columns has at most 32385 pairs.
pub proof fn lemma_pairs_bound(n: nat)
    requires
        n <= MAX_SIDE,
    ensures
        pairs(n) <= 32385,
        0 <= n * (n - 1) <= 64770,
{
    assert(0 <= n * (n - 1) <= 255 * 254) by (nonlinear_arith)
        requires
            0 <= n <= 255,
    ;
}

/// The number of unordered pairs among `n` columns.
pub fn pair_count(n: usize) -> (count: u32)
    requires
        n <= MAX_SIDE,
    ensures
        count == pairs(n as nat),
{
    if n == 0 {
        0
    } else {
        proof {
            lemma_pairs_bound(n as nat);
        }
        let side: u32 = n as u32;
        side * (side - 1) / 2
    }
}

/// Looking at more columns never lowers the count of attacks.
pub proof fn lemma_attacks_from_monotone(rows: Seq<u8>, i: int, upto: int, end: int)
    requires
        upto <= end,
    ensures
        attacks_from(rows, i, upto) <= attacks_from(rows, i, end),
    decreases end - upto,
{
    if upto < end {
        lemma_attacks_from_monotone(rows, i, upto, end - 1);
    }
}

/// `after` is `before` with the row of one column replaced by a row below
/// `max`. The new row may equal the old one.
pub open spec fn single_change(before: Seq<u8>, after: Seq<u8>, max: int) -> bool {
    exists|c: int, v: u8|
        0 <= c < before.len() && v < max && after == #[trigger] before.update(c, v)
}

/// The columns before `point` taken from `head`, the others from `tail`.
pub open spec fn splice(head: Seq<u8>, tail: Seq<u8>, point: int) -> Seq<u8> {
    head.subrange(0, point) + tail.subrange(point, tail.len() as int)
}

/// `first` and `second` are the two children of `a` and `b` for one split
/// point, which leaves at least two columns on either side.
pub open spec fn is_crossover(a: Seq<u8>, b: Seq<u8>, first: Seq<u8>, second: Seq<u8>) -> bool {
    exists|point: int|
        2 <= point < a.len() - 2 && first == #[trigger] splice(a, b, point) && second == splice(
            b,
            a,
            point,
        )
}

/// A splice of two valid boards of one size is a valid board of that size.
pub proof fn lemma_splice_valid(head: Seq<u8>, tail: Seq<u8>, point: int)
    requires
        valid_rows(head),
        valid_rows(tail),
        head.len() == tail.len(),
        0 <= point <= head.len(),
    ensures
        splice(head, tail, point).len() == head.len(),
        valid_rows(splice(head, tail, point)),
{
}

/// The character of the decimal digit `d`.
pub open spec fn digit_char(d: int) -> char {
    if d == 0 {
        '0'
    } else if d == 1 {
        '1'
    } else if d == 2 {
        '2'
    } else if d == 3 {
        '3'
    } else if d == 4 {
        '4'
    } else if d == 5 {
        '5'
    } else if d == 6 {
        '6'
    } else if d == 7 {
        '7'
    } else if d == 8 {
        '8'
    } else {
        '9'
    }
}

/// A byte in decimal, without leading zeros.
pub open spec fn decimal(v: u8) -> Seq<char> {
    if v < 10 {
        seq![digit_char(v as int)]
    } else if v < 100 {
        seq![digit_char(v as int / 10), digit_char(v as int % 10)]
    } else {
        seq![digit_char(v as int / 100), digit_char(v as int / 10 % 10), digit_char(v as int % 10)]
    }
}

/// The rows of the first `columns` columns, each in decimal and each
/// followed by one space.
pub open spec fn text_of(rows: Seq<u8>, columns: int) -> Seq<char>
    decreases columns,
{
    if columns <= 0 {
        Seq::empty()
    } else {
        text_of(rows, columns - 1) + decimal(rows[columns - 1]) + seq![' ']
    }
}

/// One cell of a drawn board: three characters, with a `Q` in the middle
/// where a queen stands.
pub open spec fn cell_text(queen: bool) -> Seq<char> {
    if queen {
        seq!['-', 'Q', '-']
    } else {
        seq!['|', '_', '|']
    }
}

/// The cells of the first `columns` columns of one row of the board.
pub open spec fn line_of(rows: Seq<u8>, row: int, columns: int) -> Seq<char>
    decreases columns,
{
    if columns <= 0 {
        Seq::empty()
    } else {
        line_of(rows, row, columns - 1) + cell_text(rows[columns - 1] == row)
    }
}

/// The first `lines` rows of the drawn board, from row 0 down, each ended
/// by a line feed.
pub open spec fn board_of(rows: Seq<u8>, lines: int) -> Seq<char>
    decreases lines,
{
    if lines <= 0 {
        Seq::empty()
    } else {
        board_of(rows, lines - 1) + line_of(rows, lines - 1, rows.len() as int) + seq!['\n']
    }
}

/// A candidate board: the row of the queen of each column.
pub struct Gene {
    rows: RowArray,
}

/// The rows of each gene of a sequence of genes.
pub open spec fn rows_of(genes: Seq<Gene>) -> Seq<Seq<u8>> {
    Seq::new(genes.len(), |i: int| genes[i]@)
}

impl View for Gene {
    type V = Seq<u8>;

    closed spec fn view(&self) -> Seq<u8> {
        row_array_items(self.rows)
    }
}

impl Gene {
    /// The gene's rows fit a board whose side is the number of columns.
    pub open spec fn wf(&self) -> bool {
        valid_rows(self@)
    }

    /// A gene with every queen on row 0, one queen for each of the
    /// `dimension.y` columns.
    pub fn new(dimension: &Vector2) -> (gene: Gene)
        requires
            0 <= dimension.y <= MAX_SIDE,
        ensures
            gene@ == zero_rows(dimension.y as nat),
            gene.wf(),
    {
        Gene { rows: RowArray::zeros(dimension.y as usize) }
    }

    /// The number of columns.
    pub fn len(&self) -> (n: usize)
        ensures
            n == self@.len(),
    {
        self.rows.len()
    }

    /// The row of the queen of `column`, or `None` past the last column.
    pub fn row(&self, column: usize) -> (row: Option<u8>)
        ensures
            row == if column < self@.len() {
                Some(self@[column as int])
            } else {
                None
            },
    {
        if column < self.rows.len() {
            Some(self.rows.get(column))
        } else {
            None
        }
    }

    /// The fitness of the board: the number of pairs of columns less the
    /// number of attacking pairs. See [`attacks`] for when a pair attacks.
    pub fn fitness(&self) -> (fit: u32)
        requires
            self.wf(),
        ensures
            fit == fitness_of(self@),
            fit <= pairs(self@.len()),
    {
        let n: usize = self.rows.len();
        let mut count: u32 = 0;
        let mut i: usize = 0;
        while i < n
            invariant
                n == self@.len(),
                n <= MAX_SIDE,
                i <= n,
                count == conflicts_before(self@, i as int),
            decreases n - i,
        {
            let queen1: u8 = self.rows.get(i);
            let mut k: usize = i + 1;
            let ghost before = count;
            proof {
                lemma_conflicts_before_bound(self@, i as int);
                lemma_conflicts_before_bound(self@, i + 1);
                lemma_pairs_bound(n as nat);
            }
            while k < n
                invariant
                    n == self@.len(),
                    n <= MAX_SIDE,
                    i < n,
                    i + 1 <= k <= n,
                    queen1 == self@[i as int],
                    before == conflicts_before(self@, i as int),
                    count == before + attacks_from(self@, i as int, k as int),
                    before + attacks_from(self@, i as int, n as int) <= pairs(n as nat),
                    pairs(n as nat) <= 32385,
                decreases n - k,
            {
                let queen2: u8 = self.rows.get(k);
                let d: i32 = i as i32 - (k - i - 1) as i32;
                let rise: i32 = queen1 as i32 - queen2 as i32;
                proof {
                    lemma_attacks_from_monotone(self@, i as int, k + 1, n as int);
                }
                if d == 0 || rise == 0 || d == rise {
                    count = count + 1;
                }
                k = k + 1;
            }
            i = i + 1;
        }
        proof {
            lemma_fitness_range(self@);
        }
        let total: u32 = pair_count(n);
        total - count
    }
}

impl Clone for Gene {
    /// A gene with the same rows, in storage of its own.
    fn clone(&self) -> (copy: Gene)
        ensures
            copy@ == self@,
    {
        Gene { rows: self.rows.duplicate() }
    }
}

impl Gene {
    /// The gene with the given rows, or `None` where they do not fit a
    /// board whose side is their number.
    pub fn from_rows(rows: &Vec<u8>) -> (gene: Option<Gene>)
        ensures
            gene is Some <==> valid_rows(rows@),
            gene matches Some(g) ==> g@ == rows@,
    {
        let n: usize = rows.len();
        if n > MAX_SIDE {
            return None;
        }
        let mut array = RowArray::zeros(n);
        let mut c: usize = 0;
        while c < n
            invariant
                n == rows@.len(),
                n <= MAX_SIDE,
                c <= n,
                row_array_items(array).len() == n,
                forall|j: int| 0 <= j < c ==> row_array_items(array)[j] == rows@[j],
                forall|j: int| 0 <= j < c ==> rows@[j] < n,
            decreases n - c,
        {
            let v: u8 = rows[c];
            if v as usize >= n {
                return None;
            }
            array.set(c, v);
            c = c + 1;
        }
        assert(row_array_items(array) =~= rows@);
        Some(Gene { rows: array })
    }

    /// The row of each column's queen, in column order.
    pub fn rows(&self) -> (rows: Vec<u8>)
        ensures
            rows@ == self@,
    {
        let n: usize = self.rows.len();
        let mut rows: Vec<u8> = Vec::new();
        let mut c: usize = 0;
        while c < n
            invariant
                n == self@.len(),
                c <= n,
                rows@ == self@.subrange(0, c as int),
            decreases n - c,
        {
            rows.push(self.rows.get(c));
            c = c + 1;
        }
        rows
    }

    /// Puts the queen of `column` on `row`. A gene that fits its board
    /// still does so where `row` is a row of the board.
    pub fn set_row(&mut self, column: usize, row: u8)
        requires
            column < old(self)@.len(),
        ensures
            final(self)@ == old(self)@.update(column as int, row),
            old(self).wf() && row < old(self)@.len() ==> final(self).wf(),
    {
        self.rows.set(column, row);
    }

    /// Puts the queen of each of the first `dimension.x` columns on a
    /// random row below `dimension.x`. What those columns held is not read;
    /// the other columns stay as they are.
    pub fn randomize(&mut self, dimension: &Vector2, rng: &mut RandomNumberGenerator)
        requires
            old(self).wf(),
            0 <= dimension.x <= old(self)@.len(),
        ensures
            final(self).wf(),
            final(self)@.len() == old(self)@.len(),
            forall|c: int| 0 <= c < dimension.x ==> final(self)@[c] < dimension.x,
            forall|c: int| dimension.x <= c < old(self)@.len() ==> final(self)@[c] == old(self)@[c],
    {
        let side: usize = dimension.x as usize;
        let mut i: usize = 0;
        while i < side
            invariant
                side == dimension.x,
                side <= self@.len(),
                i <= side,
                self.wf(),
                self@.len() == old(self)@.len(),
                forall|c: int| 0 <= c < i ==> self@[c] < side,
                forall|c: int| i <= c < self@.len() ==> self@[c] == old(self)@[c],
            decreases side - i,
        {
            let row: usize = range(rng, 0, side);
            self.set_row(i, row as u8);
            i = i + 1;
        }
    }

    /// Picks one column at random and puts its queen on a random row below
    /// `max`. The gene may come out unchanged, as the new row is not kept
    /// apart from the old one. A gene that fits its board still does so
    /// where `max` is at most the side of the board.
    pub fn mutate(&mut self, max: u8, rng: &mut RandomNumberGenerator)
        requires
            old(self)@.len() >= 1,
            max >= 1,
        ensures
            single_change(old(self)@, final(self)@, max as int),
            final(self)@.len() == old(self)@.len(),
            old(self).wf() && max <= old(self)@.len() ==> final(self).wf(),
    {
        let n: usize = self.rows.len();
        let index: usize = range(rng, 0, n);
        let row: usize = range(rng, 0, max as usize);
        self.set_row(index, row as u8);
        assert(self@ == old(self)@.update(index as int, row as u8));
    }

    /// The two children of `self` and `other` for the split at `point`:
    /// the first has the columns of `self` before `point` and those of
    /// `other` from it on, the second the other way round. Neither parent
    /// is changed.
    pub fn crossover_at(&self, other: &Gene, point: usize) -> (children: (Gene, Gene))
        requires
            self.wf(),
            other.wf(),
            self@.len() == other@.len(),
            point <= self@.len(),
        ensures
            children.0@ == splice(self@, other@, point as int),
            children.1@ == splice(other@, self@, point as int),
            children.0.wf(),
            children.1.wf(),
    {
        let length: usize = self.rows.len();
        let l1 = self.rows.slice(0, point);
        let l2 = other.rows.slice(0, point);
        let r1 = other.rows.slice(point, length);
        let r2 = self.rows.slice(point, length);
        proof {
            lemma_splice_valid(self@, other@, point as int);
            lemma_splice_valid(other@, self@, point as int);
        }
        let first = match l1.concatenate(&r1) {
            Ok(rows) => Gene { rows },
            Err(_) => unreached(),
        };
        let second = match l2.concatenate(&r2) {
            Ok(rows) => Gene { rows },
            Err(_) => unreached(),
        };
        (first, second)
    }

    /// Single-point crossover at a random split point that leaves at least
    /// two columns on either side. Boards of fewer than five columns have
    /// no such point.
    pub fn crossover(&self, other: &Gene, rng: &mut RandomNumberGenerator) -> (children: (
        Gene,
        Gene,
    ))
        requires
            self.wf(),
            other.wf(),
            self@.len() == other@.len(),
            self@.len() >= 5,
        ensures
            is_crossover(self@, other@, children.0@, children.1@),
            children.0.wf(),
            children.1.wf(),
    {
        let length: usize = self.rows.len();
        let index: usize = range(rng, 2, length - 2);
        self.crossover_at(other, index)
    }
}

fn digit_text(d: u8) -> (text: &'static str)
    requires
        d < 10,
    ensures
        text@ == seq![digit_char(d as int)],
{
    proof {
        reveal_strlit("0");
        reveal_strlit("1");
        reveal_strlit("2");
        reveal_strlit("3");
        reveal_strlit("4");
        reveal_strlit("5");
        reveal_strlit("6");
        reveal_strlit("7");
        reveal_strlit("8");
        reveal_strlit("9");
    }
    if d == 0 {
        "0"
    } else if d == 1 {
        "1"
    } else if d == 2 {
        "2"
    } else if d == 3 {
        "3"
    } else if d == 4 {
        "4"
    } else if d == 5 {
        "5"
    } else if d == 6 {
        "6"
    } else if d == 7 {
        "7"
    } else if d == 8 {
        "8"
    } else {
        "9"
    }
}

impl Gene {
    /// The rows on one line: each row in decimal, each followed by a space.
    pub fn to_string(&self) -> (text: String)
        ensures
            text@ == text_of(self@, self@.len() as int),
    {
        let n: usize = self.rows.len();
        let mut string = String::new();
        let mut c: usize = 0;
        while c < n
            invariant
                n == self@.len(),
                c <= n,
                string@ == text_of(self@, c as int),
            decreases n - c,
        {
            let v: u8 = self.rows.get(c);
            let ghost before = string@;
            if v >= 100 {
                string.append(digit_text(v / 100));
            }
            if v >= 10 {
                string.append(digit_text(v / 10 % 10));
            }
            string.append(digit_text(v % 10));
            assert(string@ == before + decimal(v));
            proof {
                reveal_strlit(" ");
            }
            string.append(" ");
            assert(string@ == before + decimal(v) + seq![' ']);
            c = c + 1;
        }
        string
    }

    /// The board drawn as text: one line for each row of the board, from
    /// row 0 down, and on each line three characters for each column,
    /// `-Q-` where the column's queen stands on that row and `|_|` where
    /// it does not.
    pub fn to_board(&self) -> (board: String)
        ensures
            board@ == board_of(self@, self@.len() as int),
    {
        let n: usize = self.rows.len();
        let mut board = String::new();
        let mut i: usize = 0;
        while i < n
            invariant
                n == self@.len(),
                i <= n,
                board@ == board_of(self@, i as int),
            decreases n - i,
        {
            let ghost above = board@;
            let mut c: usize = 0;
            while c < n
                invariant
                    n == self@.len(),
                    i < n,
                    c <= n,
                    board@ == above + line_of(self@, i as int, c as int),
                decreases n - c,
            {
                let q: u8 = self.rows.get(c);
                let ghost left = board@;
                proof {
                    reveal_strlit("-Q-");
                    reveal_strlit("|_|");
                }
                if q as usize == i {
                    board.append("-Q-");
                } else {
                    board.append("|_|");
                }
                assert(board@ == left + cell_text(q == i));
                c = c + 1;
            }
            proof {
                reveal_strlit("\n");
            }
            board.append("\n");
            assert(board@ == above + line_of(self@, i as int, n as int) + seq!['\n']);
            i = i + 1;
        }
        board
    }
}

} // verus!
