//! A pair of integer coordinates, used for positions and board dimensions.

use vstd::prelude::*;

verus! {

/// Two signed integer coordinates. As a board dimension, `x` counts rows and
/// `y` counts columns; as a position, `x` is the row and `y` the column.
#[derive(Clone, Copy, Debug, PartialEq, Eq, Structural)]
pub struct Vector2 {
    pub x: i32,
    pub y: i32,
}

impl Vector2 {
    /// Both coordinates are non-negative, so the pair can address a cell.
    pub open spec fn non_negative(self) -> bool {
        self.x >= 0 && self.y >= 0
    }

    /// The pair `(x, y)`.
    pub fn new(x: i32, y: i32) -> (v: Vector2)
        ensures
            v.x == x,
            v.y == y,
    {
        Vector2 { x, y }
    }

    /// The coordinates as a `(row, column)` index into a grid.
    pub fn index(&self) -> (at: (usize, usize))
        requires
            self.non_negative(),
        ensures
            at.0 == self.x,
            at.1 == self.y,
    {
        (self.x as usize, self.y as usize)
    }

    /// The coordinates as the `(rows, columns)` shape of a grid.
    pub fn dim(&self) -> (shape: (usize, usize))
        requires
            self.non_negative(),
        ensures
            shape.0 == self.x,
            shape.1 == self.y,
    {
        (self.x as usize, self.y as usize)
    }
}

} // verus!
