//! Grid coordinates: a signed (row, column) pair. Row increases upward,
//! column increases rightward. Validity against board bounds is checked
//! explicitly; positions are never clamped or wrapped.

use vstd::prelude::*;

verus! {

/// A signed board coordinate. Equality is by value.
#[derive(Clone, Copy, Debug, PartialEq, Eq, Hash, Structural)]
pub struct GridPosition {
    pub row: i64,
    pub col: i64,
}

impl GridPosition {
    pub fn new(row: i64, col: i64) -> (p: GridPosition)
        ensures
            p.row == row,
            p.col == col,
    {
        GridPosition { row, col }
    }

    pub fn row(self) -> (r: i64)
        ensures
            r == self.row,
    {
        self.row
    }

    pub fn col(self) -> (c: i64)
        ensures
            c == self.col,
    {
        self.col
    }

    /// The position shifted by the given row and column deltas.
    pub fn translate(&self, row: i64, col: i64) -> (p: GridPosition)
        requires
            i64::MIN <= self.row + row <= i64::MAX,
            i64::MIN <= self.col + col <= i64::MAX,
        ensures
            p.row == self.row + row,
            p.col == self.col + col,
    {
        GridPosition { row: self.row + row, col: self.col + col }
    }
}

/// Whether two positions are 4-directionally edge-adjacent.
pub open spec fn adjacent(a: GridPosition, b: GridPosition) -> bool {
    (a.row == b.row && (a.col == b.col + 1 || a.col + 1 == b.col))
    || (a.col == b.col && (a.row == b.row + 1 || a.row + 1 == b.row))
}

/// The four edge-adjacent neighbors of a position: up, down, right, left.
pub fn get_adjacent(position: GridPosition) -> (v: Vec<GridPosition>)
    requires
        i64::MIN < position.row < i64::MAX,
        i64::MIN < position.col < i64::MAX,
    ensures
        v@.len() == 4,
        v@[0].row == position.row + 1 && v@[0].col == position.col,
        v@[1].row == position.row - 1 && v@[1].col == position.col,
        v@[2].row == position.row && v@[2].col == position.col + 1,
        v@[3].row == position.row && v@[3].col == position.col - 1,
        forall|i: int| 0 <= i < 4 ==> adjacent(position, #[trigger] v@[i]),
{
    let v = vec![
        position.translate(1, 0),
        position.translate(-1, 0),
        position.translate(0, 1),
        position.translate(0, -1),
    ];
    v
}

} // verus!
