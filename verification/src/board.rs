//! The board: a fixed-size grid of cells holding locked pieces, with
//! world/grid coordinate conversion and occupancy queries.
//!
//! World coordinates are integers in fine sub-units; a cell's edge length
//! `cell_size` and the world coordinate of the cell at row 0, column 0 are
//! fixed at construction. The backing vector always holds exactly
//! `width * height` cells and is never resized.

use vstd::prelude::*;
use vstd::arithmetic::div_mod::lemma_div_multiples_vanish_fancy;
use vstd::arithmetic::div_mod::lemma_fundamental_div_mod;
use crate::grid::GridPosition;
use crate::piece::Pair;
use crate::piece::PieceColor;
use crate::piece::second_col_delta;
use crate::piece::second_row_delta;
use crate::piece::turned_clockwise;

verus! {

/// Largest board edge, in cells.
pub const MAX_DIM: usize = 4096;

/// Largest cell edge length, in world sub-units.
pub const MAX_CELL_SIZE: i64 = 1_000_000;

/// Largest magnitude of the world coordinate of the board's origin cell.
pub const MAX_ORIGIN: i64 = 1_000_000_000_000;

/// Largest magnitude of a world coordinate accepted by `world_to_position`.
pub const MAX_WORLD: i64 = 2_000_000_000_000_000_000;

/// Largest magnitude of a row or column index accepted by
/// `position_to_world`.
pub const MAX_POS: i64 = 4_294_967_296;

/// Contents of one board cell: empty, or occupied by a color together with
/// the identity handle of the piece that owns the cell.
#[derive(Clone, Copy, Debug, PartialEq, Eq, Structural)]
pub enum Cell {
    Empty,
    Occupied { color: PieceColor, owner: u64 },
}

/// The owner handle an occupied cell stores; zero for an empty cell.
pub open spec fn spec_cell_owner(cell: Cell) -> u64 {
    match cell {
        Cell::Occupied { owner, .. } => owner,
        Cell::Empty => 0,
    }
}

/// The fixed-size grid of cells holding locked pieces.
pub struct Board {
    pub height: usize,
    pub width: usize,
    pub data: Vec<Cell>,
    pub cell_size: i64,
    pub origin_x: i64,
    pub origin_y: i64,
}

/// Rounding a world-axis offset `d` to the nearest cell index for cell edge
/// `s`: the floor of `d / s + 1/2`, written over integers. A value exactly
/// halfway between two cells rounds toward positive infinity.
pub open spec fn round_to_cell(d: int, s: int) -> int
    recommends
        s > 0,
{
    (2 * d + s) / (2 * s)
}

impl Board {
    /// Well-formedness: the backing vector length matches the dimensions,
    /// and the construction-time configuration is within machine limits.
    pub open spec fn wf(self) -> bool {
        &&& self.height <= MAX_DIM
        &&& self.width <= MAX_DIM
        &&& self.data@.len() == self.width * self.height
        &&& 0 < self.cell_size <= MAX_CELL_SIZE
        &&& -MAX_ORIGIN <= self.origin_x <= MAX_ORIGIN
        &&& -MAX_ORIGIN <= self.origin_y <= MAX_ORIGIN
    }

    /// The cell at row `r`, column `c`.
    pub open spec fn cell(self, r: int, c: int) -> Cell {
        self.data@[r * self.width + c]
    }

    /// Whether (r, c) lies on the board.
    pub open spec fn spec_valid(self, r: int, c: int) -> bool {
        0 <= r < self.height && 0 <= c < self.width
    }

    /// Whether (r, c) lies on the board and holds no piece. An off-board
    /// position is never empty: the edges are solid.
    pub open spec fn spec_empty(self, r: int, c: int) -> bool {
        self.spec_valid(r, c) && self.cell(r, c) is Empty
    }

    /// The world coordinate (x, y) of the cell at row `r`, column `c`.
    pub open spec fn spec_position_to_world(self, r: int, c: int) -> (int, int) {
        (self.origin_x + self.cell_size * c, self.origin_y + self.cell_size * r)
    }

    /// The grid position (row, col) nearest to world point (x, y).
    pub open spec fn spec_world_to_position(self, x: int, y: int) -> (int, int) {
        (round_to_cell(y - self.origin_y, self.cell_size as int),
         round_to_cell(x - self.origin_x, self.cell_size as int))
    }

    /// Two boards share dimensions and world-coordinate configuration.
    pub open spec fn same_config(self, other: Board) -> bool {
        &&& self.height == other.height
        &&& self.width == other.width
        &&& self.cell_size == other.cell_size
        &&& self.origin_x == other.origin_x
        &&& self.origin_y == other.origin_y
    }

    /// A fresh board over the given cells. The data length must match the
    /// dimensions exactly; a mismatch is a construction failure, not a
    /// clamped or truncated board.
    pub fn new(
        height: usize,
        width: usize,
        data: Vec<Cell>,
        cell_size: i64,
        origin_x: i64,
        origin_y: i64,
    ) -> (b: Board)
        requires
            data@.len() == width * height,
            height <= MAX_DIM,
            width <= MAX_DIM,
            0 < cell_size <= MAX_CELL_SIZE,
            -MAX_ORIGIN <= origin_x <= MAX_ORIGIN,
            -MAX_ORIGIN <= origin_y <= MAX_ORIGIN,
        ensures
            b.wf(),
            b.height == height,
            b.width == width,
            b.cell_size == cell_size,
            b.origin_x == origin_x,
            b.origin_y == origin_y,
            b.data@ == data@,
    {
        Board { height, width, data, cell_size, origin_x, origin_y }
    }

    /// The backing index of a valid position fits in the data vector.
    proof fn lemma_index_in_range(self, r: int, c: int)
        requires
            self.wf(),
            self.spec_valid(r, c),
        ensures
            0 <= r * self.width + c < self.data@.len(),
    {
        assert(r * self.width + c < self.width * self.height) by (nonlinear_arith)
            requires
                0 <= r < self.height,
                0 <= c < self.width,
        ;
        assert(r * self.width + c >= 0) by (nonlinear_arith)
            requires
                r >= 0,
                c >= 0,
                self.width >= 0,
        ;
    }

    /// The cell at a valid position.
    pub fn cell_at(&self, position: GridPosition) -> (cell: Cell)
        requires
            self.wf(),
            self.spec_valid(position.row as int, position.col as int),
        ensures
            cell == self.cell(position.row as int, position.col as int),
    {
        proof {
            self.lemma_index_in_range(position.row as int, position.col as int);
        }
        let row_u: usize = position.row() as usize;
        let col_u: usize = position.col() as usize;
        proof {
            assert(row_u * self.width + col_u
                == (position.row as int) * (self.width as int) + position.col as int);
        }
        let n: usize = self.data.len();
        let idx: usize = row_u * self.width + col_u;
        proof {
            assert(idx < n);
        }
        self.data[idx]
    }

    /// Unconditional write of a cell: the caller must already have checked
    /// validity; an out-of-range write is a programming error, not a
    /// recoverable condition. Every other cell and all configuration are
    /// unchanged.
    pub fn place_cell(&mut self, position: GridPosition, value: Cell)
        requires
            old(self).wf(),
            old(self).spec_valid(position.row as int, position.col as int),
        ensures
            final(self).wf(),
            old(self).same_config(*final(self)),
            final(self).cell(position.row as int, position.col as int) == value,
            forall|r: int, c: int|
                old(self).spec_valid(r, c)
                    && !(r == position.row as int && c == position.col as int)
                    ==> final(self).cell(r, c) == old(self).cell(r, c),
    {
        proof {
            self.lemma_index_in_range(position.row as int, position.col as int);
        }
        let row_u: usize = position.row() as usize;
        let col_u: usize = position.col() as usize;
        proof {
            assert(row_u * self.width + col_u
                == (position.row as int) * (self.width as int) + position.col as int);
        }
        let n: usize = self.data.len();
        let idx: usize = row_u * self.width + col_u;
        proof {
            assert(idx < n);
        }
        self.data.set(idx, value);
        proof {
            assert forall|r: int, c: int|
                self.spec_valid(r, c)
                    && !(r == position.row as int && c == position.col as int)
                    implies self.cell(r, c) == old(self).cell(r, c) by {
                self.lemma_index_in_range(r, c);
                if r * self.width + c
                    == position.row as int * self.width + position.col as int {
                    lemma_index_injective(self.width as int, r, c,
                        position.row as int, position.col as int);
                }
            }
        }
    }

    /// Whether the position lies on the board: negative or overflowing
    /// coordinates are invalid, never wrapped.
    pub fn is_valid(&self, position: GridPosition) -> (valid: bool)
        requires
            self.wf(),
        ensures
            valid == self.spec_valid(position.row as int, position.col as int),
    {
        position.row() < self.height as i64
            && position.col() < self.width as i64
            && position.row() >= 0
            && position.col() >= 0
    }

    /// Whether the position is on the board and unoccupied.
    pub fn is_empty(&self, position: GridPosition) -> (empty: bool)
        requires
            self.wf(),
        ensures
            empty == self.spec_empty(position.row as int, position.col as int),
    {
        if self.is_valid(position) {
            matches!(self.cell_at(position), Cell::Empty)
        } else {
            false
        }
    }

    /// Whether the cell one column to the left is empty.
    pub fn can_move_left(&self, position: GridPosition) -> (ok: bool)
        requires
            self.wf(),
            i64::MIN < position.col,
        ensures
            ok == self.spec_empty(position.row as int, position.col - 1),
    {
        self.is_empty(position.translate(0, -1))
    }

    /// Whether the cell one column to the right is empty.
    pub fn can_move_right(&self, position: GridPosition) -> (ok: bool)
        requires
            self.wf(),
            position.col < i64::MAX,
        ensures
            ok == self.spec_empty(position.row as int, position.col + 1),
    {
        self.is_empty(position.translate(0, 1))
    }

    /// Whether the cell one row below is empty.
    pub fn can_move_down(&self, position: GridPosition) -> (ok: bool)
        requires
            self.wf(),
            i64::MIN < position.row,
        ensures
            ok == self.spec_empty(position.row - 1, position.col as int),
    {
        self.is_empty(position.translate(-1, 0))
    }

    /// The world coordinate of a grid position:
    /// `origin + cell_size * (col, row)`. Pure and exact.
    pub fn position_to_world(&self, position: GridPosition) -> (w: (i64, i64))
        requires
            self.wf(),
            -MAX_POS <= position.row <= MAX_POS,
            -MAX_POS <= position.col <= MAX_POS,
        ensures
            (w.0 as int, w.1 as int)
                == self.spec_position_to_world(position.row as int, position.col as int),
    {
        proof {
            lemma_mul_bound(self.cell_size as int, position.col as int);
            lemma_mul_bound(self.cell_size as int, position.row as int);
        }
        let x: i64 = self.origin_x + self.cell_size * position.col();
        let y: i64 = self.origin_y + self.cell_size * position.row();
        (x, y)
    }

    /// The grid position nearest to a world point, each axis rounded
    /// independently to the nearest cell index. Exact left inverse of
    /// `position_to_world` on every grid position (`lemma_world_round_trip`).
    pub fn world_to_position(&self, world: (i64, i64)) -> (p: GridPosition)
        requires
            self.wf(),
            -MAX_WORLD <= world.0 <= MAX_WORLD,
            -MAX_WORLD <= world.1 <= MAX_WORLD,
        ensures
            (p.row as int, p.col as int)
                == self.spec_world_to_position(world.0 as int, world.1 as int),
    {
        let col: i64 = round_div(world.0 - self.origin_x, self.cell_size);
        let row: i64 = round_div(world.1 - self.origin_y, self.cell_size);
        GridPosition::new(row, col)
    }
}

/// The pair's two member positions after an attempted one-column-right
/// shift: moved if both destination cells are empty, unchanged otherwise.
pub open spec fn spec_move_right_pair(
    b: Board,
    pair: Pair,
    world: (i64, i64),
    pos: GridPosition,
) -> ((i64, i64), GridPosition) {
    let sr = pos.row + second_row_delta(pair.orientation);
    let sc = pos.col + second_col_delta(pair.orientation);
    if b.spec_empty(pos.row as int, pos.col + 1) && b.spec_empty(sr, sc + 1) {
        (((world.0 + b.cell_size) as i64, world.1),
            GridPosition { row: pos.row, col: (pos.col + 1) as i64 })
    } else {
        (world, pos)
    }
}

/// The pair's two member positions after an attempted one-column-left
/// shift: moved if both destination cells are empty, unchanged otherwise.
pub open spec fn spec_move_left_pair(
    b: Board,
    pair: Pair,
    world: (i64, i64),
    pos: GridPosition,
) -> ((i64, i64), GridPosition) {
    let sr = pos.row + second_row_delta(pair.orientation);
    let sc = pos.col + second_col_delta(pair.orientation);
    if b.spec_empty(pos.row as int, pos.col - 1) && b.spec_empty(sr, sc - 1) {
        (((world.0 - b.cell_size) as i64, world.1),
            GridPosition { row: pos.row, col: (pos.col - 1) as i64 })
    } else {
        (world, pos)
    }
}

/// Pair rigidity: if either member's destination cell for a lateral shift
/// is occupied or off the board, neither member moves — the pair's position
/// and world coordinates are left exactly as they were, in both directions.
pub proof fn lemma_pair_rigidity(b: Board, pair: Pair, world: (i64, i64), pos: GridPosition)
    ensures
        !(b.spec_empty(pos.row as int, pos.col + 1)
            && b.spec_empty(
                pos.row + second_row_delta(pair.orientation),
                pos.col + second_col_delta(pair.orientation) + 1,
            ))
            ==> spec_move_right_pair(b, pair, world, pos) == (world, pos),
        !(b.spec_empty(pos.row as int, pos.col - 1)
            && b.spec_empty(
                pos.row + second_row_delta(pair.orientation),
                pos.col + second_col_delta(pair.orientation) - 1,
            ))
            ==> spec_move_left_pair(b, pair, world, pos) == (world, pos),
{
}

impl Board {
    /// Whether the pair may rotate clockwise here: the cell its second piece
    /// would occupy under the new orientation must be empty. Rotation never
    /// kicks off walls or tries alternate placements.
    pub fn can_turn_clockwise(&self, pair: Pair, position: GridPosition) -> (ok: bool)
        requires
            self.wf(),
            i64::MIN < position.row < i64::MAX,
            i64::MIN < position.col < i64::MAX,
        ensures
            ok == self.spec_empty(
                position.row + second_row_delta(turned_clockwise(pair.orientation)),
                position.col + second_col_delta(turned_clockwise(pair.orientation)),
            ),
    {
        let new_position = pair.turn_clockwise().get_second_position(position);
        self.is_empty(new_position)
    }

    /// Shift a falling pair one column right if both members' destination
    /// cells are empty; otherwise neither member moves — pairs move as a
    /// rigid unit, never partially. The pair's world x coordinate moves by
    /// exactly one cell edge when the shift happens.
    pub fn move_right_pair(
        &self,
        pair: Pair,
        world: &mut (i64, i64),
        position: &mut GridPosition,
    )
        requires
            self.wf(),
            i64::MIN < old(position).row < i64::MAX,
            i64::MIN < old(position).col < i64::MAX - 1,
            old(world).0 <= i64::MAX - MAX_CELL_SIZE,
        ensures
            (*final(world), *final(position))
                == spec_move_right_pair(*self, pair, *old(world), *old(position)),
    {
        if self.can_move_right(*position)
            && self.can_move_right(pair.get_second_position(*position))
        {
            world.0 = world.0 + self.cell_size;
            *position = position.translate(0, 1);
        }
    }

    /// Shift a falling pair one column left if both members' destination
    /// cells are empty; otherwise neither member moves.
    pub fn move_left_pair(
        &self,
        pair: Pair,
        world: &mut (i64, i64),
        position: &mut GridPosition,
    )
        requires
            self.wf(),
            i64::MIN < old(position).row < i64::MAX,
            i64::MIN + 1 < old(position).col < i64::MAX,
            old(world).0 >= i64::MIN + MAX_CELL_SIZE,
        ensures
            (*final(world), *final(position))
                == spec_move_left_pair(*self, pair, *old(world), *old(position)),
    {
        if self.can_move_left(*position)
            && self.can_move_left(pair.get_second_position(*position))
        {
            world.0 = world.0 - self.cell_size;
            *position = position.translate(0, -1);
        }
    }
}

/// Boundary legality: a position one step outside any edge of the board —
/// just below, just above, just left or just right of it — is never empty;
/// the board's edges are solid. More generally no off-board position is
/// empty.
pub proof fn lemma_boundary_not_empty(b: Board, r: int, c: int)
    requires
        b.wf(),
        r == -1 || r == b.height || c == -1 || c == b.width,
    ensures
        !b.spec_empty(r, c),
{
}

/// Distinct valid positions have distinct backing indices.
proof fn lemma_index_injective(w: int, r1: int, c1: int, r2: int, c2: int)
    requires
        0 <= c1 < w,
        0 <= c2 < w,
        0 <= r1,
        0 <= r2,
        r1 * w + c1 == r2 * w + c2,
    ensures
        r1 == r2 && c1 == c2,
{
    assert(r1 == r2 && c1 == c2) by (nonlinear_arith)
        requires
            0 <= c1 < w,
            0 <= c2 < w,
            r1 * w + c1 == r2 * w + c2,
    ;
}

/// Bound on the product of a cell size and a position index.
proof fn lemma_mul_bound(s: int, p: int)
    requires
        0 < s <= MAX_CELL_SIZE,
        -MAX_POS <= p <= MAX_POS,
    ensures
        -(MAX_CELL_SIZE as int) * (MAX_POS as int) <= s * p
            <= (MAX_CELL_SIZE as int) * (MAX_POS as int),
{
    assert(-(MAX_CELL_SIZE as int) * (MAX_POS as int) <= s * p
        <= (MAX_CELL_SIZE as int) * (MAX_POS as int)) by (nonlinear_arith)
        requires
            0 < s <= MAX_CELL_SIZE,
            -MAX_POS <= p <= MAX_POS,
    ;
}

/// For a negative dividend and positive divisor, the floor of the quotient
/// is the negated rounded-up quotient of the magnitudes.
proof fn lemma_floor_of_negative(a: int, b: int)
    requires
        b >= 1,
        a < 0,
    ensures
        ((-a) + b - 1) / b == -(a / b),
{
    lemma_fundamental_div_mod(a, b);
    let q = a / b;
    let r = a % b;
    assert(a == b * q + r);
    assert((-a) + b - 1 == b * (-q) + (b - 1 - r)) by (nonlinear_arith)
        requires
            a == b * q + r,
    ;
    lemma_div_multiples_vanish_fancy(-q, b - 1 - r, b);
}

/// The rounded-up quotient of nonnegative `m` by positive `b` is at most `m`.
proof fn lemma_ceil_le(m: int, b: int)
    requires
        b >= 1,
        m >= 1,
    ensures
        0 <= (m + b - 1) / b <= m,
{
    lemma_fundamental_div_mod(m + b - 1, b);
    let q = (m + b - 1) / b;
    let r = (m + b - 1) % b;
    assert(0 <= q <= m) by (nonlinear_arith)
        requires
            m + b - 1 == b * q + r,
            0 <= r < b,
            b >= 1,
            m >= 1,
    ;
}

/// Floor division of `a` by positive `b`: the mathematical integer quotient.
fn floor_div(a: i64, b: i64) -> (q: i64)
    requires
        1 <= b <= 4_000_000,
        -4_100_000_000_000_000_000 <= a <= 4_100_000_000_000_000_000,
    ensures
        q == a as int / b as int,
{
    if a >= 0 {
        a / b
    } else {
        let m: u64 = (-a) as u64;
        let bu: u64 = b as u64;
        proof {
            lemma_ceil_le(m as int, bu as int);
            lemma_floor_of_negative(a as int, b as int);
        }
        let qc: u64 = (m + bu - 1) / bu;
        -(qc as i64)
    }
}

/// Round a world-axis offset to the nearest cell index.
fn round_div(d: i64, s: i64) -> (q: i64)
    requires
        0 < s <= MAX_CELL_SIZE,
        -MAX_WORLD - MAX_ORIGIN <= d <= MAX_WORLD + MAX_ORIGIN,
    ensures
        q == round_to_cell(d as int, s as int),
{
    let num: i64 = 2 * d + s;
    let den: i64 = 2 * s;
    floor_div(num, den)
}

/// Round-trip law: for every grid position within machine limits — in
/// particular for every position within bounds of a well-formed board —
/// converting to world coordinates and back yields the same position.
pub proof fn lemma_world_round_trip(b: Board, r: int, c: int)
    requires
        b.wf(),
        -MAX_POS <= r <= MAX_POS,
        -MAX_POS <= c <= MAX_POS,
    ensures
        ({
            let w = b.spec_position_to_world(r, c);
            b.spec_world_to_position(w.0, w.1) == (r, c)
        }),
{
    let s = b.cell_size as int;
    lemma_round_multiple(s, r);
    lemma_round_multiple(s, c);
}

/// Rounding an exact cell multiple recovers the cell index.
proof fn lemma_round_multiple(s: int, k: int)
    requires
        0 < s,
    ensures
        round_to_cell(s * k, s) == k,
{
    assert(2 * (s * k) + s == (2 * s) * k + s) by (nonlinear_arith);
    lemma_div_multiples_vanish_fancy(k, s, 2 * s);
}

} // verus!
