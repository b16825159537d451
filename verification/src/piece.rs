//! Pieces, pairs and their orientation, and the random bag that draws the
//! color of each new piece.
//!
//! A piece is a color-tagged unit with a stable identity handle. A pair
//! couples a "first" piece at a reference position with a "second" piece at
//! an offset determined by one of four orientations; rotating clockwise
//! cycles through the four orientations in a fixed order.

use vstd::prelude::*;
use crate::grid::GridPosition;

verus! {

/// The color of a piece, drawn from a small fixed enumeration.
#[derive(Clone, Copy, Debug, PartialEq, Eq, Structural)]
pub enum PieceColor {
    Red,
    Blue,
    Purple,
    Green,
}

/// A color-tagged unit. Its identity handle lives in the simulation arena;
/// the piece itself is immutable once created.
#[derive(Clone, Copy, Debug, PartialEq, Eq, Structural)]
pub struct Piece {
    pub color: PieceColor,
}

/// Which member of a pair a child piece is.
#[derive(Clone, Copy, Debug, PartialEq, Eq, Structural)]
pub enum PieceOrder {
    First,
    Second,
}

/// The relative arrangement of a pair's two pieces: the second piece sits
/// below, left of, above, or right of the first.
#[derive(Clone, Copy, Debug, PartialEq, Eq, Structural)]
pub enum PairOrientation {
    ABVertical,
    ABHorizontal,
    BAVertical,
    BAHorizontal,
}

/// Row offset of the second piece relative to the first.
pub open spec fn second_row_delta(o: PairOrientation) -> int {
    match o {
        PairOrientation::ABVertical => -1,
        PairOrientation::BAVertical => 1,
        PairOrientation::ABHorizontal => 0,
        PairOrientation::BAHorizontal => 0,
    }
}

/// Column offset of the second piece relative to the first.
pub open spec fn second_col_delta(o: PairOrientation) -> int {
    match o {
        PairOrientation::ABVertical => 0,
        PairOrientation::BAVertical => 0,
        PairOrientation::ABHorizontal => 1,
        PairOrientation::BAHorizontal => -1,
    }
}

/// The next orientation in the fixed clockwise cycle:
/// above -> right -> below -> left -> above.
pub open spec fn turned_clockwise(o: PairOrientation) -> PairOrientation {
    match o {
        PairOrientation::ABVertical => PairOrientation::BAHorizontal,
        PairOrientation::BAHorizontal => PairOrientation::BAVertical,
        PairOrientation::BAVertical => PairOrientation::ABHorizontal,
        PairOrientation::ABHorizontal => PairOrientation::ABVertical,
    }
}

/// Two pieces moving as a rigid unit before locking. The pair's reference
/// position is stored by its owner; the pair itself only carries the
/// orientation of the second piece relative to the first.
#[derive(Clone, Copy, Debug, PartialEq, Eq, Structural)]
pub struct Pair {
    pub orientation: PairOrientation,
}

impl Pair {
    /// A fresh pair: the second piece stacked below the first.
    pub fn new() -> (p: Pair)
        ensures
            p.orientation == PairOrientation::ABVertical,
    {
        Pair { orientation: PairOrientation::ABVertical }
    }

    /// The cell the second piece occupies, given the first piece's position.
    pub fn get_second_position(self, position: GridPosition) -> (p: GridPosition)
        requires
            i64::MIN < position.row < i64::MAX,
            i64::MIN < position.col < i64::MAX,
        ensures
            p.row == position.row + second_row_delta(self.orientation),
            p.col == position.col + second_col_delta(self.orientation),
    {
        match self.orientation {
            PairOrientation::ABVertical => position.translate(-1, 0),
            PairOrientation::BAVertical => position.translate(1, 0),
            PairOrientation::ABHorizontal => position.translate(0, 1),
            PairOrientation::BAHorizontal => position.translate(0, -1),
        }
    }

    /// The pair rotated one step clockwise. Pure: the board is not consulted
    /// here; rotation legality is the caller's check.
    pub fn turn_clockwise(self) -> (p: Pair)
        ensures
            p.orientation == turned_clockwise(self.orientation),
    {
        let new_orientation = match self.orientation {
            PairOrientation::ABVertical => PairOrientation::BAHorizontal,
            PairOrientation::BAHorizontal => PairOrientation::BAVertical,
            PairOrientation::BAVertical => PairOrientation::ABHorizontal,
            PairOrientation::ABHorizontal => PairOrientation::ABVertical,
        };
        Pair { orientation: new_orientation }
    }

    /// World offset of the second piece's sprite relative to the first, for a
    /// given cell edge length: exactly `cell_size` times the grid offset.
    pub fn second_world_offset(self, cell_size: i64) -> (d: (i64, i64))
        requires
            0 < cell_size <= 1_000_000,
        ensures
            d.0 == cell_size * second_col_delta(self.orientation),
            d.1 == cell_size * second_row_delta(self.orientation),
    {
        match self.orientation {
            PairOrientation::ABVertical => (0, -cell_size),
            PairOrientation::BAVertical => (0, cell_size),
            PairOrientation::ABHorizontal => (cell_size, 0),
            PairOrientation::BAHorizontal => (-cell_size, 0),
        }
    }
}

/// Rotation cycles through all four orientations and returns to the start
/// after four steps; each orientation in the cycle is distinct, and one
/// clockwise step always moves the second piece to a perpendicular axis.
pub proof fn lemma_rotation_cycle(o: PairOrientation)
    ensures
        turned_clockwise(turned_clockwise(turned_clockwise(turned_clockwise(o)))) == o,
        turned_clockwise(o) != o,
        turned_clockwise(turned_clockwise(o)) != o,
        second_row_delta(turned_clockwise(o)) == -second_col_delta(o),
        second_col_delta(turned_clockwise(o)) == second_row_delta(o),
{
}

/// The color a raw 32-bit draw maps to: one of the four colors, by the
/// draw's remainder modulo four.
pub open spec fn color_of_draw(r: u32) -> PieceColor {
    if r % 4 == 0 {
        PieceColor::Red
    } else if r % 4 == 1 {
        PieceColor::Blue
    } else if r % 4 == 2 {
        PieceColor::Purple
    } else {
        PieceColor::Green
    }
}

#[verifier::external_type_specification]
#[verifier::external_body]
pub struct ExStdRng(rand::rngs::StdRng);

/// The source of random piece colors: a pseudo-random generator seeded from
/// the operating system.
pub struct Bag {
    rng: rand::rngs::StdRng,
}

/// Relies on rand's `StdRng::from_entropy` to seed a fresh generator;
/// nothing is promised of the values it will produce. It panics only if the
/// operating system cannot supply entropy.
#[verifier::external_body]
fn fresh_rng() -> rand::rngs::StdRng {
    <rand::rngs::StdRng as rand::SeedableRng>::from_entropy()
}

/// Relies on rand's `RngCore::next_u32` for `StdRng`: a pseudo-random 32-bit
/// value; nothing is promised of which value comes back.
#[verifier::external_body]
fn next_draw(rng: &mut rand::rngs::StdRng) -> u32 {
    rand::RngCore::next_u32(rng)
}

impl Bag {
    pub fn new() -> Bag {
        Bag { rng: fresh_rng() }
    }

    /// A fresh piece with a random color.
    pub fn new_piece(&mut self) -> (p: Piece)
        ensures
            exists|r: u32| p.color == color_of_draw(r),
    {
        Piece { color: self.piece_color() }
    }

    /// A random color for the next piece. Whatever the draw, the result is
    /// the color that `color_of_draw` assigns to it.
    pub fn piece_color(&mut self) -> (c: PieceColor)
        ensures
            exists|r: u32| c == color_of_draw(r),
    {
        let r = next_draw(&mut self.rng);
        let c = match r % 4 {
            0 => PieceColor::Red,
            1 => PieceColor::Blue,
            2 => PieceColor::Purple,
            _ => PieceColor::Green,
        };
        proof {
            assert(c == color_of_draw(r));
        }
        c
    }
}

} // verus!
