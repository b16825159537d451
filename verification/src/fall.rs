//! The fall controller: a per-entity velocity state machine driving vertical
//! displacement each tick and detecting ground or stack contact.
//!
//! An entity falls at its base velocity in `Normal` state, at three times
//! that in `Fast` (soft drop), and not at all once `Stopped`. An entity
//! stops when, after the tick's displacement, its discretized grid position
//! cannot move down and its continuous world position has reached or passed
//! the discretized rest position.

use vstd::prelude::*;
use vstd::arithmetic::mul::lemma_mul_is_associative;
use crate::board::Board;
use crate::board::Cell;
use crate::board::MAX_POS;
use crate::grid::GridPosition;
use crate::piece::Pair;
use crate::piece::PieceColor;
use crate::piece::second_col_delta;
use crate::piece::second_row_delta;

verus! {

/// Soft drop multiplies the base fall velocity by this factor.
pub const FAST_MULT: i64 = 3;

/// Largest base fall velocity, in world sub-units per millisecond.
pub const MAX_VELOCITY: i64 = 1_000_000;

/// Largest time delta of one tick, in milliseconds.
pub const MAX_TICK_MS: i64 = 10_000;

/// Largest magnitude of a falling entity's world coordinate.
pub const MAX_COORD: i64 = 1_000_000_000_000_000_000;

/// The three states of a falling entity.
#[derive(Clone, Copy, Debug, PartialEq, Eq, Structural)]
pub enum FallState {
    Fast,
    Normal,
    Stopped,
}

/// Per-entity fall bookkeeping: the base velocity and the current state.
#[derive(Clone, Copy, Debug, PartialEq, Eq, Structural)]
pub struct Fall {
    pub velocity: i64,
    pub state: FallState,
}

/// The effective downward velocity of a fall state: three times the base
/// velocity in `Fast`, the base velocity in `Normal`, zero in `Stopped`.
pub open spec fn spec_velocity(f: Fall) -> int {
    match f.state {
        FallState::Fast => 3 * f.velocity,
        FallState::Normal => f.velocity as int,
        FallState::Stopped => 0,
    }
}

/// Downward displacement of a falling entity over a time delta.
pub open spec fn spec_displacement(f: Fall, dt: int) -> int {
    spec_velocity(f) * dt
}

impl Fall {
    /// The base velocity is within machine limits.
    pub open spec fn wf(self) -> bool {
        0 <= self.velocity <= MAX_VELOCITY
    }

    /// A fresh fall entity: `Normal` state on spawn.
    pub fn new(velocity: i64) -> (f: Fall)
        requires
            0 <= velocity <= MAX_VELOCITY,
        ensures
            f.velocity == velocity,
            f.state == FallState::Normal,
            f.wf(),
    {
        Fall { velocity, state: FallState::Normal }
    }

    /// The effective downward velocity in the current state.
    pub fn get_velocity(&self) -> (v: i64)
        requires
            self.wf(),
        ensures
            v == spec_velocity(*self),
    {
        match self.state {
            FallState::Fast => self.velocity * FAST_MULT,
            FallState::Normal => self.velocity,
            FallState::Stopped => 0,
        }
    }
}

/// Fall velocity law: over any time delta, `Fast` yields exactly three
/// times the displacement of `Normal`, and `Stopped` yields none.
pub proof fn lemma_fall_velocity(velocity: i64, dt: int)
    ensures
        spec_displacement(Fall { velocity, state: FallState::Fast }, dt)
            == 3 * spec_displacement(Fall { velocity, state: FallState::Normal }, dt),
        spec_displacement(Fall { velocity, state: FallState::Stopped }, dt) == 0,
{
    lemma_mul_is_associative(3, velocity as int, dt);
}

/// Whether a solo piece discretized at (row2, col2), with continuous
/// vertical coordinate y2, has landed: the cell below is not empty and the
/// entity has fallen past its discretized rest height.
pub open spec fn spec_piece_landing(b: Board, row2: int, col2: int, y2: int) -> bool {
    !b.spec_empty(row2 - 1, col2) && y2 < b.spec_position_to_world(row2, col2).1
}

/// Whether a pair discretized at (row2, col2) has landed: at least one of
/// its two members cannot move down, and the pair has fallen past its
/// discretized rest height.
pub open spec fn spec_pair_landing(b: Board, pair: Pair, row2: int, col2: int, y2: int) -> bool {
    let sr = row2 + second_row_delta(pair.orientation);
    let sc = col2 + second_col_delta(pair.orientation);
    !(b.spec_empty(row2 - 1, col2) && b.spec_empty(sr - 1, sc))
        && y2 < b.spec_position_to_world(row2, col2).1
}

/// Advance a solo falling piece by one tick: move it down by its state's
/// velocity times the delta, re-discretize its grid position, and on
/// landing snap it to the rest position, stop it, and write its cell into
/// the board.
pub fn fall_step_piece(
    board: &mut Board,
    world: &mut (i64, i64),
    position: &mut GridPosition,
    fall: &mut Fall,
    dt: i64,
    entity: u64,
    color: PieceColor,
) -> (landed: bool)
    requires
        old(board).wf(),
        old(fall).wf(),
        0 <= dt <= MAX_TICK_MS,
        -MAX_COORD <= old(world).0 <= MAX_COORD,
        -MAX_COORD <= old(world).1 <= MAX_COORD,
        ({
            let y2 = old(world).1 - spec_displacement(*old(fall), dt as int);
            let rc = old(board).spec_world_to_position(old(world).0 as int, y2);
            &&& -MAX_POS <= rc.0 <= MAX_POS
            &&& -MAX_POS <= rc.1 <= MAX_POS
            &&& spec_piece_landing(*old(board), rc.0, rc.1, y2)
                ==> old(board).spec_valid(rc.0, rc.1)
        }),
    ensures
        ({
            let y2 = old(world).1 - spec_displacement(*old(fall), dt as int);
            let rc = old(board).spec_world_to_position(old(world).0 as int, y2);
            let landing = spec_piece_landing(*old(board), rc.0, rc.1, y2);
            &&& landed == landing
            &&& final(position).row == rc.0 && final(position).col == rc.1
            &&& final(fall).velocity == old(fall).velocity
            &&& if landing {
                &&& final(fall).state == FallState::Stopped
                &&& final(world).0 == old(board).spec_position_to_world(rc.0, rc.1).0
                &&& final(world).1 == old(board).spec_position_to_world(rc.0, rc.1).1
                &&& final(board).wf()
                &&& old(board).same_config(*final(board))
                &&& final(board).cell(rc.0, rc.1)
                    == (Cell::Occupied { color, owner: entity })
                &&& forall|r: int, c: int|
                    old(board).spec_valid(r, c) && !(r == rc.0 && c == rc.1)
                        ==> final(board).cell(r, c) == old(board).cell(r, c)
            } else {
                &&& final(fall).state == old(fall).state
                &&& final(world).0 == old(world).0
                &&& final(world).1 == y2
                &&& *final(board) == *old(board)
            }
        }),
{
    let vel = fall.get_velocity();
    proof {
        assert(vel * dt <= 3 * MAX_VELOCITY * MAX_TICK_MS && vel * dt >= 0)
            by (nonlinear_arith)
            requires
                0 <= vel <= 3 * MAX_VELOCITY,
                0 <= dt <= MAX_TICK_MS,
        ;
    }
    world.1 = world.1 - vel * dt;
    *position = board.world_to_position(*world);
    let discretized = board.position_to_world(*position);
    if !board.can_move_down(*position) && world.1 < discretized.1 {
        *world = discretized;
        fall.state = FallState::Stopped;
        board.place_cell(*position, Cell::Occupied { color, owner: entity });
        true
    } else {
        false
    }
}

/// Advance the active falling pair by one tick. Landing is checked against
/// both members' cells below; on landing the pair is snapped to its rest
/// position and stopped, and the caller is told to decompose it. The board
/// is never written here.
pub fn fall_step_pair(
    board: &Board,
    pair: Pair,
    world: &mut (i64, i64),
    position: &mut GridPosition,
    fall: &mut Fall,
    dt: i64,
) -> (landed: bool)
    requires
        board.wf(),
        old(fall).wf(),
        0 <= dt <= MAX_TICK_MS,
        -MAX_COORD <= old(world).0 <= MAX_COORD,
        -MAX_COORD <= old(world).1 <= MAX_COORD,
        ({
            let y2 = old(world).1 - spec_displacement(*old(fall), dt as int);
            let rc = board.spec_world_to_position(old(world).0 as int, y2);
            &&& -MAX_POS <= rc.0 <= MAX_POS
            &&& -MAX_POS <= rc.1 <= MAX_POS
        }),
    ensures
        ({
            let y2 = old(world).1 - spec_displacement(*old(fall), dt as int);
            let rc = board.spec_world_to_position(old(world).0 as int, y2);
            let landing = spec_pair_landing(*board, pair, rc.0, rc.1, y2);
            &&& landed == landing
            &&& final(position).row == rc.0 && final(position).col == rc.1
            &&& final(fall).velocity == old(fall).velocity
            &&& if landing {
                &&& final(fall).state == FallState::Stopped
                &&& final(world).0 == board.spec_position_to_world(rc.0, rc.1).0
                &&& final(world).1 == board.spec_position_to_world(rc.0, rc.1).1
            } else {
                &&& final(fall).state == old(fall).state
                &&& final(world).0 == old(world).0
                &&& final(world).1 == y2
            }
        }),
{
    let vel = fall.get_velocity();
    proof {
        assert(vel * dt <= 3 * MAX_VELOCITY * MAX_TICK_MS && vel * dt >= 0)
            by (nonlinear_arith)
            requires
                0 <= vel <= 3 * MAX_VELOCITY,
                0 <= dt <= MAX_TICK_MS,
        ;
    }
    world.1 = world.1 - vel * dt;
    *position = board.world_to_position(*world);
    let discretized = board.position_to_world(*position);
    let can_move_down_pair = board.can_move_down(*position)
        && board.can_move_down(pair.get_second_position(*position));
    if !can_move_down_pair && world.1 < discretized.1 {
        *world = discretized;
        fall.state = FallState::Stopped;
        true
    } else {
        false
    }
}

} // verus!
