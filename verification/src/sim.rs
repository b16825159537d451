//! The simulation driver: explicit value types in an arena of stable
//! integer handles, and the fixed-timestep tick that runs, in strict order,
//! lateral movement and rotation for the active pair, fall advancement,
//! landing, match resolution, and the spawning of a replacement pair.
//!
//! Exactly one pair is active at all times: when a pair locks it is
//! decomposed into two independently falling pieces and a fresh pair is
//! spawned in the same tick.

use vstd::prelude::*;
use crate::board::Board;
use crate::board::Cell;
use crate::board::MAX_POS;
use crate::fall::Fall;
use crate::fall::FallState;
use crate::fall::MAX_COORD;
use crate::fall::MAX_TICK_MS;
use crate::fall::MAX_VELOCITY;
use crate::fall::fall_step_pair;
use crate::fall::fall_step_piece;
use crate::fall::spec_displacement;
use crate::fall::spec_piece_landing;
use crate::grid::GridPosition;
use crate::movement::DASTimer;
use crate::movement::Direction;
use crate::movement::das_command;
use crate::movement::InputState;
use crate::movement::das_next;
use crate::movement::move_pair_step;
use crate::movement::rotate_pair_step;
use crate::piece::Bag;
use crate::piece::Pair;
use crate::piece::PieceColor;
use crate::resolve::resolve_matches;

verus! {

/// Emitted when the single active pair has come to rest: it is decomposed
/// and must be replaced.
pub struct PairLandedEvent;

/// Emitted when an individual resting piece has locked onto the stack and
/// should be checked for matches.
pub struct PieceLandedEvent {
    pub entity: u64,
}

impl PieceLandedEvent {
    pub fn new(entity: u64) -> (e: PieceLandedEvent)
        ensures
            e.entity == entity,
    {
        PieceLandedEvent { entity }
    }
}

/// One independently falling or resting piece, tracked by a stable handle.
#[derive(Clone, Copy, Debug, PartialEq, Eq)]
pub struct PieceEntity {
    pub id: u64,
    pub color: PieceColor,
    pub world: (i64, i64),
    pub position: GridPosition,
    pub fall: Fall,
}

/// The single controllable pair, with its two member handles and colors.
#[derive(Clone, Copy, Debug, PartialEq, Eq)]
pub struct ActivePair {
    pub pair: Pair,
    pub position: GridPosition,
    pub world: (i64, i64),
    pub fall: Fall,
    pub first_id: u64,
    pub first_color: PieceColor,
    pub second_id: u64,
    pub second_color: PieceColor,
}

/// Construction-time configuration of the simulation.
#[derive(Clone, Copy, Debug, PartialEq, Eq, Structural)]
pub struct SimConfig {
    pub start_row: i64,
    pub start_col: i64,
    pub base_velocity: i64,
    pub clear_threshold: usize,
}

impl SimConfig {
    /// Spawn position and velocity within machine limits.
    pub open spec fn wf(self) -> bool {
        &&& -MAX_POS < self.start_row < MAX_POS
        &&& -MAX_POS < self.start_col < MAX_POS
        &&& 0 <= self.base_velocity <= MAX_VELOCITY
    }
}

/// The handle appears in the dislodged list.
pub open spec fn spec_id_listed(l: Seq<(u64, GridPosition)>, id: u64) -> bool {
    exists|k: int| 0 <= k < l.len() && (#[trigger] l[k]).0 == id
}

/// The handle appears in the cleared-owners list.
pub open spec fn spec_owner_listed(l: Seq<u64>, id: u64) -> bool {
    exists|k: int| 0 <= k < l.len() && l[k] == id
}

/// Whether the dislodged list names this handle.
fn id_listed(l: &Vec<(u64, GridPosition)>, id: u64) -> (found: bool)
    ensures
        found == spec_id_listed(l@, id),
{
    let mut k: usize = 0;
    while k < l.len()
        invariant
            k <= l@.len(),
            forall|m: int| 0 <= m < k ==> (#[trigger] l@[m]).0 != id,
        decreases l@.len() - k,
    {
        if l[k].0 == id {
            return true;
        }
        k = k + 1;
    }
    false
}

/// Whether the cleared-owners list names this handle.
fn owner_listed(l: &Vec<u64>, id: u64) -> (found: bool)
    ensures
        found == spec_owner_listed(l@, id),
{
    let mut k: usize = 0;
    while k < l.len()
        invariant
            k <= l@.len(),
            forall|m: int| 0 <= m < k ==> l@[m] != id,
        decreases l@.len() - k,
    {
        if l[k] == id {
            return true;
        }
        k = k + 1;
    }
    false
}

/// Gravity re-fall: every piece whose cell was detached by the resolution
/// pass has its fall state reset to `Normal`, so it resumes falling and
/// re-settles through the normal pipeline; everything else about every
/// piece is untouched.
pub fn apply_dislodged(pieces: &mut Vec<PieceEntity>, dislodged: &Vec<(u64, GridPosition)>)
    ensures
        final(pieces)@.len() == old(pieces)@.len(),
        forall|j: int|
            0 <= j < old(pieces)@.len() ==> {
                let p0 = #[trigger] old(pieces)@[j];
                let p1 = final(pieces)@[j];
                &&& p1.id == p0.id
                &&& p1.color == p0.color
                &&& p1.world == p0.world
                &&& p1.position == p0.position
                &&& p1.fall.velocity == p0.fall.velocity
                &&& p1.fall.state == (if spec_id_listed(dislodged@, p0.id) {
                    FallState::Normal
                } else {
                    p0.fall.state
                })
            },
{
    let mut j: usize = 0;
    while j < pieces.len()
        invariant
            j <= pieces@.len(),
            pieces@.len() == old(pieces)@.len(),
            forall|m: int|
                j <= m < pieces@.len() ==> #[trigger] pieces@[m] == old(pieces)@[m],
            forall|m: int|
                0 <= m < j ==> {
                    let p0 = #[trigger] old(pieces)@[m];
                    let p1 = pieces@[m];
                    &&& p1.id == p0.id
                    &&& p1.color == p0.color
                    &&& p1.world == p0.world
                    &&& p1.position == p0.position
                    &&& p1.fall.velocity == p0.fall.velocity
                    &&& p1.fall.state == (if spec_id_listed(dislodged@, p0.id) {
                        FallState::Normal
                    } else {
                        p0.fall.state
                    })
                },
        decreases pieces@.len() - j,
    {
        let mut p = pieces[j];
        if id_listed(dislodged, p.id) {
            p.fall.state = FallState::Normal;
            pieces.set(j, p);
        }
        j = j + 1;
    }
}

/// Despawn the pieces whose cells were directly cleared: exactly the
/// entries whose handle is absent from the owners list remain, in order.
pub fn remove_cleared(pieces: &mut Vec<PieceEntity>, owners: &Vec<u64>)
    ensures
        final(pieces)@ == old(pieces)@.filter(
            |p: PieceEntity| !spec_owner_listed(owners@, p.id),
        ),
        forall|m: int|
            0 <= m < final(pieces)@.len() ==> old(pieces)@.contains(
                #[trigger] final(pieces)@[m],
            ),
{
    broadcast use Seq::lemma_filter_push;

    let ghost pred = |p: PieceEntity| !spec_owner_listed(owners@, p.id);
    let mut kept: Vec<PieceEntity> = Vec::new();
    let mut j: usize = 0;
    proof {
        assert(old(pieces)@.subrange(0, 0) =~= Seq::<PieceEntity>::empty());
        assert(Seq::<PieceEntity>::empty().filter(pred) =~= Seq::<PieceEntity>::empty())
            by {
            reveal(Seq::filter);
        }
    }
    while j < pieces.len()
        invariant
            j <= pieces@.len(),
            *pieces == *old(pieces),
            kept@ == old(pieces)@.subrange(0, j as int).filter(pred),
            pred == (|p: PieceEntity| !spec_owner_listed(owners@, p.id)),
            forall|m: int|
                0 <= m < kept@.len() ==> old(pieces)@.contains(#[trigger] kept@[m]),
        decreases pieces@.len() - j,
    {
        let p = pieces[j];
        let ghost pre = old(pieces)@.subrange(0, j as int);
        proof {
            assert(old(pieces)@.subrange(0, j as int + 1) =~= pre.push(p));
            assert(old(pieces)@[j as int] == p);
            assert(old(pieces)@.contains(p));
        }
        if !owner_listed(owners, p.id) {
            kept.push(p);
            proof {
                pre.lemma_filter_push(p, pred);
                assert(pred(p));
            }
        } else {
            proof {
                pre.lemma_filter_push(p, pred);
                assert(!pred(p));
            }
        }
        j = j + 1;
    }
    proof {
        assert(old(pieces)@.subrange(0, old(pieces)@.len() as int) =~= old(pieces)@);
    }
    *pieces = kept;
}

/// A fresh pair at the spawn cell, in `Normal` fall, its two pieces drawn
/// from the bag and given the next two handles.
pub fn spawn_pair(
    board: &Board,
    bag: &mut Bag,
    next_id: &mut u64,
    config: SimConfig,
) -> (p: ActivePair)
    requires
        board.wf(),
        config.wf(),
        *old(next_id) <= u64::MAX - 2,
    ensures
        p.pair.orientation == crate::piece::PairOrientation::ABVertical,
        p.position.row == config.start_row && p.position.col == config.start_col,
        (p.world.0 as int, p.world.1 as int) == board.spec_position_to_world(
            config.start_row as int,
            config.start_col as int,
        ),
        p.fall.velocity == config.base_velocity,
        p.fall.state == FallState::Normal,
        p.first_id == *old(next_id),
        p.second_id == *old(next_id) + 1,
        *final(next_id) == *old(next_id) + 2,
{
    let position = GridPosition::new(config.start_row, config.start_col);
    let world = board.position_to_world(position);
    let first_id = *next_id;
    let second_id = *next_id + 1;
    *next_id = *next_id + 2;
    let first_color = bag.piece_color();
    let second_color = bag.piece_color();
    ActivePair {
        pair: Pair::new(),
        position,
        world,
        fall: Fall::new(config.base_velocity),
        first_id,
        first_color,
        second_id,
        second_color,
    }
}

/// Decompose a landed pair into its two member pieces, each at its own
/// cell, each a fresh falling entity in `Normal` state so that it settles
/// onto whatever lies beneath it.
pub fn decompose_pair(board: &Board, active: ActivePair, pieces: &mut Vec<PieceEntity>)
    requires
        board.wf(),
        active.fall.wf(),
        -MAX_POS < active.position.row < MAX_POS,
        -MAX_POS < active.position.col < MAX_POS,
    ensures
        final(pieces)@.len() == old(pieces)@.len() + 2,
        forall|j: int| 0 <= j < old(pieces)@.len()
            ==> #[trigger] final(pieces)@[j] == old(pieces)@[j],
        ({
            let first = final(pieces)@[old(pieces)@.len() as int];
            let second = final(pieces)@[old(pieces)@.len() as int + 1];
            let sr = active.position.row + crate::piece::second_row_delta(
                active.pair.orientation,
            );
            let sc = active.position.col + crate::piece::second_col_delta(
                active.pair.orientation,
            );
            &&& first.id == active.first_id
            &&& first.color == active.first_color
            &&& first.position == active.position
            &&& (first.world.0 as int, first.world.1 as int) == board.spec_position_to_world(
                active.position.row as int,
                active.position.col as int,
            )
            &&& first.fall.velocity == active.fall.velocity
            &&& first.fall.state == FallState::Normal
            &&& second.id == active.second_id
            &&& second.color == active.second_color
            &&& second.position.row == sr && second.position.col == sc
            &&& (second.world.0 as int, second.world.1 as int)
                == board.spec_position_to_world(sr, sc)
            &&& second.fall.velocity == active.fall.velocity
            &&& second.fall.state == FallState::Normal
        }),
{
    let first_position = active.position;
    let second_position = active.pair.get_second_position(active.position);
    let first = PieceEntity {
        id: active.first_id,
        color: active.first_color,
        world: board.position_to_world(first_position),
        position: first_position,
        fall: Fall::new(active.fall.velocity),
    };
    let second = PieceEntity {
        id: active.second_id,
        color: active.second_color,
        world: board.position_to_world(second_position),
        position: second_position,
        fall: Fall::new(active.fall.velocity),
    };
    pieces.push(first);
    pieces.push(second);
}

/// The whole simulation: board, piece arena, the single active pair, input
/// timer, color bag, and the next free handle.
pub struct GameState {
    pub board: Board,
    pub pieces: Vec<PieceEntity>,
    pub active: ActivePair,
    pub timer: DASTimer,
    pub bag: Bag,
    pub next_id: u64,
    pub config: SimConfig,
}

impl GameState {
    /// Structural well-formedness of the whole simulation.
    pub open spec fn wf(self) -> bool {
        &&& self.board.wf()
        &&& self.timer.wf()
        &&& self.config.wf()
        &&& self.active.fall.wf()
        &&& -MAX_COORD <= self.active.world.0 <= MAX_COORD
        &&& -MAX_COORD <= self.active.world.1 <= MAX_COORD
        &&& i64::MIN / 2 < self.active.position.row < i64::MAX / 2
        &&& i64::MIN / 2 < self.active.position.col < i64::MAX / 2
        &&& forall|j: int|
            0 <= j < self.pieces@.len() ==> {
                let p = #[trigger] self.pieces@[j];
                &&& p.fall.wf()
                &&& -MAX_COORD <= p.world.0 <= MAX_COORD
                &&& -MAX_COORD <= p.world.1 <= MAX_COORD
            }
        &&& self.next_id <= u64::MAX - 2
    }

    /// The margin kept between any entity's world coordinate and the
    /// machine limit, so one tick's displacement cannot leave the range.
    pub open spec fn spec_coord_margin() -> int {
        3 * MAX_VELOCITY * MAX_TICK_MS
    }

    /// The discretization of world point (x, y2) stays strictly inside the
    /// converter range, and if the point has fallen past its cell's rest
    /// height, that cell is on the board. These conditions depend only on
    /// the board's dimensions and coordinate configuration, never on its
    /// occupancy, so they can be checked before a tick even though cells
    /// lock during it.
    pub open spec fn spec_rc_ok(b: Board, x: int, y2: int) -> bool {
        let rc = b.spec_world_to_position(x, y2);
        &&& -MAX_POS < rc.0 < MAX_POS
        &&& -MAX_POS < rc.1 < MAX_POS
        &&& y2 < b.spec_position_to_world(rc.0, rc.1).1 ==> b.spec_valid(rc.0, rc.1)
    }

    /// The numeric side conditions under which one falling piece can take
    /// one tick's step: its coordinates keep a one-tick margin and its
    /// post-step discretization is in range and lands only on the board.
    pub open spec fn spec_piece_step_ok(b: Board, world: (i64, i64), fall: Fall, dt: i64) -> bool {
        let y2 = world.1 - spec_displacement(fall, dt as int);
        &&& -MAX_COORD + GameState::spec_coord_margin() <= world.1 <= MAX_COORD
        &&& -MAX_COORD <= world.0 <= MAX_COORD
        &&& GameState::spec_rc_ok(b, world.0 as int, y2)
    }

    /// The discretization of world point (x, y2) stays strictly inside the
    /// converter range. The pair needs only this: it never writes a cell,
    /// so it may come to rest discretized on an off-board cell (the driver
    /// notices when its decomposed pieces fail their own step condition).
    pub open spec fn spec_rc_in_range(b: Board, x: int, y2: int) -> bool {
        let rc = b.spec_world_to_position(x, y2);
        &&& -MAX_POS < rc.0 < MAX_POS
        &&& -MAX_POS < rc.1 < MAX_POS
    }

    /// The step condition for the active pair. The movement phase may first
    /// shift its world x coordinate one cell edge either way, and the soft
    /// drop key may switch its velocity between stopped, normal and fast,
    /// so the discretization bounds must hold for every combination.
    pub open spec fn spec_pair_step_ok(b: Board, world: (i64, i64), fall: Fall, dt: i64) -> bool {
        let x = world.0 as int;
        let y = world.1 as int;
        let s = b.cell_size as int;
        let d1 = fall.velocity * dt;
        let d3 = 3 * fall.velocity * dt;
        &&& -MAX_COORD + GameState::spec_coord_margin() <= world.1 <= MAX_COORD
        &&& -MAX_COORD + crate::board::MAX_CELL_SIZE <= world.0
            <= MAX_COORD - crate::board::MAX_CELL_SIZE
        &&& GameState::spec_rc_in_range(b, x - s, y) && GameState::spec_rc_in_range(b, x, y)
            && GameState::spec_rc_in_range(b, x + s, y)
        &&& GameState::spec_rc_in_range(b, x - s, y - d1)
            && GameState::spec_rc_in_range(b, x, y - d1)
            && GameState::spec_rc_in_range(b, x + s, y - d1)
        &&& GameState::spec_rc_in_range(b, x - s, y - d3)
            && GameState::spec_rc_in_range(b, x, y - d3)
            && GameState::spec_rc_in_range(b, x + s, y - d3)
    }

    /// The numeric side conditions for one whole tick: every piece and the
    /// active pair can take its step, and two fresh handles are available.
    pub open spec fn spec_step_ok(self, dt: i64) -> bool {
        &&& GameState::spec_pair_step_ok(self.board, self.active.world, self.active.fall, dt)
        &&& forall|j: int|
            0 <= j < self.pieces@.len() ==> {
                let p = #[trigger] self.pieces@[j];
                GameState::spec_piece_step_ok(self.board, p.world, p.fall, dt)
            }
        &&& self.next_id <= u64::MAX - 4
    }

    /// Executable mirror of the discretization condition.
    fn check_rc_ok(board: &Board, x: i64, y2: i64) -> (ok: bool)
        requires
            board.wf(),
            -crate::board::MAX_WORLD <= x <= crate::board::MAX_WORLD,
            -crate::board::MAX_WORLD <= y2 <= crate::board::MAX_WORLD,
        ensures
            ok == GameState::spec_rc_ok(*board, x as int, y2 as int),
    {
        let rc = board.world_to_position((x, y2));
        if !(-MAX_POS < rc.row() && rc.row() < MAX_POS && -MAX_POS < rc.col() && rc.col()
            < MAX_POS) {
            return false;
        }
        let disc = board.position_to_world(rc);
        if y2 < disc.1 {
            board.is_valid(rc)
        } else {
            true
        }
    }

    /// Executable mirror of the range-only discretization condition.
    fn check_rc_in_range(board: &Board, x: i64, y2: i64) -> (ok: bool)
        requires
            board.wf(),
            -crate::board::MAX_WORLD <= x <= crate::board::MAX_WORLD,
            -crate::board::MAX_WORLD <= y2 <= crate::board::MAX_WORLD,
        ensures
            ok == GameState::spec_rc_in_range(*board, x as int, y2 as int),
    {
        let rc = board.world_to_position((x, y2));
        -MAX_POS < rc.row() && rc.row() < MAX_POS && -MAX_POS < rc.col() && rc.col() < MAX_POS
    }

    /// Executable mirror of the per-piece step condition, for a caller
    /// that must test it before a tick.
    pub fn check_piece_step_ok(board: &Board, world: (i64, i64), fall: Fall, dt: i64) -> (ok:
        bool)
        requires
            board.wf(),
            fall.wf(),
            0 <= dt <= MAX_TICK_MS,
        ensures
            ok == GameState::spec_piece_step_ok(*board, world, fall, dt),
    {
        let margin: i64 = 3 * MAX_VELOCITY * MAX_TICK_MS;
        if !(-MAX_COORD + margin <= world.1 && world.1 <= MAX_COORD) {
            return false;
        }
        if !(-MAX_COORD <= world.0 && world.0 <= MAX_COORD) {
            return false;
        }
        let vel = fall.get_velocity();
        proof {
            lemma_displacement_bound(fall, dt);
        }
        let y2 = world.1 - vel * dt;
        GameState::check_rc_ok(board, world.0, y2)
    }

    /// Executable mirror of the pair's step condition.
    pub fn check_pair_step_ok(board: &Board, world: (i64, i64), fall: Fall, dt: i64) -> (ok:
        bool)
        requires
            board.wf(),
            fall.wf(),
            0 <= dt <= MAX_TICK_MS,
        ensures
            ok == GameState::spec_pair_step_ok(*board, world, fall, dt),
    {
        let margin: i64 = 3 * MAX_VELOCITY * MAX_TICK_MS;
        if !(-MAX_COORD + margin <= world.1 && world.1 <= MAX_COORD) {
            return false;
        }
        if !(-MAX_COORD + crate::board::MAX_CELL_SIZE <= world.0
            && world.0 <= MAX_COORD - crate::board::MAX_CELL_SIZE) {
            return false;
        }
        proof {
            assert(0 <= fall.velocity * dt <= MAX_VELOCITY * MAX_TICK_MS
                && 0 <= 3 * fall.velocity * dt <= 3 * MAX_VELOCITY * MAX_TICK_MS)
                by (nonlinear_arith)
                requires
                    0 <= fall.velocity <= MAX_VELOCITY,
                    0 <= dt <= MAX_TICK_MS,
            ;
        }
        let d1: i64 = fall.velocity * dt;
        let d3: i64 = 3 * fall.velocity * dt;
        let s = board.cell_size;
        let x = world.0;
        let y = world.1;
        GameState::check_rc_in_range(board, x - s, y)
            && GameState::check_rc_in_range(board, x, y)
            && GameState::check_rc_in_range(board, x + s, y)
            && GameState::check_rc_in_range(board, x - s, y - d1)
            && GameState::check_rc_in_range(board, x, y - d1)
            && GameState::check_rc_in_range(board, x + s, y - d1)
            && GameState::check_rc_in_range(board, x - s, y - d3)
            && GameState::check_rc_in_range(board, x, y - d3)
            && GameState::check_rc_in_range(board, x + s, y - d3)
    }

    /// Executable mirror of the whole-tick step condition.
    pub fn check_step_ok(&self, dt: i64) -> (ok: bool)
        requires
            self.wf(),
            0 <= dt <= MAX_TICK_MS,
        ensures
            ok == self.spec_step_ok(dt),
    {
        if !(self.next_id <= u64::MAX - 4) {
            return false;
        }
        if !GameState::check_pair_step_ok(&self.board, self.active.world, self.active.fall, dt) {
            return false;
        }
        let mut j: usize = 0;
        while j < self.pieces.len()
            invariant
                self.wf(),
                0 <= dt <= MAX_TICK_MS,
                j <= self.pieces@.len(),
                GameState::spec_pair_step_ok(self.board, self.active.world, self.active.fall, dt),
                self.next_id <= u64::MAX - 4,
                forall|m: int|
                    0 <= m < j ==> {
                        let p = #[trigger] self.pieces@[m];
                        GameState::spec_piece_step_ok(self.board, p.world, p.fall, dt)
                    },
            decreases self.pieces@.len() - j,
        {
            let p = self.pieces[j];
            if !GameState::check_piece_step_ok(&self.board, p.world, p.fall, dt) {
                return false;
            }
            j = j + 1;
        }
        true
    }

    /// A fresh simulation over an empty board of the given dimensions and
    /// world-coordinate configuration, with the first pair already active.
    pub fn new(
        height: usize,
        width: usize,
        cell_size: i64,
        origin_x: i64,
        origin_y: i64,
        config: SimConfig,
        repeat_delay: i64,
        start_delay: i64,
    ) -> (s: GameState)
        requires
            height <= crate::board::MAX_DIM,
            width <= crate::board::MAX_DIM,
            0 < cell_size <= crate::board::MAX_CELL_SIZE,
            -crate::board::MAX_ORIGIN <= origin_x <= crate::board::MAX_ORIGIN,
            -crate::board::MAX_ORIGIN <= origin_y <= crate::board::MAX_ORIGIN,
            config.wf(),
            0 <= repeat_delay <= crate::movement::MAX_DELAY_MS,
            0 <= start_delay <= crate::movement::MAX_DELAY_MS,
        ensures
            s.wf(),
            s.board.height == height,
            s.board.width == width,
            s.board.cell_size == cell_size,
            s.board.origin_x == origin_x,
            s.board.origin_y == origin_y,
            forall|r: int, c: int| s.board.spec_valid(r, c) ==> s.board.cell(r, c) is Empty,
            s.pieces@.len() == 0,
            s.config == config,
            s.timer.start_delay == start_delay,
            s.timer.repeat_delay == repeat_delay,
            s.active.fall.state == FallState::Normal,
            s.active.position.row == config.start_row,
            s.active.position.col == config.start_col,
    {
        proof {
            assert(width * height <= crate::board::MAX_DIM * crate::board::MAX_DIM)
                by (nonlinear_arith)
                requires
                    width <= crate::board::MAX_DIM,
                    height <= crate::board::MAX_DIM,
            ;
        }
        let total: usize = width * height;
        let mut data: Vec<Cell> = Vec::new();
        while data.len() < total
            invariant
                data@.len() <= total,
                forall|k: int| 0 <= k < data@.len() ==> #[trigger] data@[k] is Empty,
            decreases total - data@.len(),
        {
            data.push(Cell::Empty);
        }
        let board = Board::new(height, width, data, cell_size, origin_x, origin_y);
        proof {
            assert forall|r: int, c: int| board.spec_valid(r, c) implies board.cell(r, c)
                is Empty by {
                assert(0 <= r * board.width + c < board.width * board.height)
                    by (nonlinear_arith)
                    requires
                        0 <= r < board.height,
                        0 <= c < board.width,
                ;
            }
        }
        let mut bag = Bag::new();
        let timer = DASTimer::new(repeat_delay, start_delay);
        let mut next_id: u64 = 0;
        let active = spawn_pair(&board, &mut bag, &mut next_id, config);
        proof {
            lemma_spawn_world_bounded(board, config);
        }
        GameState { board, pieces: Vec::new(), active, timer, bag, next_id, config }
    }

    /// The active pair's state at the end of a tick in which it does not
    /// land, and whether it lands: the movement command of the DAS timer is
    /// applied, then rotation on the release edge, then the soft-drop state
    /// switch, then one fall step; landing is reached when either member's
    /// cell below is blocked and the pair has passed its rest height.
    pub open spec fn spec_pair_outcome(
        b: Board,
        a: ActivePair,
        t: DASTimer,
        input: InputState,
        dt: i64,
    ) -> (ActivePair, bool) {
        let cmd = das_command(t, input.spec_direction(), dt);
        let moved = match cmd {
            Some(Direction::Right) => crate::board::spec_move_right_pair(
                b, a.pair, a.world, a.position),
            Some(Direction::Left) => crate::board::spec_move_left_pair(
                b, a.pair, a.world, a.position),
            None => (a.world, a.position),
        };
        let w1 = moved.0;
        let p1 = moved.1;
        let turned = crate::piece::turned_clockwise(a.pair.orientation);
        let pair1 = if input.rotate_released && b.spec_empty(
            p1.row + crate::piece::second_row_delta(turned),
            p1.col + crate::piece::second_col_delta(turned),
        ) {
            Pair { orientation: turned }
        } else {
            a.pair
        };
        let fall1 = Fall {
            velocity: a.fall.velocity,
            state: crate::movement::spec_soft_drop(a.fall.state, input.down),
        };
        let y2 = w1.1 - spec_displacement(fall1, dt as int);
        let rc = b.spec_world_to_position(w1.0 as int, y2);
        let landing = crate::fall::spec_pair_landing(b, pair1, rc.0, rc.1, y2);
        let rest = b.spec_position_to_world(rc.0, rc.1);
        if landing {
            (ActivePair {
                pair: pair1,
                position: GridPosition { row: rc.0 as i64, col: rc.1 as i64 },
                world: (rest.0 as i64, rest.1 as i64),
                fall: Fall { velocity: a.fall.velocity, state: FallState::Stopped },
                ..a
            }, true)
        } else {
            (ActivePair {
                pair: pair1,
                position: GridPosition { row: rc.0 as i64, col: rc.1 as i64 },
                world: (w1.0, y2 as i64),
                fall: fall1,
                ..a
            }, false)
        }
    }

    /// One fixed-timestep tick, in strict order: (1) the raw key state runs
    /// through the DAS timer and moves and rotates the active pair against
    /// the board; (2) the pair and every piece advance their fall, landing
    /// pieces locking their cells; (3) a landed pair is decomposed into two
    /// independent falling pieces; (4) the cells of freshly landed pieces
    /// seed one batched match-resolution pass, whose cleared pieces are
    /// despawned and whose dislodged pieces resume `Normal` fall; (5) if
    /// the pair landed, a replacement pair is spawned.
    ///
    /// The returned notifications tell the caller's render layer what
    /// happened: whether the pair locked this tick, and which individual
    /// pieces locked onto the stack.
    #[verifier::rlimit(100)]
    pub fn tick(&mut self, input: InputState, dt: i64) -> (events: (
        Option<PairLandedEvent>,
        Vec<PieceLandedEvent>,
    ))
        requires
            old(self).wf(),
            0 <= dt <= MAX_TICK_MS,
            old(self).spec_step_ok(dt),
        ensures
            final(self).wf(),
            old(self).board.same_config(final(self).board),
            final(self).config == old(self).config,
            final(self).timer == das_next(
                old(self).timer,
                input.spec_direction(),
                dt,
            ),
            ({
                let outcome = GameState::spec_pair_outcome(
                    old(self).board,
                    old(self).active,
                    old(self).timer,
                    input,
                    dt,
                );
                &&& (events.0 is Some) == outcome.1
                &&& !outcome.1 ==> {
                    &&& final(self).active == outcome.0
                    &&& final(self).next_id == old(self).next_id
                }
                &&& outcome.1 ==> {
                    &&& final(self).active.position.row == old(self).config.start_row
                    &&& final(self).active.position.col == old(self).config.start_col
                    &&& final(self).active.fall.velocity == old(self).config.base_velocity
                    &&& final(self).active.fall.state == FallState::Normal
                    &&& final(self).active.pair.orientation
                        == crate::piece::PairOrientation::ABVertical
                    &&& final(self).active.first_id == old(self).next_id
                    &&& final(self).active.second_id == old(self).next_id + 1
                    &&& final(self).next_id == old(self).next_id + 2
                }
            }),
    {
        let ghost b_start = self.board;

        // phase 1: movement and rotation for the active pair
        let mut pair = self.active.pair;
        let mut world = self.active.world;
        let mut position = self.active.position;
        let mut fall = self.active.fall;
        let ghost x0 = world.0;
        let ghost fall0 = fall;
        move_pair_step(
            &self.board,
            pair,
            &mut self.timer,
            &mut fall,
            &mut world,
            &mut position,
            input,
            dt,
        );
        rotate_pair_step(&self.board, &mut pair, position, input.rotate_released);
        proof {
            lemma_displacement_bound(fall, dt);
            assert(world.0 == x0 || world.0 == x0 + self.board.cell_size
                || world.0 == x0 - self.board.cell_size);
            assert(fall.velocity == fall0.velocity);
            match fall.state {
                FallState::Fast => {
                    assert(spec_displacement(fall, dt as int) == 3 * fall0.velocity * dt);
                },
                FallState::Normal => {
                    assert(spec_displacement(fall, dt as int) == fall0.velocity * dt);
                },
                FallState::Stopped => {
                    assert(spec_displacement(fall, dt as int) == 0);
                },
            }
            assert(GameState::spec_rc_in_range(
                self.board,
                world.0 as int,
                world.1 - spec_displacement(fall, dt as int),
            ));
        }

        // phase 2a: fall advancement for the active pair
        let pair_landed = fall_step_pair(
            &self.board,
            pair,
            &mut world,
            &mut position,
            &mut fall,
            dt,
        );
        proof {
            if pair_landed {
                lemma_position_to_world_bounded(
                    self.board,
                    position.row as int,
                    position.col as int,
                );
            } else {
                lemma_displacement_bound(fall, dt);
            }
            assert(-MAX_POS < position.row < MAX_POS && -MAX_POS < position.col < MAX_POS);
            assert(-MAX_COORD <= world.0 <= MAX_COORD && -MAX_COORD <= world.1 <= MAX_COORD);
        }
        self.active = ActivePair { pair, world, position, fall, ..self.active };
        let ghost act1 = self.active;

        // phase 2b: fall advancement for every independent piece
        let mut landed_positions: Vec<GridPosition> = Vec::new();
        let mut landed_events: Vec<PieceLandedEvent> = Vec::new();
        let mut j: usize = 0;
        while j < self.pieces.len()
            invariant
                self.board.wf(),
                b_start.same_config(self.board),
                self.active == act1,
                self.timer == das_next(old(self).timer, input.spec_direction(), dt),
                self.config == old(self).config,
                self.next_id == old(self).next_id,
                old(self).next_id <= u64::MAX - 4,
                act1.fall.wf(),
                -MAX_COORD <= act1.world.0 <= MAX_COORD,
                -MAX_COORD <= act1.world.1 <= MAX_COORD,
                -MAX_POS < act1.position.row < MAX_POS,
                -MAX_POS < act1.position.col < MAX_POS,
                j <= self.pieces@.len(),
                0 <= dt <= MAX_TICK_MS,
                forall|m: int|
                    0 <= m < self.pieces@.len() ==> {
                        let p = #[trigger] self.pieces@[m];
                        &&& p.fall.wf()
                        &&& -MAX_COORD <= p.world.0 <= MAX_COORD
                        &&& -MAX_COORD <= p.world.1 <= MAX_COORD
                    },
                forall|m: int|
                    j <= m < self.pieces@.len() ==> GameState::spec_piece_step_ok(
                        self.board,
                        (#[trigger] self.pieces@[m]).world,
                        self.pieces@[m].fall,
                        dt,
                    ),
                forall|i: int|
                    0 <= i < landed_positions@.len() ==> self.board.spec_valid(
                        #[trigger] landed_positions@[i].row as int,
                        landed_positions@[i].col as int,
                    ),
            decreases self.pieces@.len() - j,
        {
            let ghost b_iter = self.board;
            let mut p = self.pieces[j];
            let ghost f0 = p.fall;
            let landed = fall_step_piece(
                &mut self.board,
                &mut p.world,
                &mut p.position,
                &mut p.fall,
                dt,
                p.id,
                p.color,
            );
            proof {
                if landed {
                    lemma_position_to_world_bounded(
                        self.board,
                        p.position.row as int,
                        p.position.col as int,
                    );
                } else {
                    lemma_displacement_bound(f0, dt);
                }
                assert forall|m: int|
                    j + 1 <= m < self.pieces@.len() implies GameState::spec_piece_step_ok(
                    self.board,
                    (#[trigger] self.pieces@[m]).world,
                    self.pieces@[m].fall,
                    dt,
                ) by {
                    lemma_piece_step_ok_config(
                        b_iter,
                        self.board,
                        self.pieces@[m].world,
                        self.pieces@[m].fall,
                        dt,
                    );
                }
            }
            self.pieces.set(j, p);
            if landed {
                landed_positions.push(p.position);
                landed_events.push(PieceLandedEvent::new(p.id));
            }
            j = j + 1;
        }

        // phase 3: a landed pair decomposes into two falling pieces
        if pair_landed {
            let active = self.active;
            let ghost pre_len = self.pieces@.len();
            decompose_pair(&self.board, active, &mut self.pieces);
            proof {
                lemma_position_to_world_bounded(
                    self.board,
                    active.position.row as int,
                    active.position.col as int,
                );
                lemma_position_to_world_bounded(
                    self.board,
                    active.position.row + crate::piece::second_row_delta(
                        active.pair.orientation,
                    ),
                    active.position.col + crate::piece::second_col_delta(
                        active.pair.orientation,
                    ),
                );
                assert forall|m: int|
                    0 <= m < self.pieces@.len() implies {
                    let p = #[trigger] self.pieces@[m];
                    &&& p.fall.wf()
                    &&& -MAX_COORD <= p.world.0 <= MAX_COORD
                    &&& -MAX_COORD <= p.world.1 <= MAX_COORD
                } by {
                    if m >= pre_len {
                        assert(m == pre_len || m == pre_len + 1);
                    }
                }
            }
        }

        // phase 4: batched match resolution over this tick's landings
        let resolved = resolve_matches(
            &mut self.board,
            &landed_positions,
            self.config.clear_threshold,
        );
        let cleared_owners = resolved.0;
        let dislodged = resolved.1;
        let ghost arena0 = self.pieces@;
        remove_cleared(&mut self.pieces, &cleared_owners);
        proof {
            assert forall|m: int|
                0 <= m < self.pieces@.len() implies {
                let p = #[trigger] self.pieces@[m];
                &&& p.fall.wf()
                &&& -MAX_COORD <= p.world.0 <= MAX_COORD
                &&& -MAX_COORD <= p.world.1 <= MAX_COORD
            } by {
                assert(arena0.contains(self.pieces@[m]));
                let i = choose|i: int| 0 <= i < arena0.len() && arena0[i] == self.pieces@[m];
            }
        }
        let ghost arena1 = self.pieces@;
        apply_dislodged(&mut self.pieces, &dislodged);
        proof {
            assert forall|m: int|
                0 <= m < self.pieces@.len() implies {
                let p = #[trigger] self.pieces@[m];
                &&& p.fall.wf()
                &&& -MAX_COORD <= p.world.0 <= MAX_COORD
                &&& -MAX_COORD <= p.world.1 <= MAX_COORD
            } by {
                assert(arena1[m].fall.wf());
            }
        }

        // phase 5: spawn the replacement pair
        if pair_landed {
            let replacement = spawn_pair(
                &self.board,
                &mut self.bag,
                &mut self.next_id,
                self.config,
            );
            proof {
                lemma_spawn_world_bounded(self.board, self.config);
            }
            self.active = replacement;
        }

        let pair_event = if pair_landed {
            Some(PairLandedEvent)
        } else {
            None
        };
        (pair_event, landed_events)
    }
}

/// One tick's displacement is nonnegative and bounded by the coordinate
/// margin.
proof fn lemma_displacement_bound(fall: Fall, dt: i64)
    requires
        fall.wf(),
        0 <= dt <= MAX_TICK_MS,
    ensures
        0 <= spec_displacement(fall, dt as int) <= GameState::spec_coord_margin(),
{
    let v = crate::fall::spec_velocity(fall);
    assert(0 <= v <= 3 * MAX_VELOCITY);
    assert(0 <= v * dt <= 3 * MAX_VELOCITY * MAX_TICK_MS) by (nonlinear_arith)
        requires
            0 <= v <= 3 * MAX_VELOCITY,
            0 <= dt <= MAX_TICK_MS,
    ;
}

/// The per-piece step condition depends only on the board's dimensions
/// and coordinate configuration, never on its occupancy.
proof fn lemma_piece_step_ok_config(
    b1: Board,
    b2: Board,
    world: (i64, i64),
    fall: Fall,
    dt: i64,
)
    requires
        b1.same_config(b2),
    ensures
        GameState::spec_piece_step_ok(b1, world, fall, dt) == GameState::spec_piece_step_ok(
            b2,
            world,
            fall,
            dt,
        ),
{
}

/// The spawn cell's world coordinate is within the entity coordinate range.
proof fn lemma_spawn_world_bounded(b: Board, config: SimConfig)
    requires
        b.wf(),
        config.wf(),
    ensures
        ({
            let w = b.spec_position_to_world(config.start_row as int, config.start_col as int);
            -MAX_COORD <= w.0 <= MAX_COORD && -MAX_COORD <= w.1 <= MAX_COORD
        }),
{
    lemma_position_to_world_bounded(b, config.start_row as int, config.start_col as int);
}

/// Any cell within converter range has a world coordinate within the
/// entity coordinate range.
proof fn lemma_position_to_world_bounded(b: Board, r: int, c: int)
    requires
        b.wf(),
        -MAX_POS - 1 <= r <= MAX_POS + 1,
        -MAX_POS - 1 <= c <= MAX_POS + 1,
    ensures
        ({
            let w = b.spec_position_to_world(r, c);
            -MAX_COORD <= w.0 <= MAX_COORD && -MAX_COORD <= w.1 <= MAX_COORD
        }),
{
    assert(-(crate::board::MAX_CELL_SIZE as int) * (MAX_POS + 1) <= b.cell_size * c
        <= (crate::board::MAX_CELL_SIZE as int) * (MAX_POS + 1)) by (nonlinear_arith)
        requires
            0 < b.cell_size <= crate::board::MAX_CELL_SIZE,
            -MAX_POS - 1 <= c <= MAX_POS + 1,
    ;
    assert(-(crate::board::MAX_CELL_SIZE as int) * (MAX_POS + 1) <= b.cell_size * r
        <= (crate::board::MAX_CELL_SIZE as int) * (MAX_POS + 1)) by (nonlinear_arith)
        requires
            0 < b.cell_size <= crate::board::MAX_CELL_SIZE,
            -MAX_POS - 1 <= r <= MAX_POS + 1,
    ;
}

} // verus!
