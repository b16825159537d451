use puyo_core::Board;
use puyo_core::Cell;
use puyo_core::Fall;
use puyo_core::FallState;
use puyo_core::GridPosition;
use puyo_core::Pair;
use puyo_core::PieceColor;
use puyo_core::fall_step_pair;
use puyo_core::fall_step_piece;

fn empty_board(height: usize, width: usize) -> Board {
    let data = vec![Cell::Empty; width * height];
    Board::new(height, width, data, 1000, 0, 0)
}

#[test]
fn fast_fall_is_three_times_normal_and_stopped_is_zero() {
    let base = 150;
    let normal = Fall { velocity: base, state: FallState::Normal };
    let fast = Fall { velocity: base, state: FallState::Fast };
    let stopped = Fall { velocity: base, state: FallState::Stopped };
    let dt = 16;
    let normal_displacement = normal.get_velocity() * dt;
    let fast_displacement = fast.get_velocity() * dt;
    let stopped_displacement = stopped.get_velocity() * dt;
    assert_eq!(fast_displacement, 3 * normal_displacement);
    assert_eq!(stopped_displacement, 0);
    assert_eq!(normal_displacement, 2400);
}

#[test]
fn piece_falls_then_locks_on_the_floor() {
    let mut board = empty_board(3, 3);
    let mut world = (1000, 1000);
    let mut position = GridPosition::new(1, 1);
    let mut fall = Fall::new(1);

    // first step: 600 sub-units down, discretized to row 0, still above the
    // rest height of that cell
    let landed = fall_step_piece(
        &mut board, &mut world, &mut position, &mut fall, 600, 42, PieceColor::Red,
    );
    assert!(!landed);
    assert_eq!(world, (1000, 400));
    assert_eq!(position, GridPosition::new(0, 1));
    assert!(matches!(fall.state, FallState::Normal));
    assert!(board.is_empty(GridPosition::new(0, 1)));

    // second step passes the rest height: the piece snaps, stops, and its
    // cell is written into the board
    let landed = fall_step_piece(
        &mut board, &mut world, &mut position, &mut fall, 600, 42, PieceColor::Red,
    );
    assert!(landed);
    assert_eq!(world, (1000, 0));
    assert_eq!(position, GridPosition::new(0, 1));
    assert!(matches!(fall.state, FallState::Stopped));
    assert_eq!(
        board.cell_at(GridPosition::new(0, 1)),
        Cell::Occupied { color: PieceColor::Red, owner: 42 },
    );
}

#[test]
fn stopped_piece_does_not_move() {
    let mut board = empty_board(3, 3);
    let mut world = (1000, 700);
    let mut position = GridPosition::new(1, 1);
    let mut fall = Fall { velocity: 5, state: FallState::Stopped };
    let landed = fall_step_piece(
        &mut board, &mut world, &mut position, &mut fall, 600, 7, PieceColor::Blue,
    );
    assert!(!landed);
    assert_eq!(world, (1000, 700));
}

#[test]
fn pair_lands_when_either_member_is_blocked() {
    let board = empty_board(3, 3);
    // a vertical pair whose reference sits at row 1: its second piece is at
    // row 0, so the pair cannot move down even though the reference could
    let pair = Pair::new();
    let mut world = (1000, 1000);
    let mut position = GridPosition::new(1, 1);
    let mut fall = Fall::new(1);
    let landed = fall_step_pair(&board, pair, &mut world, &mut position, &mut fall, 100);
    assert!(landed);
    // snapped back onto the reference cell's rest position and stopped
    assert_eq!(world, (1000, 1000));
    assert_eq!(position, GridPosition::new(1, 1));
    assert!(matches!(fall.state, FallState::Stopped));
}

#[test]
fn soft_drop_falls_three_times_as_far() {
    let board = empty_board(30, 3);
    let pair = Pair::new();

    let mut world_normal = (1000, 20_000);
    let mut position_normal = GridPosition::new(20, 1);
    let mut fall_normal = Fall::new(10);
    fall_step_pair(
        &board, pair, &mut world_normal, &mut position_normal, &mut fall_normal, 100,
    );

    let mut world_fast = (1000, 20_000);
    let mut position_fast = GridPosition::new(20, 1);
    let mut fall_fast = Fall { velocity: 10, state: FallState::Fast };
    fall_step_pair(&board, pair, &mut world_fast, &mut position_fast, &mut fall_fast, 100);

    assert_eq!(20_000 - world_normal.1, 1000);
    assert_eq!(20_000 - world_fast.1, 3000);
}
