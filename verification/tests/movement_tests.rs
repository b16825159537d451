use puyo_core::Board;
use puyo_core::Cell;
use puyo_core::DASTimer;
use puyo_core::Direction;
use puyo_core::GridPosition;
use puyo_core::Pair;
use puyo_core::PairOrientation;
use puyo_core::PieceColor;

fn empty_board(height: usize, width: usize) -> Board {
    let data = vec![Cell::Empty; width * height];
    Board::new(height, width, data, 1000, 0, 0)
}

#[test]
fn das_first_press_is_instant() {
    let mut timer = DASTimer::new(30, 100);
    assert_eq!(timer.update(Some(Direction::Right), 10), Some(Direction::Right));
    // the very next tick of the same key emits nothing yet
    assert_eq!(timer.update(Some(Direction::Right), 10), None);
}

#[test]
fn das_hold_90ms_emits_no_repeat() {
    // startDelay = 100 ms, repeatDelay = 30 ms, 10 ms ticks
    let mut timer = DASTimer::new(30, 100);
    let mut commands = 0;
    if timer.update(Some(Direction::Right), 10).is_some() {
        commands += 1;
    }
    // hold for 90 ms beyond the initial press
    for _ in 0..9 {
        if timer.update(Some(Direction::Right), 10).is_some() {
            commands += 1;
        }
    }
    // only the instant initial command
    assert_eq!(commands, 1);
}

#[test]
fn das_hold_150ms_emits_exactly_one_repeat() {
    let mut timer = DASTimer::new(30, 100);
    let mut commands = 0;
    if timer.update(Some(Direction::Right), 10).is_some() {
        commands += 1;
    }
    // hold up to 150 ms total
    for _ in 0..15 {
        if timer.update(Some(Direction::Right), 10).is_some() {
            commands += 1;
        }
    }
    // the instant command plus exactly one repeat
    assert_eq!(commands, 2);
}

#[test]
fn das_release_resets_and_new_key_is_instant() {
    let mut timer = DASTimer::new(30, 100);
    assert_eq!(timer.update(Some(Direction::Right), 10), Some(Direction::Right));
    assert_eq!(timer.update(Some(Direction::Right), 50), None);
    // release: no command, timers cleared
    assert_eq!(timer.update(None, 10), None);
    // a fresh press is instant again
    assert_eq!(timer.update(Some(Direction::Right), 10), Some(Direction::Right));
    // a different key latches and emits immediately
    assert_eq!(timer.update(Some(Direction::Left), 10), Some(Direction::Left));
}

#[test]
fn rotation_cycles_through_all_four_orientations() {
    let pair = Pair::new();
    assert_eq!(pair.orientation, PairOrientation::ABVertical);
    let p1 = pair.turn_clockwise();
    assert_eq!(p1.orientation, PairOrientation::BAHorizontal);
    let p2 = p1.turn_clockwise();
    assert_eq!(p2.orientation, PairOrientation::BAVertical);
    let p3 = p2.turn_clockwise();
    assert_eq!(p3.orientation, PairOrientation::ABHorizontal);
    let p4 = p3.turn_clockwise();
    assert_eq!(p4.orientation, PairOrientation::ABVertical);
}

#[test]
fn second_position_follows_orientation() {
    let reference = GridPosition::new(5, 5);
    let pair = Pair::new();
    assert_eq!(pair.get_second_position(reference), GridPosition::new(4, 5));
    let pair = pair.turn_clockwise();
    assert_eq!(pair.get_second_position(reference), GridPosition::new(5, 4));
    let pair = pair.turn_clockwise();
    assert_eq!(pair.get_second_position(reference), GridPosition::new(6, 5));
    let pair = pair.turn_clockwise();
    assert_eq!(pair.get_second_position(reference), GridPosition::new(5, 6));
}

#[test]
fn second_world_offset_matches_grid_offset() {
    let cell_size = 1000;
    let mut pair = Pair::new();
    for _ in 0..4 {
        let d = pair.second_world_offset(cell_size);
        let reference = GridPosition::new(0, 0);
        let second = pair.get_second_position(reference);
        assert_eq!(d.0, cell_size * second.col());
        assert_eq!(d.1, cell_size * second.row());
        pair = pair.turn_clockwise();
    }
}

#[test]
fn blocked_rotation_changes_nothing() {
    let mut board = empty_board(4, 4);
    // the clockwise target of a fresh pair at (2, 2) is (2, 1); occupy it
    board.place_cell(
        GridPosition::new(2, 1),
        Cell::Occupied { color: PieceColor::Purple, owner: 9 },
    );
    let position = GridPosition::new(2, 2);
    let mut pair = Pair::new();
    puyo_core::rotate_pair_step(&board, &mut pair, position, true);
    assert_eq!(pair.orientation, PairOrientation::ABVertical);

    // free the cell: the same request now turns the pair
    board.place_cell(GridPosition::new(2, 1), Cell::Empty);
    puyo_core::rotate_pair_step(&board, &mut pair, position, true);
    assert_eq!(pair.orientation, PairOrientation::BAHorizontal);

    // without the release edge nothing happens either
    puyo_core::rotate_pair_step(&board, &mut pair, position, false);
    assert_eq!(pair.orientation, PairOrientation::BAHorizontal);
}
