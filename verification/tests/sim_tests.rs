use puyo_core::Cell;
use puyo_core::FallState;
use puyo_core::GameState;
use puyo_core::GridPosition;
use puyo_core::InputState;
use puyo_core::SimConfig;

fn idle() -> InputState {
    InputState { left: false, right: false, down: false, rotate_released: false }
}

fn small_game() -> GameState {
    let config = SimConfig {
        start_row: 3,
        start_col: 2,
        base_velocity: 1,
        clear_threshold: 4,
    };
    GameState::new(5, 3, 1000, 0, 0, config, 30, 100)
}

#[test]
fn new_game_is_empty_with_one_active_pair() {
    let game = small_game();
    assert_eq!(game.board.height, 5);
    assert_eq!(game.board.width, 3);
    for row in 0..5 {
        for col in 0..3 {
            assert!(game.board.is_empty(GridPosition::new(row, col)));
        }
    }
    assert!(game.pieces.is_empty());
    assert_eq!(game.active.position, GridPosition::new(3, 2));
    assert!(matches!(game.active.fall.state, FallState::Normal));
    assert_ne!(game.active.first_id, game.active.second_id);
}

#[test]
fn landed_pair_decomposes_and_a_new_pair_spawns() {
    let mut game = small_game();
    // put the active pair just above the floor: its second piece sits at
    // row 0, so the pair cannot move down
    game.active.position = GridPosition::new(1, 0);
    game.active.world = (0, 1000);
    let first_id = game.active.first_id;
    let second_id = game.active.second_id;

    assert!(game.check_step_ok(100));
    game.tick(idle(), 100);

    // the pair landed and was decomposed into two falling pieces
    assert_eq!(game.pieces.len(), 2);
    assert_eq!(game.pieces[0].id, first_id);
    assert_eq!(game.pieces[0].position, GridPosition::new(1, 0));
    assert_eq!(game.pieces[1].id, second_id);
    assert_eq!(game.pieces[1].position, GridPosition::new(0, 0));
    assert!(matches!(game.pieces[0].fall.state, FallState::Normal));
    assert!(matches!(game.pieces[1].fall.state, FallState::Normal));
    // and a replacement pair is already active at the spawn cell
    assert_eq!(game.active.position, GridPosition::new(3, 2));
    assert!(game.active.first_id > second_id);
}

#[test]
fn decomposed_pieces_settle_onto_the_stack() {
    let mut game = small_game();
    game.active.position = GridPosition::new(1, 0);
    game.active.world = (0, 1000);
    let first_id = game.active.first_id;
    let second_id = game.active.second_id;

    // tick 1: the pair lands and decomposes
    assert!(game.check_step_ok(100));
    game.tick(idle(), 100);

    // tick 2: the lower piece passes its rest height and locks at (0, 0)
    assert!(game.check_step_ok(100));
    game.tick(idle(), 100);
    assert_eq!(
        game.board.cell_at(GridPosition::new(0, 0)),
        Cell::Occupied { color: game.pieces[1].color, owner: second_id },
    );

    // tick 3: the upper piece now rests on the locked one and locks too
    assert!(game.check_step_ok(100));
    game.tick(idle(), 100);
    assert_eq!(
        game.board.cell_at(GridPosition::new(1, 0)),
        Cell::Occupied { color: game.pieces[0].color, owner: first_id },
    );
    assert!(matches!(game.pieces[0].fall.state, FallState::Stopped));
    assert!(matches!(game.pieces[1].fall.state, FallState::Stopped));
}

#[test]
fn soft_drop_switches_fall_state_and_back() {
    let mut game = small_game();
    let mut input = idle();
    input.down = true;
    assert!(game.check_step_ok(10));
    game.tick(input, 10);
    assert!(matches!(game.active.fall.state, FallState::Fast));
    assert!(game.check_step_ok(10));
    game.tick(idle(), 10);
    assert!(matches!(game.active.fall.state, FallState::Normal));
}

#[test]
fn held_key_shifts_the_pair_with_das_timing() {
    let mut game = small_game();
    let mut input = idle();
    input.left = true;
    // the first press moves the pair one column at once
    assert!(game.check_step_ok(10));
    game.tick(input, 10);
    assert_eq!(game.active.position, GridPosition::new(3, 1));
    // holding for less than the start delay adds nothing
    for _ in 0..9 {
        assert!(game.check_step_ok(10));
        game.tick(input, 10);
    }
    assert_eq!(game.active.position, GridPosition::new(3, 1));
    // past the start delay the repeats begin
    for _ in 0..6 {
        assert!(game.check_step_ok(10));
        game.tick(input, 10);
    }
    assert_eq!(game.active.position, GridPosition::new(3, 0));
}
