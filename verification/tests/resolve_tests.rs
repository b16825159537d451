use puyo_core::Board;
use puyo_core::Cell;
use puyo_core::FallState;
use puyo_core::GridPosition;
use puyo_core::PieceColor;
use puyo_core::PieceEntity;
use puyo_core::apply_dislodged;
use puyo_core::fall_step_piece;
use puyo_core::remove_cleared;
use puyo_core::resolve_matches;

fn empty_board(height: usize, width: usize) -> Board {
    let data = vec![Cell::Empty; width * height];
    Board::new(height, width, data, 1000, 0, 0)
}

fn occupied(color: PieceColor, owner: u64) -> Cell {
    Cell::Occupied { color, owner }
}

#[test]
fn component_at_threshold_is_cleared() {
    let mut board = empty_board(4, 4);
    // an L of exactly four red cells
    board.place_cell(GridPosition::new(0, 0), occupied(PieceColor::Red, 1));
    board.place_cell(GridPosition::new(1, 0), occupied(PieceColor::Red, 2));
    board.place_cell(GridPosition::new(2, 0), occupied(PieceColor::Red, 3));
    board.place_cell(GridPosition::new(0, 1), occupied(PieceColor::Red, 4));
    let landed = vec![GridPosition::new(0, 0)];
    let (owners, dislodged) = resolve_matches(&mut board, &landed, 4);
    assert!(board.is_empty(GridPosition::new(0, 0)));
    assert!(board.is_empty(GridPosition::new(1, 0)));
    assert!(board.is_empty(GridPosition::new(2, 0)));
    assert!(board.is_empty(GridPosition::new(0, 1)));
    let mut sorted = owners.clone();
    sorted.sort();
    assert_eq!(sorted, vec![1, 2, 3, 4]);
    assert!(dislodged.is_empty());
}

#[test]
fn component_below_threshold_is_kept() {
    let mut board = empty_board(4, 4);
    // one cell short of the threshold
    board.place_cell(GridPosition::new(0, 0), occupied(PieceColor::Red, 1));
    board.place_cell(GridPosition::new(1, 0), occupied(PieceColor::Red, 2));
    board.place_cell(GridPosition::new(2, 0), occupied(PieceColor::Red, 3));
    let landed = vec![GridPosition::new(0, 0)];
    let (owners, dislodged) = resolve_matches(&mut board, &landed, 4);
    assert_eq!(board.cell_at(GridPosition::new(0, 0)), occupied(PieceColor::Red, 1));
    assert_eq!(board.cell_at(GridPosition::new(1, 0)), occupied(PieceColor::Red, 2));
    assert_eq!(board.cell_at(GridPosition::new(2, 0)), occupied(PieceColor::Red, 3));
    assert!(owners.is_empty());
    assert!(dislodged.is_empty());
}

#[test]
fn cells_above_a_clearing_are_detached_and_resume_falling() {
    let mut board = empty_board(6, 2);
    // column 0: four reds at the bottom, then a blue and a green resting on
    // top of them
    board.place_cell(GridPosition::new(0, 0), occupied(PieceColor::Red, 1));
    board.place_cell(GridPosition::new(1, 0), occupied(PieceColor::Red, 2));
    board.place_cell(GridPosition::new(2, 0), occupied(PieceColor::Red, 3));
    board.place_cell(GridPosition::new(3, 0), occupied(PieceColor::Red, 4));
    board.place_cell(GridPosition::new(4, 0), occupied(PieceColor::Blue, 5));
    board.place_cell(GridPosition::new(5, 0), occupied(PieceColor::Green, 6));
    // column 1 is untouched
    board.place_cell(GridPosition::new(0, 1), occupied(PieceColor::Blue, 7));

    let landed = vec![GridPosition::new(3, 0)];
    let (owners, dislodged) = resolve_matches(&mut board, &landed, 4);

    // the component is cleared and everything above it is detached
    for row in 0..6 {
        assert!(board.is_empty(GridPosition::new(row, 0)));
    }
    // the other column is untouched
    assert_eq!(board.cell_at(GridPosition::new(0, 1)), occupied(PieceColor::Blue, 7));

    let mut sorted = owners.clone();
    sorted.sort();
    assert_eq!(sorted, vec![1, 2, 3, 4]);

    // the blue and green pieces above the clearing were dislodged
    assert_eq!(dislodged.len(), 2);
    let mut ids: Vec<u64> = dislodged.iter().map(|e| e.0).collect();
    ids.sort();
    assert_eq!(ids, vec![5, 6]);

    // applying the dislodged list flips exactly those pieces to Normal
    let mut pieces = vec![
        PieceEntity {
            id: 5,
            color: PieceColor::Blue,
            world: (0, 4000),
            position: GridPosition::new(4, 0),
            fall: puyo_core::Fall { velocity: 1, state: FallState::Stopped },
        },
        PieceEntity {
            id: 6,
            color: PieceColor::Green,
            world: (0, 5000),
            position: GridPosition::new(5, 0),
            fall: puyo_core::Fall { velocity: 1, state: FallState::Stopped },
        },
        PieceEntity {
            id: 7,
            color: PieceColor::Blue,
            world: (1000, 0),
            position: GridPosition::new(0, 1),
            fall: puyo_core::Fall { velocity: 1, state: FallState::Stopped },
        },
    ];
    apply_dislodged(&mut pieces, &dislodged);
    assert!(matches!(pieces[0].fall.state, FallState::Normal));
    assert!(matches!(pieces[1].fall.state, FallState::Normal));
    assert!(matches!(pieces[2].fall.state, FallState::Stopped));

    // despawning the cleared owners leaves the arena untouched here, since
    // the cleared pieces were never in it
    remove_cleared(&mut pieces, &owners);
    assert_eq!(pieces.len(), 3);
}

#[test]
fn remove_cleared_drops_exactly_the_named_pieces() {
    let piece = |id: u64| PieceEntity {
        id,
        color: PieceColor::Red,
        world: (0, 0),
        position: GridPosition::new(0, 0),
        fall: puyo_core::Fall { velocity: 1, state: FallState::Stopped },
    };
    let mut pieces = vec![piece(1), piece(2), piece(3), piece(4)];
    let owners = vec![2, 4];
    remove_cleared(&mut pieces, &owners);
    let ids: Vec<u64> = pieces.iter().map(|p| p.id).collect();
    assert_eq!(ids, vec![1, 3]);
}

#[test]
fn two_seeds_in_one_component_clear_it_once() {
    let mut board = empty_board(4, 4);
    board.place_cell(GridPosition::new(0, 0), occupied(PieceColor::Red, 1));
    board.place_cell(GridPosition::new(0, 1), occupied(PieceColor::Red, 2));
    board.place_cell(GridPosition::new(1, 0), occupied(PieceColor::Red, 3));
    board.place_cell(GridPosition::new(1, 1), occupied(PieceColor::Red, 4));
    // both freshly landed cells seed the same component
    let landed = vec![GridPosition::new(0, 0), GridPosition::new(1, 1)];
    let (owners, dislodged) = resolve_matches(&mut board, &landed, 4);
    assert!(board.is_empty(GridPosition::new(0, 0)));
    assert!(board.is_empty(GridPosition::new(1, 1)));
    // each piece is despawned exactly once
    let mut sorted = owners.clone();
    sorted.sort();
    assert_eq!(sorted, vec![1, 2, 3, 4]);
    assert!(dislodged.is_empty());
}

#[test]
fn cleared_pieces_make_room_and_dislodged_pieces_resettle() {
    // column 0 holds a red with a blue resting on it; a falling red will
    // complete a three-cell red row, clearing it and dislodging the blue
    let mut board = empty_board(3, 3);
    board.place_cell(GridPosition::new(0, 0), occupied(PieceColor::Red, 1));
    board.place_cell(GridPosition::new(0, 1), occupied(PieceColor::Red, 2));
    board.place_cell(GridPosition::new(1, 0), occupied(PieceColor::Blue, 3));
    let mut pieces = vec![PieceEntity {
        id: 3,
        color: PieceColor::Blue,
        world: (0, 1000),
        position: GridPosition::new(1, 0),
        fall: puyo_core::Fall { velocity: 1, state: FallState::Stopped },
    }];

    // a red piece falls down column 2 until it locks at the bottom
    let mut world = (2000, 2500);
    let mut position = GridPosition::new(2, 2);
    let mut fall = puyo_core::Fall::new(1);
    let mut landed = false;
    for _ in 0..10 {
        landed = fall_step_piece(
            &mut board, &mut world, &mut position, &mut fall, 500, 4, PieceColor::Red,
        );
        if landed {
            break;
        }
    }
    assert!(landed);
    assert_eq!(position, GridPosition::new(0, 2));

    // resolution clears the red row and detaches the blue above it
    let (owners, dislodged) = resolve_matches(&mut board, &vec![position], 3);
    let mut sorted = owners.clone();
    sorted.sort();
    assert_eq!(sorted, vec![1, 2, 4]);
    assert!(board.is_empty(GridPosition::new(0, 0)));
    assert!(board.is_empty(GridPosition::new(0, 1)));
    assert!(board.is_empty(GridPosition::new(0, 2)));
    assert!(board.is_empty(GridPosition::new(1, 0)));
    assert_eq!(dislodged.len(), 1);
    assert_eq!(dislodged[0].0, 3);

    // the blue resumes falling and settles onto the now-empty floor
    apply_dislodged(&mut pieces, &dislodged);
    assert!(matches!(pieces[0].fall.state, FallState::Normal));
    let mut p = pieces[0];
    let mut landed = false;
    for _ in 0..10 {
        landed = fall_step_piece(
            &mut board, &mut p.world, &mut p.position, &mut p.fall, 500, p.id, p.color,
        );
        if landed {
            break;
        }
    }
    assert!(landed);
    assert_eq!(p.position, GridPosition::new(0, 0));
    assert_eq!(
        board.cell_at(GridPosition::new(0, 0)),
        occupied(PieceColor::Blue, 3),
    );
}
