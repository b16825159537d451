use puyo_core::Board;
use puyo_core::Cell;
use puyo_core::GridPosition;
use puyo_core::Pair;
use puyo_core::PieceColor;

fn occupied(color: PieceColor, owner: u64) -> Cell {
    Cell::Occupied { color, owner }
}

fn empty_board(height: usize, width: usize, cell_size: i64, ox: i64, oy: i64) -> Board {
    let data = vec![Cell::Empty; width * height];
    Board::new(height, width, data, cell_size, ox, oy)
}

#[test]
fn test_index() {
    let data = vec![
        occupied(PieceColor::Red, 1),
        occupied(PieceColor::Red, 2),
        occupied(PieceColor::Red, 3),
        occupied(PieceColor::Red, 4),
    ];
    let grid = Board::new(2, 2, data, 1, 1, 1);

    assert!(grid.cell_at(GridPosition::new(0, 1)) == occupied(PieceColor::Red, 2));
    assert!(grid.cell_at(GridPosition::new(1, 0)) == occupied(PieceColor::Red, 3));
}

#[test]
fn test_move_right() {
    let grid = empty_board(2, 2, 1, 1, 1);
    let grid_position1 = GridPosition::new(0, 0);
    let grid_position2 = GridPosition::new(0, 1);

    assert!(grid.can_move_right(grid_position1));
    assert!(!grid.can_move_right(grid_position2));
}

#[test]
fn test_conn_comp() {
    let mut grid = empty_board(2, 2, 1, 1, 1);
    grid.place_cell(GridPosition::new(0, 0), occupied(PieceColor::Red, 0));
    grid.place_cell(GridPosition::new(0, 1), occupied(PieceColor::Red, 0));
    grid.place_cell(GridPosition::new(1, 0), occupied(PieceColor::Blue, 0));
    let initial_position = GridPosition::new(0, 0);

    let expected = vec![GridPosition::new(0, 0), GridPosition::new(0, 1)];

    let output = grid.find_conn_comp(initial_position);

    assert!(expected == output)
}

#[test]
fn conn_comp_of_empty_cell_is_empty() {
    let mut grid = empty_board(2, 2, 1, 1, 1);
    grid.place_cell(GridPosition::new(0, 0), occupied(PieceColor::Red, 0));
    let output = grid.find_conn_comp(GridPosition::new(1, 1));
    assert!(output.is_empty());
}

#[test]
fn round_trip_on_every_cell() {
    // a cell size and origin like the original's 32-unit cells anchored at
    // (-200, -300), in fine sub-units
    let board = empty_board(20, 10, 32_000, -200_000, -300_000);
    for row in 0..20 {
        for col in 0..10 {
            let p = GridPosition::new(row, col);
            let w = board.position_to_world(p);
            let q = board.world_to_position(w);
            assert_eq!(p, q);
        }
    }
}

#[test]
fn world_to_position_rounds_to_nearest() {
    let board = empty_board(4, 4, 1000, 0, 0);
    // just under half a cell above row 1 still rounds to row 1
    assert_eq!(board.world_to_position((0, 1499)), GridPosition::new(1, 0));
    // just under half a cell below row 1 rounds to row 1 as well
    assert_eq!(board.world_to_position((0, 501)), GridPosition::new(1, 0));
    // below the halfway line rounds down
    assert_eq!(board.world_to_position((0, 499)), GridPosition::new(0, 0));
    // negative coordinates round toward the nearest cell, not toward zero
    assert_eq!(board.world_to_position((0, -600)), GridPosition::new(-1, 0));
}

#[test]
fn boundary_cells_are_solid() {
    let board = empty_board(3, 2, 1000, 0, 0);
    // one step outside each edge is never empty
    assert!(!board.is_empty(GridPosition::new(-1, 0)));
    assert!(!board.is_empty(GridPosition::new(3, 0)));
    assert!(!board.is_empty(GridPosition::new(0, -1)));
    assert!(!board.is_empty(GridPosition::new(0, 2)));
    // while the inside of an empty board is empty
    assert!(board.is_empty(GridPosition::new(0, 0)));
    assert!(board.is_empty(GridPosition::new(2, 1)));
}

#[test]
fn pair_moves_rigidly_or_not_at_all() {
    let mut board = empty_board(3, 3, 1000, 0, 0);
    // the second piece (below the first) is blocked to the right
    board.place_cell(GridPosition::new(0, 2), occupied(PieceColor::Green, 7));
    let pair = Pair::new();
    let mut world = (1000, 1000);
    let mut position = GridPosition::new(1, 1);
    board.move_right_pair(pair, &mut world, &mut position);
    // neither member moved
    assert_eq!(position, GridPosition::new(1, 1));
    assert_eq!(world, (1000, 1000));

    // with the blocker gone the whole pair shifts one cell
    board.place_cell(GridPosition::new(0, 2), Cell::Empty);
    board.move_right_pair(pair, &mut world, &mut position);
    assert_eq!(position, GridPosition::new(1, 2));
    assert_eq!(world, (2000, 1000));

    // moving left twice: once back, then blocked by the wall for the second
    board.move_left_pair(pair, &mut world, &mut position);
    board.move_left_pair(pair, &mut world, &mut position);
    assert_eq!(position, GridPosition::new(1, 0));
    board.move_left_pair(pair, &mut world, &mut position);
    assert_eq!(position, GridPosition::new(1, 0));
    assert_eq!(world, (0, 1000));
}
