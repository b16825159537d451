//! Simulation core of a falling-block matching puzzle.
//!
//! A rectangular board of colored cells; pairs of pieces descend, are moved
//! and rotated against the board's occupancy, lock onto the stack, and are
//! cleared in groups once same-colored cells form a connected region of
//! sufficient size, after which dislodged cells resume falling.
//!
//! World coordinates are integers in fine sub-units, time deltas are integer
//! milliseconds: all of the simulation arithmetic is exact.

mod board;
mod conn;
mod fall;
mod grid;
mod movement;
mod piece;
mod resolve;
mod sim;

pub use board::Board;
pub use board::Cell;
pub use board::lemma_boundary_not_empty;
pub use board::lemma_pair_rigidity;
pub use board::lemma_world_round_trip;
pub use board::round_to_cell;
pub use board::spec_cell_owner;
pub use board::spec_move_left_pair;
pub use board::spec_move_right_pair;
pub use conn::colored_at;
pub use conn::connected;
pub use conn::is_color_path;
pub use conn::lemma_connected_refl;
pub use conn::lemma_connected_step;
pub use fall::Fall;
pub use fall::FallState;
pub use fall::fall_step_pair;
pub use fall::fall_step_piece;
pub use fall::lemma_fall_velocity;
pub use fall::spec_displacement;
pub use fall::spec_pair_landing;
pub use fall::spec_piece_landing;
pub use fall::spec_velocity;
pub use grid::GridPosition;
pub use grid::adjacent;
pub use grid::get_adjacent;
pub use movement::DASTimer;
pub use movement::Direction;
pub use movement::InputState;
pub use movement::das_command;
pub use movement::das_next;
pub use movement::move_pair_step;
pub use movement::rotate_pair_step;
pub use movement::spec_soft_drop;
pub use piece::Bag;
pub use piece::Pair;
pub use piece::PairOrientation;
pub use piece::Piece;
pub use piece::PieceColor;
pub use piece::PieceOrder;
pub use piece::color_of_draw;
pub use piece::lemma_rotation_cycle;
pub use piece::second_col_delta;
pub use piece::second_row_delta;
pub use piece::turned_clockwise;
pub use resolve::clear_components;
pub use resolve::drop_above;
pub use resolve::resolve_matches;
pub use resolve::spec_cleared_member;
pub use resolve::spec_cleared_upto;
pub use resolve::spec_comp_matches;
pub use resolve::spec_component_size;
pub use resolve::spec_in_component;
pub use resolve::spec_listed_at;
pub use resolve::spec_owner_of_cleared;
pub use resolve::spec_owner_of_qualifying;
pub use resolve::spec_qualifying;
pub use resolve::spec_seed_color;
pub use resolve::spec_swept;
pub use sim::ActivePair;
pub use sim::GameState;
pub use sim::PairLandedEvent;
pub use sim::PieceEntity;
pub use sim::PieceLandedEvent;
pub use sim::SimConfig;
pub use sim::apply_dislodged;
pub use sim::decompose_pair;
pub use sim::remove_cleared;
pub use sim::spawn_pair;
pub use sim::spec_id_listed;
pub use sim::spec_owner_listed;
