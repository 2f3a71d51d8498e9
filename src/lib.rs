//! A solver for region-constrained queen placement puzzles.
//!
//! An N×N grid is split into N labelled regions. A solution places one queen in
//! every row, every column and every region, with no two queens touching, not
//! even diagonally. The engine searches depth first over immutable game states,
//! prunes with a one-step lookahead, and remembers the cell vectors it has seen.
use vstd::prelude::*;

pub mod cell_state;
pub mod rules;
pub mod errors;
pub mod regions;
pub mod digest;
pub mod heuristic;
pub mod game_state;
pub mod search;
pub mod laws;
pub mod benchmark;
pub mod levels;
pub mod samples;

pub use cell_state::CellState;
pub use benchmark::{BenchmarkResult, Heuristic};
pub use errors::GameStateError;
pub use game_state::{compute_hash, GameState, MAX_BOARD_SIZE};
pub use heuristic::{smallest_region_by_empty_cells, smallest_region_first, HeuristicContext, Scorer};
pub use levels::{sort_by_id, LevelData, LevelLoader, LevelSource};
pub use regions::normalize_colors;
pub use samples::{
    puzzle_11x11, puzzle_11x11_multiple_solns, puzzle_13x13, puzzle_3x3_nosol, puzzle_8x8,
    puzzle_8x8_sol,
};
pub use search::{depth_first_search, search_recording, VisitedSet};
