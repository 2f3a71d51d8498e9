use queen_sweep::{
    compute_hash, depth_first_search, normalize_colors, puzzle_11x11, puzzle_11x11_multiple_solns,
    puzzle_13x13, puzzle_3x3_nosol, puzzle_8x8, puzzle_8x8_sol, search_recording,
    smallest_region_by_empty_cells, smallest_region_first, CellState, GameState, GameStateError,
    HeuristicContext, Scorer,
};

fn initial(grid: Vec<Vec<u8>>, scorer: Option<Scorer>) -> GameState {
    GameState::from_color_regions(grid, scorer).unwrap()
}

fn queens(state: &GameState) -> Vec<(usize, usize)> {
    state.queen_positions()
}

fn assert_valid_solution(state: &GameState) {
    let n = state.size();
    let qs = queens(state);
    assert_eq!(qs.len(), n);
    for row in 0..n {
        assert_eq!(qs.iter().filter(|p| p.0 == row).count(), 1);
    }
    for col in 0..n {
        assert_eq!(qs.iter().filter(|p| p.1 == col).count(), 1);
    }
    for region in 0..n {
        let count = qs
            .iter()
            .filter(|p| state.colors()[p.0 * n + p.1] as usize == region)
            .count();
        assert_eq!(count, 1);
    }
    for (i, a) in qs.iter().enumerate() {
        for b in qs.iter().skip(i + 1) {
            let dr = (a.0 as i64 - b.0 as i64).abs();
            let dc = (a.1 as i64 - b.1 as i64).abs();
            assert!(dr > 1 || dc > 1);
        }
    }
    assert!(state.is_goal_state());
}

#[test]
fn construct_counts_one_region_per_row() {
    let state = initial(puzzle_8x8_sol(), None);
    let n = state.size();
    assert_eq!(n, 8);
    assert_eq!(state.colors().len(), 64);
    for region in 0..n {
        assert!(state.colors().iter().any(|&c| c as usize == region));
    }
    assert!(state.colors().iter().all(|&c| (c as usize) < n));
}

#[test]
fn construct_renames_labels_by_rank() {
    let state = initial(vec![vec![5, 5, 9], vec![9, 9, 20], vec![20, 20, 20]], None);
    assert_eq!(state.colors(), &[0, 0, 1, 1, 1, 2, 2, 2, 2]);
}

#[test]
fn normalize_keeps_shape() {
    let grid = vec![vec![7, 3], vec![3, 200]];
    assert_eq!(normalize_colors(grid), vec![vec![1, 0], vec![0, 2]]);
}

#[test]
fn construct_reports_error_fields() {
    let ragged = GameState::try_from(vec![vec![0, 1, 2], vec![0, 1]]);
    assert_eq!(ragged.unwrap_err(), GameStateError::NonSquareBoard { rows: 2, cols: 3 });
    let too_large = GameState::try_from(vec![vec![0u8; 256]; 256]);
    assert_eq!(too_large.unwrap_err(), GameStateError::BoardTooLarge { size: 256, max_size: 255 });
    let few_regions = GameState::try_from(vec![vec![4, 4], vec![4, 4]]);
    assert_eq!(few_regions.unwrap_err(), GameStateError::RegionCountMismatch { expected: 2, found: 1 });
    let single = GameState::try_from(vec![vec![9]]).unwrap();
    assert_eq!(single.size(), 1);
    assert_eq!(single.colors(), &[0]);
}

#[test]
fn error_messages() {
    assert_eq!(GameStateError::InexistentBoard.message(), "Board size must be greater than 0");
    assert_eq!(
        GameStateError::NonSquareBoard { rows: 2, cols: 3 }.message(),
        "Board is not square: 2 rows x 3 columns"
    );
    assert_eq!(
        GameStateError::InvalidCellCount { expected: 64, found: 10 }.message(),
        "Invalid cell count: expected 64, found 10"
    );
    assert_eq!(
        GameStateError::BoardTooLarge { size: 256, max_size: 255 }.message(),
        "Board size 256 exceeds maximum supported size 255"
    );
    assert_eq!(
        GameStateError::RegionCountMismatch { expected: 2, found: 1 }.message(),
        "Board has 1 regions, expected 2"
    );
}

#[test]
fn can_place_refuses_taken_cells_and_regions() {
    let state = initial(puzzle_8x8_sol(), None).place_queen(1, 5);
    // the queen's own cell and a blocked cell
    assert!(!state.can_place_queen(state.states(), state.colors_with_queens(), 1, 5));
    assert!(!state.can_place_queen(state.states(), state.colors_with_queens(), 1, 0));
    // an empty cell, refused once its region is marked as holding a queen
    let empty = initial(puzzle_8x8_sol(), None);
    let mut flags = empty.colors_with_queens().to_vec();
    assert!(empty.can_place_queen(empty.states(), &flags, 7, 7));
    flags[empty.colors()[7 * 8 + 7] as usize] = true;
    assert!(!empty.can_place_queen(empty.states(), &flags, 7, 7));
}

#[test]
fn place_queen_blocks_row_column_neighbours_region() {
    let before = initial(puzzle_8x8_sol(), None);
    let after = before.place_queen(1, 5);
    let n = 8;
    let cells = after.states();
    assert_eq!(cells[1 * n + 5], CellState::Queen);
    for i in 0..n {
        if i != 5 {
            assert_eq!(cells[1 * n + i], CellState::Blocked);
        }
        if i != 1 {
            assert_eq!(cells[i * n + 5], CellState::Blocked);
        }
    }
    for (r, c) in [(0, 4), (0, 6), (2, 4), (2, 6)] {
        assert_eq!(cells[r * n + c], CellState::Blocked);
    }
    let region = before.colors()[1 * n + 5];
    for j in 0..n * n {
        if before.colors()[j] == region && j != 1 * n + 5 {
            assert_eq!(cells[j], CellState::Blocked);
        }
    }
    assert_eq!(cells.iter().filter(|&&c| c == CellState::Queen).count(), 1);
    assert!(after.colors_with_queens()[region as usize]);
    // the sweep also blocks cells outside the queen's lines and region
    assert_eq!(cells[4 * n + 7], CellState::Blocked);
    assert_eq!(cells[0 * n + 0], CellState::Empty);
}

#[test]
fn goal_only_when_every_region_has_a_queen() {
    let state = initial(puzzle_8x8_sol(), None);
    assert!(!state.is_goal_state());
    let partial = state.place_queen(1, 5);
    assert!(!partial.is_goal_state());
    let (solution, _) = depth_first_search(partial);
    assert!(solution.unwrap().is_goal_state());
}

#[test]
fn search_never_expands_a_cell_vector_twice() {
    let state = initial(puzzle_8x8_sol(), None);
    let start = state.states().to_vec();
    let (solution, seen) = search_recording(state);
    assert!(solution.is_some());
    assert!(seen.len() >= 1);
    assert_eq!(seen.entry(0), &start[..]);
    for i in 0..seen.len() {
        for j in (i + 1)..seen.len() {
            assert_ne!(seen.entry(i), seen.entry(j));
        }
    }
    let (_, count) = depth_first_search(initial(puzzle_8x8_sol(), None));
    assert_eq!(count, seen.len());
}

#[test]
fn scores_are_pure_and_exact() {
    let state = initial(puzzle_3x3_nosol(), None);
    let positions = vec![(0, 0), (1, 0), (2, 2)];
    let ctx = HeuristicContext {
        positions: &positions,
        size: state.size(),
        states: state.states(),
        colors_with_queens: state.colors_with_queens(),
        colors: state.colors(),
        color_masks: &[],
    };
    let first = smallest_region_first(&ctx);
    assert_eq!(first, smallest_region_first(&ctx));
    assert_eq!(first, vec![((0, 0), 2), ((1, 0), 3), ((2, 2), 4)]);
    let empty = smallest_region_by_empty_cells(&ctx);
    assert_eq!(empty, smallest_region_by_empty_cells(&ctx));
    assert_eq!(empty, vec![((0, 0), 2), ((1, 0), 3), ((2, 2), 4)]);
    assert_eq!(Scorer::SmallestRegionFirst.score(&ctx), first);

    let placed = initial(puzzle_8x8_sol(), None).place_queen(1, 5);
    let moves = vec![(0, 0), (5, 2), (6, 6)];
    let ctx = HeuristicContext {
        positions: &moves,
        size: placed.size(),
        states: placed.states(),
        colors_with_queens: placed.colors_with_queens(),
        colors: placed.colors(),
        color_masks: &[],
    };
    let scored = smallest_region_by_empty_cells(&ctx);
    assert_eq!(scored, smallest_region_by_empty_cells(&ctx));
    assert!(scored.iter().all(|s| s.1 >= 1));
}

#[test]
fn moves_follow_the_scoring_rule() {
    let plain = initial(puzzle_3x3_nosol(), None);
    let scored = initial(puzzle_3x3_nosol(), Some(Scorer::SmallestRegionFirst));
    let plain_moves = plain.valid_placements();
    let scored_moves = scored.valid_placements();
    assert_eq!(plain_moves.len(), scored_moves.len());
    for m in &plain_moves {
        assert!(scored_moves.contains(m));
    }
    let n = 3;
    let size_of = |p: &(usize, usize)| {
        let region = scored.colors()[p.0 * n + p.1];
        scored.colors().iter().filter(|&&c| c == region).count()
    };
    for w in scored_moves.windows(2) {
        assert!(size_of(&w[0]) <= size_of(&w[1]));
    }
}

#[test]
fn fixture_3x3_has_no_solution() {
    for scorer in [None, Some(Scorer::SmallestRegionFirst), Some(Scorer::SmallestRegionByEmptyCells)] {
        let (solution, count) = depth_first_search(initial(puzzle_3x3_nosol(), scorer));
        assert!(solution.is_none());
        assert!(count >= 1);
    }
    let (_, count) = depth_first_search(initial(puzzle_3x3_nosol(), None));
    assert_eq!(count, 4);
}

#[test]
fn fixture_8x8_solution_is_valid() {
    for scorer in [None, Some(Scorer::SmallestRegionFirst), Some(Scorer::SmallestRegionByEmptyCells)] {
        let (solution, _) = depth_first_search(initial(puzzle_8x8_sol(), scorer));
        let solution = solution.unwrap();
        assert_valid_solution(&solution);
        assert_eq!(
            queens(&solution),
            vec![(0, 3), (1, 5), (2, 1), (3, 7), (4, 0), (5, 2), (6, 6), (7, 4)]
        );
    }
    let (_, count) =
        depth_first_search(initial(puzzle_8x8_sol(), Some(Scorer::SmallestRegionByEmptyCells)));
    assert_eq!(count, 9);
}

#[test]
fn sample_boards_solve() {
    assert_eq!(puzzle_8x8(), puzzle_8x8_sol());
    for grid in [puzzle_11x11(), puzzle_13x13(), puzzle_11x11_multiple_solns()] {
        let (solution, _) =
            depth_first_search(initial(grid, Some(Scorer::SmallestRegionByEmptyCells)));
        assert_valid_solution(&solution.unwrap());
    }
}

#[test]
fn cell_codes_round_trip() {
    for state in [CellState::Empty, CellState::Blocked, CellState::Queen] {
        assert_eq!(CellState::from_code(state.code()), Some(state));
        assert_eq!(u8::from(state), state.code());
    }
    assert_eq!(CellState::Queen.code(), 2);
    assert_eq!(CellState::from_code(3), None);
}

#[test]
fn state_codes_by_row() {
    let state = initial(puzzle_3x3_nosol(), None).place_queen(0, 0);
    let codes = state.state_codes();
    assert_eq!(codes.len(), 9);
    assert_eq!(codes[0], 2);
    let rows = state.state_rows();
    assert_eq!(rows.len(), 3);
    assert_eq!(rows.concat(), codes);
}

#[test]
fn hash_depends_on_cells() {
    let a = initial(puzzle_8x8_sol(), None);
    let b = initial(puzzle_8x8_sol(), Some(Scorer::SmallestRegionFirst));
    assert_eq!(a.hash(), b.hash());
    assert_eq!(a.hash(), compute_hash(a.states()));
    assert!(a == b);
    let c = a.place_queen(1, 5);
    assert_ne!(a.hash(), c.hash());
    assert!(a != c);
    assert_eq!(c.hash(), compute_hash(c.states()));
}
