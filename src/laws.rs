//! Laws of the library that relate several of its functions, proved here.
use vstd::prelude::*;

use crate::cell_state::CellState;
use crate::game_state::{all_empty, construct_ensures, GameState};
use crate::heuristic::{lemma_sorted_by_score_ascending, ordered_positions, sorted_by_score, Scorer};
use crate::regions::label_count;
use crate::rules::{
    admits, attacks, block_for, board_ok, cells_after, col_of, dead_end, is_solution,
    lemma_place_keeps_state_ok,
    near, only_blocks, placeable, row_of, state_ok,
};

verus! {

/// A board built from a grid has as many regions as rows, and its region
/// masks are pairwise disjoint and together cover every cell.
pub proof fn lemma_regions_partition(
    g: Seq<Seq<u8>>,
    heuristic: Option<Scorer>,
    s: GameState,
)
    requires
        construct_ensures(g, heuristic, Ok(s)),
    ensures
        label_count(g) == g.len(),
        s.n() == g.len(),
        s.masks().len() == s.n(),
        forall|r1: int, r2: int, i: int|
            0 <= r1 < r2 < s.n() && 0 <= i < s.n() * s.n() ==> !(#[trigger] s.masks()[r1][i]
                && #[trigger] s.masks()[r2][i]),
        forall|i: int|
            0 <= i < s.n() * s.n() ==> s.labels()[i] < s.n() && #[trigger] s.masks()[s.labels()[i] as int][i],
{
}

/// A queen never goes on a cell that is not empty, nor into a region that
/// already holds one.
pub proof fn lemma_taken_not_placeable(
    n: int,
    colors: Seq<u8>,
    cells: Seq<CellState>,
    flags: Seq<bool>,
    t: int,
)
    requires
        cells[t] != CellState::Empty || flags[colors[t] as int],
    ensures
        !placeable(n, colors, cells, flags, t),
{
}

/// A legal move puts a queen on its cell and on no other; it blocks the
/// whole row and column of the cell, its touching cells and its region; the
/// only other change is the sweep, which turns empty cells into blocked ones.
pub proof fn lemma_place_blocks(
    n: int,
    colors: Seq<u8>,
    cells: Seq<CellState>,
    flags: Seq<bool>,
    t: int,
)
    requires
        board_ok(n, colors),
        state_ok(n, colors, cells, flags),
        0 <= t < n * n,
        placeable(n, colors, cells, flags, t),
    ensures
        ({
            let b = block_for(n, colors, cells, t);
            let a = cells_after(n, colors, cells, flags, t);
            &&& a.len() == cells.len()
            &&& a[t] == CellState::Queen
            &&& forall|j: int|
                0 <= j < n * n && j != t && (row_of(n, j) == row_of(n, t) || col_of(n, j) == col_of(n, t)
                    || (near(row_of(n, t), row_of(n, j)) && near(col_of(n, t), col_of(n, j)))
                    || colors[j] == colors[t]) ==> #[trigger] a[j] == CellState::Blocked
            &&& forall|j: int| 0 <= j < n * n ==> (#[trigger] a[j] == CellState::Queen <==> (j == t
                || cells[j] == CellState::Queen))
            &&& forall|j: int|
                0 <= j < n * n && j != t && !attacks(n, colors, t, j) ==> #[trigger] b[j] == cells[j]
            &&& only_blocks(b, a)
        }),
{
    let b = block_for(n, colors, cells, t);
    let a = cells_after(n, colors, cells, flags, t);
    lemma_place_keeps_state_ok(n, colors, cells, flags, t);
    crate::rules::lemma_place_progress(n, colors, cells, flags, t);
    assert(a[t] == CellState::Queen) by {
        assert(a[t] == b[t] || (b[t] == CellState::Empty && a[t] == CellState::Blocked));
    }
    assert forall|j: int|
        0 <= j < n * n && j != t && (row_of(n, j) == row_of(n, t) || col_of(n, j) == col_of(n, t)
            || (near(row_of(n, t), row_of(n, j)) && near(col_of(n, t), col_of(n, j))) || colors[j]
            == colors[t]) implies #[trigger] a[j] == CellState::Blocked by {
        assert(attacks(n, colors, t, j));
        assert(a[j] == b[j] || (b[j] == CellState::Empty && a[j] == CellState::Blocked));
    }
    assert forall|j: int| 0 <= j < n * n implies (#[trigger] a[j] == CellState::Queen <==> (j == t
        || cells[j] == CellState::Queen)) by {
        assert(a[j] == b[j] || (b[j] == CellState::Empty && a[j] == CellState::Blocked));
        if cells[j] == CellState::Queen && j != t && attacks(n, colors, t, j) {
            crate::rules::lemma_attacks_symmetric(n, colors, t, j);
            assert(cells[t] == CellState::Blocked);
        }
    }
}

/// Every placement can be reached from a node with nothing placed, so when
/// no solution can be reached from such a node the board has none.
pub proof fn lemma_dead_start_has_no_solution(n: int, colors: Seq<u8>, q: Seq<bool>)
    requires
        dead_end(n, colors, all_empty(n * n)),
    ensures
        !is_solution(n, colors, q),
{
    if is_solution(n, colors, q) {
        assert(admits(all_empty(n * n), q));
    }
}

/// A scoring rule orders moves lowest score first: the moves of a node with
/// a rule are the positions of its scored candidates, in ascending order of score.
pub proof fn lemma_moves_ascending(scored: Seq<((usize, usize), usize)>)
    ensures
        ordered_positions(scored).len() == scored.len(),
        forall|i: int|
            0 <= i < scored.len() ==> ordered_positions(scored)[i] == (#[trigger] sorted_by_score(
                scored,
            )[i]).0,
        forall|i: int, j: int|
            0 <= i < j < scored.len() ==> #[trigger] sorted_by_score(scored)[i].1
                <= #[trigger] sorted_by_score(scored)[j].1,
{
    crate::heuristic::lemma_sorted_by_score_len(scored);
    lemma_sorted_by_score_ascending(scored);
}

} // verus!
