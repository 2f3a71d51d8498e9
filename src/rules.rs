//! The rules of the puzzle, stated over plain sequences.
//!
//! A board of side `n` has `n * n` cells, numbered row by row: cell `i` stands in
//! row `i / n` and column `i % n`. `colors[i]` is the region of cell `i`,
//! `cells[i]` its status in a search node, and `flags[r]` tells whether region
//! `r` holds a queen.
use vstd::prelude::*;
use vstd::arithmetic::div_mod::{lemma_fundamental_div_mod, lemma_fundamental_div_mod_converse};
use vstd::relations::injective_on;
use vstd::set_lib::{lemma_int_range, lemma_map_size, lemma_subset_equality, set_int_range};

use crate::cell_state::CellState;

verus! {

pub open spec fn row_of(n: int, i: int) -> int {
    i / n
}

pub open spec fn col_of(n: int, i: int) -> int {
    i % n
}

/// Two row (or column) numbers at most one apart.
pub open spec fn near(a: int, b: int) -> bool {
    a - 1 <= b <= a + 1
}

/// Whether a queen on cell `t` rules out cell `j`: same row, same column,
/// touching (diagonals included), or same region.
pub open spec fn attacks(n: int, colors: Seq<u8>, t: int, j: int) -> bool {
    ||| row_of(n, t) == row_of(n, j)
    ||| col_of(n, t) == col_of(n, j)
    ||| (near(row_of(n, t), row_of(n, j)) && near(col_of(n, t), col_of(n, j)))
    ||| colors[t] == colors[j]
}

/// A side length and a region labelling of a square board: every label is
/// below the side length.
pub open spec fn board_ok(n: int, colors: Seq<u8>) -> bool {
    &&& 1 <= n <= 255
    &&& colors.len() == n * n
    &&& forall|i: int| 0 <= i < n * n ==> #[trigger] colors[i] < n
}

/// Whether region `reg` holds a queen.
pub open spec fn has_queen(colors: Seq<u8>, cells: Seq<CellState>, reg: int) -> bool {
    exists|j: int| 0 <= j < cells.len() && cells[j] == CellState::Queen && colors[j] == reg
}

/// Whether region `reg` holds exactly one queen.
pub open spec fn has_one_queen(colors: Seq<u8>, cells: Seq<CellState>, reg: int) -> bool {
    exists|j: int|
        0 <= j < cells.len() && cells[j] == CellState::Queen && colors[j] == reg && forall|k: int|
            0 <= k < cells.len() && cells[k] == CellState::Queen && colors[k] == reg ==> k == j
}

/// What every search node satisfies: the right lengths, a flag for exactly the
/// regions that hold a queen, and every cell that a queen rules out blocked.
pub open spec fn state_ok(n: int, colors: Seq<u8>, cells: Seq<CellState>, flags: Seq<bool>) -> bool {
    &&& cells.len() == n * n
    &&& flags.len() == n
    &&& forall|reg: int| 0 <= reg < n ==> (#[trigger] flags[reg] <==> has_queen(colors, cells, reg))
    &&& forall|q: int, j: int|
        0 <= q < n * n && 0 <= j < n * n && q != j && #[trigger] cells[q] == CellState::Queen
            && #[trigger] attacks(n, colors, q, j) ==> cells[j] == CellState::Blocked
}

/// Whether some cell of region `reg` is empty and not ruled out by a queen on `t`.
pub open spec fn region_open_after(
    n: int,
    colors: Seq<u8>,
    cells: Seq<CellState>,
    t: int,
    reg: int,
) -> bool {
    exists|j: int|
        0 <= j < n * n && cells[j] == CellState::Empty && colors[j] == reg && !attacks(
            n,
            colors,
            t,
            j,
        )
}

/// Whether a queen may go on cell `t`: the cell is empty, its region holds no
/// queen, and every other region without a queen keeps an empty cell that the
/// new queen does not rule out.
pub open spec fn placeable(
    n: int,
    colors: Seq<u8>,
    cells: Seq<CellState>,
    flags: Seq<bool>,
    t: int,
) -> bool {
    &&& cells[t] == CellState::Empty
    &&& !flags[colors[t] as int]
    &&& forall|reg: int|
        0 <= reg < n && reg != colors[t] && !flags[reg] ==> #[trigger] region_open_after(
            n,
            colors,
            cells,
            t,
            reg,
        )
}

/// The cells after a queen goes on `t`: `t` holds the queen and every cell it
/// rules out is blocked; the rest is unchanged.
pub open spec fn block_for(n: int, colors: Seq<u8>, cells: Seq<CellState>, t: int) -> Seq<
    CellState,
> {
    Seq::new(
        cells.len(),
        |j: int|
            if j == t {
                CellState::Queen
            } else if attacks(n, colors, t, j) {
                CellState::Blocked
            } else {
                cells[j]
            },
    )
}

/// One step of the sweep that follows a placement: cell `i` is blocked when it
/// is empty and a queen may no longer go there.
pub open spec fn sweep_step(
    n: int,
    colors: Seq<u8>,
    cells: Seq<CellState>,
    flags: Seq<bool>,
    i: int,
) -> Seq<CellState> {
    if cells[i] == CellState::Empty && !placeable(n, colors, cells, flags, i) {
        cells.update(i, CellState::Blocked)
    } else {
        cells
    }
}

/// The sweep over cells `i..`, in increasing order, each step seeing the
/// blocks of the steps before it.
pub open spec fn sweep(n: int, colors: Seq<u8>, cells: Seq<CellState>, flags: Seq<bool>, i: nat) -> Seq<
    CellState,
>
    decreases cells.len() - i,
{
    if i >= cells.len() {
        cells
    } else {
        sweep(n, colors, sweep_step(n, colors, cells, flags, i as int), flags, i + 1)
    }
}

/// The region flags after a queen goes on `t`.
pub open spec fn flags_after(colors: Seq<u8>, flags: Seq<bool>, t: int) -> Seq<bool> {
    flags.update(colors[t] as int, true)
}

/// The cells after a queen goes on `t`, the sweep included.
pub open spec fn cells_after(n: int, colors: Seq<u8>, cells: Seq<CellState>, flags: Seq<bool>, t: int) -> Seq<
    CellState,
> {
    sweep(n, colors, block_for(n, colors, cells, t), flags_after(colors, flags, t), 0)
}

/// The cells that hold a queen.
pub open spec fn queens_of(cells: Seq<CellState>) -> Seq<bool> {
    cells.map_values(|c: CellState| c == CellState::Queen)
}

/// Whether the placement `q` puts a queen in region `reg`.
pub open spec fn region_covered(n: int, colors: Seq<u8>, q: Seq<bool>, reg: int) -> bool {
    exists|j: int| 0 <= j < n * n && q[j] && colors[j] == reg
}

/// Whether the placement `q` puts a queen in row `row`.
pub open spec fn row_covered(n: int, q: Seq<bool>, row: int) -> bool {
    exists|j: int| 0 <= j < n * n && q[j] && row_of(n, j) == row
}

/// Whether the placement `q` puts a queen in column `col`.
pub open spec fn col_covered(n: int, q: Seq<bool>, col: int) -> bool {
    exists|j: int| 0 <= j < n * n && q[j] && col_of(n, j) == col
}

/// A solution: one queen in every region, every row and every column, and no
/// queen that rules out another.
pub open spec fn is_solution(n: int, colors: Seq<u8>, q: Seq<bool>) -> bool {
    &&& q.len() == n * n
    &&& forall|reg: int| 0 <= reg < n ==> #[trigger] region_covered(n, colors, q, reg)
    &&& forall|row: int| 0 <= row < n ==> #[trigger] row_covered(n, q, row)
    &&& forall|col: int| 0 <= col < n ==> #[trigger] col_covered(n, q, col)
    &&& forall|i: int, j: int|
        0 <= i < n * n && 0 <= j < n * n && i != j && #[trigger] q[i] && #[trigger] q[j] ==> !attacks(
            n,
            colors,
            i,
            j,
        )
}

/// Whether the placement `q` can still be reached from `cells`: every queen of
/// `cells` is in `q`, and no cell of `q` is blocked.
pub open spec fn admits(cells: Seq<CellState>, q: Seq<bool>) -> bool {
    forall|j: int|
        0 <= j < cells.len() ==> (#[trigger] cells[j] == CellState::Queen ==> q[j]) && (q[j]
            ==> cells[j] != CellState::Blocked)
}

/// Whether no solution can be reached from `cells`.
pub open spec fn dead_end(n: int, colors: Seq<u8>, cells: Seq<CellState>) -> bool {
    forall|q: Seq<bool>| #[trigger] is_solution(n, colors, q) ==> !admits(cells, q)
}

/// The number of empty cells.
pub open spec fn empty_count(cells: Seq<CellState>) -> nat
    decreases cells.len(),
{
    if cells.len() == 0 {
        0
    } else {
        empty_count(cells.drop_last()) + if cells.last() == CellState::Empty {
            1nat
        } else {
            0nat
        }
    }
}

/// A board of side at most 255 has at most 65025 cells.
pub proof fn lemma_cells_bound(n: int)
    requires
        0 <= n <= 255,
    ensures
        n * n <= 65025,
{
    assert(n * n <= 255 * 255) by (nonlinear_arith)
        requires
            0 <= n <= 255,
    ;
}

/// Cell `r * n + c` lies in row `r` and column `c`.
pub proof fn lemma_cell_index(n: int, r: int, c: int)
    requires
        0 <= r < n,
        0 <= c < n,
    ensures
        0 <= r * n + c < n * n,
        row_of(n, r * n + c) == r,
        col_of(n, r * n + c) == c,
{
    lemma_fundamental_div_mod_converse(r * n + c, n, r, c);
    assert(r * n + c < n * n) by (nonlinear_arith)
        requires
            0 <= r < n,
            0 <= c < n,
    ;
    assert(0 <= r * n) by (nonlinear_arith)
        requires
            0 <= r,
            0 <= n,
    ;
}

/// Every cell has its row and column on the board.
pub proof fn lemma_cell_position(n: int, j: int)
    requires
        0 < n,
        0 <= j < n * n,
    ensures
        0 <= row_of(n, j) < n,
        0 <= col_of(n, j) < n,
        j == row_of(n, j) * n + col_of(n, j),
{
    lemma_fundamental_div_mod(j, n);
    let r = j / n;
    let c = j % n;
    assert(0 <= c < n);
    assert(j == n * r + c);
    assert(0 <= r < n) by (nonlinear_arith)
        requires
            j == n * r + c,
            0 <= c < n,
            0 <= j < n * n,
            n > 0,
    ;
    assert(n * r == r * n) by (nonlinear_arith);
}

/// A queen on `t` rules out `j` exactly when a queen on `j` rules out `t`.
pub proof fn lemma_attacks_symmetric(n: int, colors: Seq<u8>, t: int, j: int)
    ensures
        attacks(n, colors, t, j) == attacks(n, colors, j, t),
{
}

/// Whether `after` differs from `before` only by empty cells that became blocked.
pub open spec fn only_blocks(before: Seq<CellState>, after: Seq<CellState>) -> bool {
    &&& after.len() == before.len()
    &&& forall|j: int|
        0 <= j < before.len() ==> #[trigger] after[j] == before[j] || (before[j] == CellState::Empty
            && after[j] == CellState::Blocked)
}

pub proof fn lemma_only_blocks_transitive(a: Seq<CellState>, b: Seq<CellState>, c: Seq<CellState>)
    requires
        only_blocks(a, b),
        only_blocks(b, c),
    ensures
        only_blocks(a, c),
{
    assert forall|j: int| 0 <= j < a.len() implies #[trigger] c[j] == a[j] || (a[j]
        == CellState::Empty && c[j] == CellState::Blocked) by {
        assert(b[j] == a[j] || (a[j] == CellState::Empty && b[j] == CellState::Blocked));
        assert(c[j] == b[j] || (b[j] == CellState::Empty && c[j] == CellState::Blocked));
    }
}

/// The sweep only blocks empty cells.
pub proof fn lemma_sweep_only_blocks(
    n: int,
    colors: Seq<u8>,
    cells: Seq<CellState>,
    flags: Seq<bool>,
    i: nat,
)
    ensures
        only_blocks(cells, sweep(n, colors, cells, flags, i)),
    decreases cells.len() - i,
{
    if i < cells.len() {
        let next = sweep_step(n, colors, cells, flags, i as int);
        assert(only_blocks(cells, next));
        lemma_sweep_only_blocks(n, colors, next, flags, i + 1);
        lemma_only_blocks_transitive(cells, next, sweep(n, colors, next, flags, i + 1));
    }
}

/// Blocking empty cells keeps the queens, hence the flags, and keeps every
/// ruled-out cell blocked.
pub proof fn lemma_only_blocks_keeps_state_ok(
    n: int,
    colors: Seq<u8>,
    before: Seq<CellState>,
    after: Seq<CellState>,
    flags: Seq<bool>,
)
    requires
        state_ok(n, colors, before, flags),
        only_blocks(before, after),
    ensures
        state_ok(n, colors, after, flags),
        forall|j: int| 0 <= j < after.len() ==> (#[trigger] after[j] == CellState::Queen <==> before[j] == CellState::Queen),
{
    assert forall|j: int| 0 <= j < after.len() implies (#[trigger] after[j] == CellState::Queen
        <==> before[j] == CellState::Queen) by {
        assert(after[j] == before[j] || (before[j] == CellState::Empty && after[j]
            == CellState::Blocked));
    }
    assert forall|reg: int| 0 <= reg < n implies (#[trigger] flags[reg] <==> has_queen(
        colors,
        after,
        reg,
    )) by {
        assert(flags[reg] <==> has_queen(colors, before, reg));
        if has_queen(colors, before, reg) {
            let j = choose|j: int|
                0 <= j < before.len() && before[j] == CellState::Queen && colors[j] == reg;
            assert(after[j] == CellState::Queen);
        }
        if has_queen(colors, after, reg) {
            let j = choose|j: int|
                0 <= j < after.len() && after[j] == CellState::Queen && colors[j] == reg;
            assert(before[j] == CellState::Queen);
        }
    }
    assert forall|q: int, j: int|
        0 <= q < n * n && 0 <= j < n * n && q != j && #[trigger] after[q] == CellState::Queen
            && #[trigger] attacks(n, colors, q, j) implies after[j] == CellState::Blocked by {
        assert(before[q] == CellState::Queen);
        assert(before[j] == CellState::Blocked);
        assert(after[j] == before[j] || (before[j] == CellState::Empty && after[j]
            == CellState::Blocked));
    }
}

/// A queen on an empty cell keeps every node invariant.
pub proof fn lemma_place_keeps_state_ok(
    n: int,
    colors: Seq<u8>,
    cells: Seq<CellState>,
    flags: Seq<bool>,
    t: int,
)
    requires
        board_ok(n, colors),
        state_ok(n, colors, cells, flags),
        0 <= t < n * n,
        cells[t] == CellState::Empty,
    ensures
        state_ok(n, colors, block_for(n, colors, cells, t), flags_after(colors, flags, t)),
        state_ok(n, colors, cells_after(n, colors, cells, flags, t), flags_after(colors, flags, t)),
        only_blocks(block_for(n, colors, cells, t), cells_after(n, colors, cells, flags, t)),
{
    let b = block_for(n, colors, cells, t);
    let f = flags_after(colors, flags, t);
    // No queen rules out `t`, since `t` is empty; so every queen stays.
    assert forall|q: int| 0 <= q < n * n && cells[q] == CellState::Queen implies #[trigger] b[q]
        == CellState::Queen by {
        if q != t && attacks(n, colors, t, q) {
            lemma_attacks_symmetric(n, colors, t, q);
            assert(cells[t] == CellState::Blocked);
        }
    }
    assert forall|q: int| 0 <= q < n * n && #[trigger] b[q] == CellState::Queen implies q == t || (
    cells[q] == CellState::Queen && !attacks(n, colors, t, q)) by {}
    assert forall|reg: int| 0 <= reg < n implies (#[trigger] f[reg] <==> has_queen(colors, b, reg)) by {
        assert(flags[reg] <==> has_queen(colors, cells, reg));
        if has_queen(colors, cells, reg) {
            let j = choose|j: int|
                0 <= j < cells.len() && cells[j] == CellState::Queen && colors[j] == reg;
            assert(b[j] == CellState::Queen);
        }
        if reg == colors[t] {
            assert(b[t] == CellState::Queen);
        }
        if has_queen(colors, b, reg) {
            let j = choose|j: int| 0 <= j < b.len() && b[j] == CellState::Queen && colors[j] == reg;
            if j != t {
                assert(cells[j] == CellState::Queen);
            }
        }
    }
    assert forall|q: int, j: int|
        0 <= q < n * n && 0 <= j < n * n && q != j && #[trigger] b[q] == CellState::Queen
            && #[trigger] attacks(n, colors, q, j) implies b[j] == CellState::Blocked by {
        if q != t {
            assert(cells[q] == CellState::Queen);
            assert(cells[j] == CellState::Blocked);
        }
    }
    assert(state_ok(n, colors, b, f));
    lemma_sweep_only_blocks(n, colors, b, f, 0);
    lemma_only_blocks_keeps_state_ok(n, colors, b, cells_after(n, colors, cells, flags, t), f);
}

/// In a search node, a region is flagged exactly when it holds exactly one queen.
pub proof fn lemma_flag_means_one_queen(n: int, colors: Seq<u8>, cells: Seq<CellState>, flags: Seq<bool>, reg: int)
    requires
        state_ok(n, colors, cells, flags),
        0 <= reg < n,
    ensures
        flags[reg] <==> has_one_queen(colors, cells, reg),
{
    if flags[reg] {
        let j = choose|j: int| 0 <= j < cells.len() && cells[j] == CellState::Queen && colors[j] == reg;
        assert forall|k: int|
            0 <= k < cells.len() && cells[k] == CellState::Queen && colors[k] == reg implies k == j by {
            if k != j {
                assert(attacks(n, colors, j, k));
                assert(cells[k] == CellState::Blocked);
            }
        }
    }
    if has_one_queen(colors, cells, reg) {
        assert(has_queen(colors, cells, reg));
    }
}

/// The line (row or column) of a cell.
pub open spec fn line_of(n: int, by_row: bool, j: int) -> int {
    if by_row {
        row_of(n, j)
    } else {
        col_of(n, j)
    }
}

/// With a queen in each of the `n` regions and no queen ruling out another,
/// the queens' rows (or columns) are `n` distinct lines: all of them.
pub proof fn lemma_regions_cover_lines(n: int, colors: Seq<u8>, q: Seq<bool>, by_row: bool, line: int)
    requires
        board_ok(n, colors),
        q.len() == n * n,
        forall|reg: int| 0 <= reg < n ==> #[trigger] region_covered(n, colors, q, reg),
        forall|i: int, j: int|
            0 <= i < n * n && 0 <= j < n * n && i != j && #[trigger] q[i] && #[trigger] q[j] ==> !attacks(
                n,
                colors,
                i,
                j,
            ),
        0 <= line < n,
    ensures
        exists|j: int| 0 <= j < n * n && q[j] && line_of(n, by_row, j) == line,
{
    let cell_of = |reg: int| choose|j: int| 0 <= j < n * n && q[j] && colors[j] == reg;
    let f = |reg: int| line_of(n, by_row, cell_of(reg));
    let regions = set_int_range(0, n);
    let lines = set_int_range(0, n);
    lemma_int_range(0, n);
    assert forall|reg: int| 0 <= reg < n implies {
        let j = #[trigger] cell_of(reg);
        0 <= j < n * n && q[j] && colors[j] == reg && 0 <= f(reg) < n
    } by {
        assert(region_covered(n, colors, q, reg));
        lemma_cell_position(n, cell_of(reg));
    }
    assert(injective_on(f, regions)) by {
        assert forall|a: int, b: int|
            regions.contains(a) && regions.contains(b) && #[trigger] f(a) == #[trigger] f(b) implies a == b by {
            let ja = cell_of(a);
            let jb = cell_of(b);
            if a != b {
                assert(ja != jb);
                assert(q[ja] && q[jb]);
                assert(!attacks(n, colors, ja, jb));
            }
        }
    }
    let image = regions.map(f);
    lemma_map_size(regions, image, f);
    assert(image.subset_of(lines)) by {
        assert forall|x: int| image.contains(x) implies lines.contains(x) by {
            let reg = choose|reg: int| regions.contains(reg) && f(reg) == x;
            assert(0 <= cell_of(reg) < n * n);
        }
    }
    lemma_subset_equality(image, lines);
    assert(lines.contains(line));
    assert(image.contains(line));
    let reg = choose|reg: int| regions.contains(reg) && f(reg) == line;
    assert(0 <= cell_of(reg) < n * n && q[cell_of(reg)]);
}

/// The queens of a node whose regions all hold a queen form a solution.
pub proof fn lemma_goal_is_solution(n: int, colors: Seq<u8>, cells: Seq<CellState>, flags: Seq<bool>)
    requires
        board_ok(n, colors),
        state_ok(n, colors, cells, flags),
        forall|reg: int| 0 <= reg < n ==> #[trigger] flags[reg],
    ensures
        is_solution(n, colors, queens_of(cells)),
{
    let q = queens_of(cells);
    assert forall|reg: int| 0 <= reg < n implies #[trigger] region_covered(n, colors, q, reg) by {
        assert(flags[reg]);
        let j = choose|j: int| 0 <= j < cells.len() && cells[j] == CellState::Queen && colors[j] == reg;
        assert(q[j]);
    }
    assert forall|i: int, j: int|
        0 <= i < n * n && 0 <= j < n * n && i != j && #[trigger] q[i] && #[trigger] q[j] implies !attacks(
        n,
        colors,
        i,
        j,
    ) by {
        if attacks(n, colors, i, j) {
            assert(cells[i] == CellState::Queen);
            assert(cells[j] == CellState::Blocked);
        }
    }
    assert forall|row: int| 0 <= row < n implies #[trigger] row_covered(n, q, row) by {
        lemma_regions_cover_lines(n, colors, q, true, row);
    }
    assert forall|col: int| 0 <= col < n implies #[trigger] col_covered(n, q, col) by {
        lemma_regions_cover_lines(n, colors, q, false, col);
    }
}

/// An empty cell of a reachable solution is one where a queen may go.
pub proof fn lemma_solution_cell_placeable(
    n: int,
    colors: Seq<u8>,
    cells: Seq<CellState>,
    flags: Seq<bool>,
    q: Seq<bool>,
    t: int,
)
    requires
        board_ok(n, colors),
        state_ok(n, colors, cells, flags),
        is_solution(n, colors, q),
        admits(cells, q),
        0 <= t < n * n,
        q[t],
        cells[t] == CellState::Empty,
    ensures
        placeable(n, colors, cells, flags, t),
{
    if flags[colors[t] as int] {
        let j = choose|j: int|
            0 <= j < cells.len() && cells[j] == CellState::Queen && colors[j] == colors[t] as int;
        assert(q[j]);
        assert(attacks(n, colors, j, t));
    }
    assert forall|reg: int|
        0 <= reg < n && reg != colors[t] && !flags[reg] implies #[trigger] region_open_after(
        n,
        colors,
        cells,
        t,
        reg,
    ) by {
        assert(region_covered(n, colors, q, reg));
        let j = choose|j: int| 0 <= j < n * n && q[j] && colors[j] == reg;
        assert(cells[j] != CellState::Blocked);
        if cells[j] == CellState::Queen {
            assert(has_queen(colors, cells, reg));
        }
        assert(!attacks(n, colors, t, j));
    }
}

/// The sweep never blocks a cell of a reachable solution.
pub proof fn lemma_sweep_admits(
    n: int,
    colors: Seq<u8>,
    cells: Seq<CellState>,
    flags: Seq<bool>,
    q: Seq<bool>,
    i: nat,
)
    requires
        board_ok(n, colors),
        state_ok(n, colors, cells, flags),
        is_solution(n, colors, q),
        admits(cells, q),
    ensures
        admits(sweep(n, colors, cells, flags, i), q),
    decreases cells.len() - i,
{
    if i < cells.len() {
        let next = sweep_step(n, colors, cells, flags, i as int);
        if cells[i as int] == CellState::Empty && q[i as int] {
            lemma_solution_cell_placeable(n, colors, cells, flags, q, i as int);
        }
        assert(only_blocks(cells, next));
        lemma_only_blocks_keeps_state_ok(n, colors, cells, next, flags);
        assert(admits(next, q));
        lemma_sweep_admits(n, colors, next, flags, q, i + 1);
    }
}

/// Placing a queen of a reachable solution keeps that solution reachable.
pub proof fn lemma_place_admits(
    n: int,
    colors: Seq<u8>,
    cells: Seq<CellState>,
    flags: Seq<bool>,
    q: Seq<bool>,
    t: int,
)
    requires
        board_ok(n, colors),
        state_ok(n, colors, cells, flags),
        is_solution(n, colors, q),
        admits(cells, q),
        0 <= t < n * n,
        q[t],
        cells[t] == CellState::Empty,
    ensures
        admits(cells_after(n, colors, cells, flags, t), q),
{
    let b = block_for(n, colors, cells, t);
    lemma_place_keeps_state_ok(n, colors, cells, flags, t);
    assert forall|j: int| 0 <= j < b.len() implies (#[trigger] b[j] == CellState::Queen ==> q[j]) && (
    q[j] ==> b[j] != CellState::Blocked) by {
        if j != t && attacks(n, colors, t, j) && q[j] {
            assert(!attacks(n, colors, t, j));
        }
    }
    lemma_sweep_admits(n, colors, b, flags_after(colors, flags, t), q, 0);
}

/// Placing a queen on an empty cell keeps every queen and leaves fewer empty cells.
pub proof fn lemma_place_progress(
    n: int,
    colors: Seq<u8>,
    cells: Seq<CellState>,
    flags: Seq<bool>,
    t: int,
)
    requires
        board_ok(n, colors),
        state_ok(n, colors, cells, flags),
        0 <= t < n * n,
        cells[t] == CellState::Empty,
    ensures
        forall|j: int|
            0 <= j < n * n && cells[j] == CellState::Queen ==> #[trigger] cells_after(
                n,
                colors,
                cells,
                flags,
                t,
            )[j] == CellState::Queen,
        empty_count(cells_after(n, colors, cells, flags, t)) < empty_count(cells),
{
    let b = block_for(n, colors, cells, t);
    let a = cells_after(n, colors, cells, flags, t);
    lemma_place_keeps_state_ok(n, colors, cells, flags, t);
    assert forall|q: int| 0 <= q < n * n && cells[q] == CellState::Queen implies #[trigger] b[q]
        == CellState::Queen by {
        if q != t && attacks(n, colors, t, q) {
            lemma_attacks_symmetric(n, colors, t, q);
            assert(cells[t] == CellState::Blocked);
        }
    }
    assert forall|j: int| 0 <= j < n * n && cells[j] == CellState::Queen implies #[trigger] a[j]
        == CellState::Queen by {
        assert(b[j] == CellState::Queen);
        assert(a[j] == b[j] || (b[j] == CellState::Empty && a[j] == CellState::Blocked));
    }
    assert forall|j: int| 0 <= j < cells.len() && #[trigger] a[j] == CellState::Empty implies cells[j]
        == CellState::Empty by {
        assert(a[j] == b[j] || (b[j] == CellState::Empty && a[j] == CellState::Blocked));
    }
    assert(a[t] != CellState::Empty) by {
        assert(a[t] == b[t] || (b[t] == CellState::Empty && a[t] == CellState::Blocked));
    }
    lemma_empty_count_shrinks(cells, a, t);
}

/// Fewer empty cells: every empty cell of `after` is empty in `before`, and
/// cell `t` is empty only in `before`.
pub proof fn lemma_empty_count_shrinks(before: Seq<CellState>, after: Seq<CellState>, t: int)
    requires
        after.len() == before.len(),
        forall|j: int| 0 <= j < before.len() && #[trigger] after[j] == CellState::Empty ==> before[j]
            == CellState::Empty,
        0 <= t < before.len(),
        before[t] == CellState::Empty,
        after[t] != CellState::Empty,
    ensures
        empty_count(after) < empty_count(before),
    decreases before.len(),
{
    let k = before.len() - 1;
    lemma_empty_count_monotone(before.drop_last(), after.drop_last());
    if t < k {
        lemma_empty_count_shrinks(before.drop_last(), after.drop_last(), t);
    }
}

/// No more empty cells: every empty cell of `after` is empty in `before`.
pub proof fn lemma_empty_count_monotone(before: Seq<CellState>, after: Seq<CellState>)
    requires
        after.len() == before.len(),
        forall|j: int| 0 <= j < before.len() && #[trigger] after[j] == CellState::Empty ==> before[j]
            == CellState::Empty,
    ensures
        empty_count(after) <= empty_count(before),
    decreases before.len(),
{
    if before.len() > 0 {
        let k = before.len() - 1;
        assert(after[k] == CellState::Empty ==> before[k] == CellState::Empty);
        lemma_empty_count_monotone(before.drop_last(), after.drop_last());
    }
}

} // verus!
