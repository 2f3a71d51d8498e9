//! Search nodes: the status of every cell and the regions that hold a queen,
//! over a region layout that all nodes of one search share.
use std::rc::Rc;

use vstd::prelude::*;

use crate::cell_state::{code_of, codes_of, CellState};
use crate::digest::{digest_bytes, state_digest};
use crate::errors::GameStateError;
use crate::heuristic::{
    lemma_sorted_by_score_contains, lemma_sorted_by_score_len, order_by_score, ordered_positions,
    scores_of, sorted_by_score, HeuristicContext, Scorer,
};
use crate::regions::{
    count_labels, label_count, label_present, lemma_rank_below_count, normalize_colors,
    normalized, row_contains,
};
use crate::rules::{
    attacks, block_for, board_ok, cells_after, col_of, flags_after, has_one_queen, has_queen,
    lemma_cell_index, lemma_cell_position, lemma_cells_bound, lemma_flag_means_one_queen,
    lemma_place_keeps_state_ok, placeable, region_open_after, row_of, state_ok, sweep, sweep_step,
};

verus! {

/// The largest supported side length.
pub const MAX_BOARD_SIZE: usize = 255;

/// Whether every row of the grid is as long as the grid has rows.
pub open spec fn is_square(g: Seq<Seq<u8>>) -> bool {
    forall|i: int| 0 <= i < g.len() ==> #[trigger] g[i].len() == g.len()
}

/// The first row at or after `i` whose length differs from the number of rows.
pub open spec fn first_ragged(g: Seq<Seq<u8>>, i: int) -> int
    decreases g.len() - i,
{
    if i >= g.len() {
        g.len() as int
    } else if g[i].len() != g.len() {
        i
    } else {
        first_ragged(g, i + 1)
    }
}

/// The normalised labels of a square grid, row by row.
pub open spec fn board_labels(g: Seq<Seq<u8>>) -> Seq<u8> {
    let n = g.len() as int;
    Seq::new((n * n) as nat, |i: int| normalized(g)[i / n][i % n])
}

/// One mask per region: `masks[r][i]` tells whether cell `i` is in region `r`.
pub open spec fn masks_ok(n: int, colors: Seq<u8>, masks: Seq<Seq<bool>>) -> bool {
    &&& masks.len() == n
    &&& forall|r: int| 0 <= r < n ==> (#[trigger] masks[r]).len() == n * n
    &&& forall|r: int, i: int| 0 <= r < n && 0 <= i < n * n ==> #[trigger] masks[r][i] == (colors[i] == r)
}

/// The region layout of a board, built once and shared by all search nodes.
#[derive(Debug)]
struct Regions {
    colors: Vec<u8>,
    color_masks: Vec<Vec<bool>>,
}

/// A search node: the status of every cell and, per region, whether it holds a
/// queen. Nodes are never changed; a move makes a new node.
#[derive(Debug, Clone)]
pub struct GameState {
    size: usize,
    states: Vec<CellState>,
    colors_with_queens: Vec<bool>,
    regions: Rc<Regions>,
    heuristic: Option<Scorer>,
    hash: u64,
}

impl GameState {
    /// The side length.
    pub closed spec fn n(&self) -> int {
        self.size as int
    }

    /// The status of every cell, row by row.
    pub closed spec fn cells(&self) -> Seq<CellState> {
        self.states@
    }

    /// Per region, whether it holds a queen.
    pub closed spec fn flags(&self) -> Seq<bool> {
        self.colors_with_queens@
    }

    /// The region of every cell, row by row.
    pub closed spec fn labels(&self) -> Seq<u8> {
        self.regions.colors@
    }

    /// Per region, the cells that belong to it.
    pub closed spec fn masks(&self) -> Seq<Seq<bool>> {
        self.regions.color_masks@.map_values(|m: Vec<bool>| m@)
    }

    /// The scoring rule that orders candidate moves, if any.
    pub closed spec fn scorer(&self) -> Option<Scorer> {
        self.heuristic
    }

    /// The stored digest of the cells.
    pub closed spec fn digest(&self) -> u64 {
        self.hash
    }

    /// A well-formed board: labels below the side length, and one mask per region.
    pub open spec fn board_wf(&self) -> bool {
        &&& board_ok(self.n(), self.labels())
        &&& masks_ok(self.n(), self.labels(), self.masks())
    }

    /// A node of a well-formed board, with its stored digest up to date.
    pub open spec fn wf(&self) -> bool {
        &&& self.board_wf()
        &&& state_ok(self.n(), self.labels(), self.cells(), self.flags())
        &&& self.digest() == state_digest(codes_of(self.cells()))
    }

    /// Whether `other` is a node over the same board and scoring rule.
    pub open spec fn same_board(&self, other: &GameState) -> bool {
        &&& self.n() == other.n()
        &&& self.labels() == other.labels()
        &&& self.masks() == other.masks()
        &&& self.scorer() == other.scorer()
    }

    /// Whether every region holds a queen.
    pub open spec fn goal_spec(&self) -> bool {
        forall|reg: int| 0 <= reg < self.n() ==> #[trigger] self.flags()[reg]
    }
}

// Accessors
impl GameState {
    pub fn size(&self) -> (r: usize)
        ensures
            r == self.n(),
    {
        self.size
    }

    pub fn states(&self) -> (r: &[CellState])
        ensures
            r@ == self.cells(),
    {
        self.states.as_slice()
    }

    pub fn colors(&self) -> (r: &[u8])
        ensures
            r@ == self.labels(),
    {
        self.regions.colors.as_slice()
    }

    pub fn colors_with_queens(&self) -> (r: &[bool])
        ensures
            r@ == self.flags(),
    {
        self.colors_with_queens.as_slice()
    }

    pub fn hash(&self) -> (r: u64)
        ensures
            r == self.digest(),
    {
        self.hash
    }
}

/// Relies on `Rc::clone`: the new pointer shares the value of the old one.
#[verifier::external_body]
fn share_regions(regions: &Rc<Regions>) -> (r: Rc<Regions>)
    ensures
        r == *regions,
{
    Rc::clone(regions)
}

// Helper functions
impl GameState {
    pub fn pos_to_idx(&self, r: usize, c: usize) -> (idx: usize)
        requires
            1 <= self.n() <= 255,
            r < self.n(),
            c < self.n(),
        ensures
            idx == r * self.n() + c,
            idx < self.n() * self.n(),
            row_of(self.n(), idx as int) == r,
            col_of(self.n(), idx as int) == c,
    {
        proof {
            lemma_cell_index(self.n(), r as int, c as int);
            lemma_cells_bound(self.n());
        }
        r * self.size + c
    }

    pub fn idx_to_pos(&self, idx: usize) -> (pos: (usize, usize))
        requires
            1 <= self.n() <= 255,
            idx < self.n() * self.n(),
        ensures
            pos.0 == row_of(self.n(), idx as int),
            pos.1 == col_of(self.n(), idx as int),
            pos.0 < self.n(),
            pos.1 < self.n(),
            idx == pos.0 * self.n() + pos.1,
    {
        proof {
            lemma_cell_position(self.n(), idx as int);
        }
        (idx / self.size, idx % self.size)
    }

    pub fn color_at_idx(&self, idx: usize) -> (r: u8)
        requires
            self.board_wf(),
            idx < self.n() * self.n(),
        ensures
            r == self.labels()[idx as int],
            r < self.n(),
    {
        self.regions.colors[idx]
    }

    /// Whether a queen on row `r`, column `c` rules out cell `j`.
    fn rules_out(&self, r: usize, c: usize, j: usize) -> (b: bool)
        requires
            self.board_wf(),
            r < self.n(),
            c < self.n(),
            j < self.n() * self.n(),
        ensures
            b == attacks(self.n(), self.labels(), r * self.n() + c, j as int),
    {
        proof {
            lemma_cell_index(self.n(), r as int, c as int);
            lemma_cell_position(self.n(), j as int);
            lemma_cells_bound(self.n());
        }
        let jr = j / self.size;
        let jc = j % self.size;
        let t = r * self.size + c;
        jr == r || jc == c || (jr + 1 >= r && jr <= r + 1 && jc + 1 >= c && jc <= c + 1)
            || self.regions.colors[t] == self.regions.colors[j]
    }

    /// Whether a queen may go on row `r`, column `c`, given the cell statuses
    /// `states` and region flags `colors_with_queens`: the cell must be empty,
    /// its region without a queen, and every other region without a queen must
    /// keep an empty cell that the new queen does not rule out.
    pub fn can_place_queen(
        &self,
        states: &[CellState],
        colors_with_queens: &[bool],
        r: usize,
        c: usize,
    ) -> (b: bool)
        requires
            self.board_wf(),
            states@.len() == self.n() * self.n(),
            colors_with_queens@.len() == self.n(),
            r < self.n(),
            c < self.n(),
        ensures
            b == placeable(
                self.n(),
                self.labels(),
                states@,
                colors_with_queens@,
                r * self.n() + c,
            ),
    {
        let ghost n = self.n();
        let ghost labels = self.labels();
        let idx = self.pos_to_idx(r, c);
        if states[idx] != CellState::Empty {
            return false;
        }
        let queen_color = self.color_at_idx(idx);
        if colors_with_queens[queen_color as usize] {
            return false;
        }
        proof {
            lemma_cells_bound(n);
        }
        let total = self.size * self.size;
        let mut will_be_blocked: Vec<bool> = Vec::new();
        let mut j: usize = 0;
        while j < total
            invariant
                self.board_wf(),
                r < n,
                c < n,
                n == self.n(),
                labels == self.labels(),
                total == n * n,
                idx == r * n + c,
                j <= total,
                will_be_blocked@.len() == j,
                forall|k: int|
                    0 <= k < j ==> #[trigger] will_be_blocked@[k] == attacks(n, labels, idx as int, k),
            decreases total - j,
        {
            will_be_blocked.push(self.rules_out(r, c, j));
            j += 1;
        }
        let mut color: usize = 0;
        while color < self.size
            invariant
                self.board_wf(),
                n == self.n(),
                labels == self.labels(),
                total == n * n,
                color <= n,
                states@.len() == total,
                colors_with_queens@.len() == n,
                idx < total,
                idx == r * n + c,
                queen_color == labels[idx as int],
                will_be_blocked@.len() == total,
                forall|k: int|
                    0 <= k < total ==> #[trigger] will_be_blocked@[k] == attacks(n, labels, idx as int, k),
                forall|reg: int|
                    0 <= reg < color && reg != queen_color && !colors_with_queens@[reg]
                        ==> #[trigger] region_open_after(n, labels, states@, idx as int, reg),
            decreases n - color,
        {
            if color != queen_color as usize && !colors_with_queens[color] {
                let mask = &self.regions.color_masks[color];
                assert(mask@ == self.masks()[color as int]);
                let mut found = false;
                let mut k: usize = 0;
                while k < total
                    invariant_except_break
                        !found,
                    invariant
                        self.board_wf(),
                        n == self.n(),
                        labels == self.labels(),
                        total == n * n,
                        color < n,
                        k <= total,
                        states@.len() == total,
                        mask@ == self.masks()[color as int],
                        will_be_blocked@.len() == total,
                        forall|k2: int|
                            0 <= k2 < total ==> #[trigger] will_be_blocked@[k2] == attacks(
                                n,
                                labels,
                                idx as int,
                                k2,
                            ),
                        forall|k2: int|
                            0 <= k2 < k ==> !(#[trigger] states@[k2] == CellState::Empty
                                && labels[k2] == color && !attacks(n, labels, idx as int, k2)),
                    ensures
                        found ==> region_open_after(n, labels, states@, idx as int, color as int),
                        !found ==> !region_open_after(n, labels, states@, idx as int, color as int),
                    decreases total - k,
                {
                    if states[k] == CellState::Empty && mask[k] && !will_be_blocked[k] {
                        assert(self.masks()[color as int][k as int] == (labels[k as int] == color));
                        assert(states@[k as int] == CellState::Empty && labels[k as int] == color
                            && !attacks(n, labels, idx as int, k as int));
                        assert(region_open_after(n, labels, states@, idx as int, color as int));
                        found = true;
                        break;
                    }
                    assert(self.masks()[color as int][k as int] == (labels[k as int] == color));
                    k += 1;
                }
                if !found {
                    assert(!region_open_after(n, labels, states@, idx as int, color as int));
                    return false;
                }
            }
            color += 1;
        }
        true
    }
}

impl GameState {
    /// The node after a queen goes on row `r`, column `c`: the queen's row,
    /// column, touching cells and region are blocked, its region is flagged,
    /// and then every empty cell where a queen may no longer go is blocked, in
    /// increasing order. The board is shared, not copied.
    pub fn place_queen(&self, r: usize, c: usize) -> (s: GameState)
        requires
            self.wf(),
            r < self.n(),
            c < self.n(),
            self.cells()[r * self.n() + c] == CellState::Empty,
        ensures
            s.wf(),
            s.same_board(self),
            s.cells() == cells_after(self.n(), self.labels(), self.cells(), self.flags(), r * self.n() + c),
            s.flags() == flags_after(self.labels(), self.flags(), r * self.n() + c),
    {
        let ghost n = self.n();
        let ghost labels = self.labels();
        let idx = self.pos_to_idx(r, c);
        proof {
            lemma_cells_bound(n);
            lemma_place_keeps_state_ok(n, labels, self.cells(), self.flags(), idx as int);
        }
        let total = self.size * self.size;
        let ghost blocked = block_for(n, labels, self.cells(), idx as int);
        // the queen, and every cell it rules out blocked
        let mut new_states: Vec<CellState> = Vec::new();
        let mut j: usize = 0;
        while j < total
            invariant
                self.wf(),
                n == self.n(),
                labels == self.labels(),
                total == n * n,
                r < n,
                c < n,
                idx == r * n + c,
                blocked == block_for(n, labels, self.cells(), idx as int),
                j <= total,
                new_states@ == blocked.take(j as int),
            decreases total - j,
        {
            let cell = if j == idx {
                CellState::Queen
            } else if self.rules_out(r, c, j) {
                CellState::Blocked
            } else {
                self.states[j]
            };
            new_states.push(cell);
            j += 1;
            assert(new_states@ =~= blocked.take(j as int));
        }
        assert(blocked.take(total as int) =~= blocked);
        // flag the queen's region
        let color = self.color_at_idx(idx);
        let mut new_colors_with_queens: Vec<bool> = Vec::new();
        let mut k: usize = 0;
        while k < self.size
            invariant
                n == self.n(),
                self.flags().len() == n,
                k <= n,
                new_colors_with_queens@ == self.flags().take(k as int),
            decreases n - k,
        {
            new_colors_with_queens.push(self.colors_with_queens[k]);
            k += 1;
            assert(new_colors_with_queens@ =~= self.flags().take(k as int));
        }
        assert(self.flags().take(n) =~= self.flags());
        new_colors_with_queens.set(color as usize, true);
        let ghost flags = flags_after(labels, self.flags(), idx as int);
        assert(new_colors_with_queens@ == flags);
        // block every empty cell where a queen may no longer go
        let mut i: usize = 0;
        while i < total
            invariant
                self.board_wf(),
                n == self.n(),
                labels == self.labels(),
                total == n * n,
                i <= total,
                new_states@.len() == total,
                new_colors_with_queens@ == flags,
                flags.len() == n,
                sweep(n, labels, new_states@, flags, i as nat) == sweep(n, labels, blocked, flags, 0),
            decreases total - i,
        {
            let ghost before = new_states@;
            if new_states[i] == CellState::Empty {
                let (rr, cc) = self.idx_to_pos(i);
                if !self.can_place_queen(new_states.as_slice(), new_colors_with_queens.as_slice(), rr, cc) {
                    new_states.set(i, CellState::Blocked);
                }
            }
            assert(new_states@ == sweep_step(n, labels, before, flags, i as int));
            i += 1;
        }
        let hash = compute_hash(new_states.as_slice());
        GameState {
            size: self.size,
            states: new_states,
            colors_with_queens: new_colors_with_queens,
            regions: share_regions(&self.regions),
            heuristic: self.heuristic,
            hash,
        }
    }
}

/// The row and column of cell `i`.
pub open spec fn pos_of(n: int, i: int) -> (usize, usize) {
    ((i / n) as usize, (i % n) as usize)
}

/// The cell at a row and column.
pub open spec fn idx_of(n: int, p: (usize, usize)) -> int {
    p.0 * n + p.1
}

/// The positions, in row order, of the cells among the first `k` where a queen may go.
pub open spec fn candidates(n: int, colors: Seq<u8>, cells: Seq<CellState>, flags: Seq<bool>, k: int) -> Seq<
    (usize, usize),
>
    decreases k,
{
    if k <= 0 {
        Seq::empty()
    } else if placeable(n, colors, cells, flags, k - 1) {
        candidates(n, colors, cells, flags, k - 1).push(pos_of(n, k - 1))
    } else {
        candidates(n, colors, cells, flags, k - 1)
    }
}

/// The positions, in row order, of the queens among the first `k` cells.
pub open spec fn queens_upto(n: int, cells: Seq<CellState>, k: int) -> Seq<(usize, usize)>
    decreases k,
{
    if k <= 0 {
        Seq::empty()
    } else if cells[k - 1] == CellState::Queen {
        queens_upto(n, cells, k - 1).push(pos_of(n, k - 1))
    } else {
        queens_upto(n, cells, k - 1)
    }
}

/// The moves of a node in the order they are tried: the candidates in row
/// order, or sorted by the node's scoring rule.
pub open spec fn moves_of(s: GameState) -> Seq<(usize, usize)> {
    let cands = candidates(s.n(), s.labels(), s.cells(), s.flags(), s.n() * s.n());
    match s.scorer() {
        None => cands,
        Some(h) => ordered_positions(scores_of(h, cands, s.n(), s.cells(), s.labels())),
    }
}

/// Every candidate is a cell where a queen may go, and every such cell is a candidate.
pub proof fn lemma_candidates(n: int, colors: Seq<u8>, cells: Seq<CellState>, flags: Seq<bool>, k: int)
    requires
        1 <= n <= 255,
        0 <= k <= n * n,
    ensures
        forall|i: int|
            0 <= i < candidates(n, colors, cells, flags, k).len() ==> {
                let p = #[trigger] candidates(n, colors, cells, flags, k)[i];
                &&& p.0 < n
                &&& p.1 < n
                &&& 0 <= idx_of(n, p) < k
                &&& placeable(n, colors, cells, flags, idx_of(n, p))
            },
        forall|t: int|
            0 <= t < k && #[trigger] placeable(n, colors, cells, flags, t) ==> candidates(
                n,
                colors,
                cells,
                flags,
                k,
            ).contains(pos_of(n, t)),
    decreases k,
{
    if k > 0 {
        lemma_candidates(n, colors, cells, flags, k - 1);
        lemma_cell_position(n, k - 1);
        let prev = candidates(n, colors, cells, flags, k - 1);
        let cur = candidates(n, colors, cells, flags, k);
        assert forall|t: int|
            0 <= t < k && #[trigger] placeable(n, colors, cells, flags, t) implies cur.contains(
            pos_of(n, t),
        ) by {
            if t < k - 1 {
                let i = choose|i: int| 0 <= i < prev.len() && prev[i] == pos_of(n, t);
                assert(cur[i] == pos_of(n, t));
            } else {
                assert(cur[cur.len() - 1] == pos_of(n, t));
            }
        }
    }
}

impl GameState {
    /// Whether every region holds a queen, that is exactly one.
    pub fn is_goal_state(&self) -> (r: bool)
        requires
            self.wf(),
        ensures
            r == self.goal_spec(),
            r == forall|reg: int| 0 <= reg < self.n() ==> #[trigger] has_one_queen(self.labels(), self.cells(), reg),
    {
        let mut count: usize = 0;
        let mut i: usize = 0;
        while i < self.colors_with_queens.len()
            invariant
                i <= self.flags().len(),
                count <= i,
                count == i <==> forall|reg: int| 0 <= reg < i ==> #[trigger] self.flags()[reg],
            decreases self.flags().len() - i,
        {
            if self.colors_with_queens[i] {
                count += 1;
            }
            i += 1;
        }
        proof {
            if count == self.size {
                assert forall|reg: int| 0 <= reg < self.n() implies #[trigger] has_one_queen(
                    self.labels(),
                    self.cells(),
                    reg,
                ) by {
                    assert(self.flags()[reg]);
                    lemma_flag_means_one_queen(self.n(), self.labels(), self.cells(), self.flags(), reg);
                }
            } else {
                let reg = choose|reg: int| 0 <= reg < self.n() && !self.flags()[reg];
                lemma_flag_means_one_queen(self.n(), self.labels(), self.cells(), self.flags(), reg);
            }
        }
        count == self.size
    }

    /// The moves of this node in the order the search tries them: every cell
    /// where a queen may go, in row order, or sorted by the node's scoring rule
    /// (lowest score first, ties in row order).
    pub fn valid_placements(&self) -> (r: Vec<(usize, usize)>)
        requires
            self.wf(),
        ensures
            r@ == moves_of(*self),
            forall|i: int|
                0 <= i < r@.len() ==> {
                    let p = #[trigger] r@[i];
                    &&& p.0 < self.n()
                    &&& p.1 < self.n()
                    &&& placeable(self.n(), self.labels(), self.cells(), self.flags(), idx_of(self.n(), p))
                },
            forall|t: int|
                0 <= t < self.n() * self.n() && #[trigger] placeable(
                    self.n(),
                    self.labels(),
                    self.cells(),
                    self.flags(),
                    t,
                ) ==> r@.contains(pos_of(self.n(), t)),
    {
        let ghost n = self.n();
        let ghost labels = self.labels();
        let ghost cands = candidates(n, labels, self.cells(), self.flags(), n * n);
        proof {
            lemma_cells_bound(n);
            lemma_candidates(n, labels, self.cells(), self.flags(), n * n);
        }
        let total = self.size * self.size;
        let mut positions: Vec<(usize, usize)> = Vec::new();
        let mut idx: usize = 0;
        while idx < total
            invariant
                self.wf(),
                n == self.n(),
                labels == self.labels(),
                total == n * n,
                idx <= total,
                positions@ == candidates(n, labels, self.cells(), self.flags(), idx as int),
            decreases total - idx,
        {
            let (r, c) = self.idx_to_pos(idx);
            if self.can_place_queen(self.states.as_slice(), self.colors_with_queens.as_slice(), r, c) {
                positions.push((r, c));
            }
            idx += 1;
        }
        match self.heuristic {
            None => positions,
            Some(h) => {
                let ctx = HeuristicContext {
                    positions: positions.as_slice(),
                    size: self.size,
                    states: self.states.as_slice(),
                    colors_with_queens: self.colors_with_queens.as_slice(),
                    colors: self.regions.colors.as_slice(),
                    color_masks: self.regions.color_masks.as_slice(),
                };
                let scored = h.score(&ctx);
                let ordered = order_by_score(scored);
                proof {
                    let sc = scores_of(h, cands, n, self.cells(), labels);
                    lemma_sorted_by_score_contains(sc);
                    lemma_sorted_by_score_len(sc);
                    let sorted = sorted_by_score(sc);
                    assert forall|i: int| 0 <= i < ordered@.len() implies {
                        let p = #[trigger] ordered@[i];
                        &&& p.0 < n
                        &&& p.1 < n
                        &&& placeable(n, labels, self.cells(), self.flags(), idx_of(n, p))
                    } by {
                        assert(sorted.contains(sorted[i]));
                        let j = choose|j: int| 0 <= j < sc.len() && sc[j] == sorted[i];
                        assert(cands[j] == ordered@[i]);
                    }
                    assert forall|t: int|
                        0 <= t < n * n && #[trigger] placeable(n, labels, self.cells(), self.flags(), t)
                            implies ordered@.contains(pos_of(n, t)) by {
                        let j = choose|j: int| 0 <= j < cands.len() && cands[j] == pos_of(n, t);
                        assert(sc.contains(sc[j]));
                        assert(sorted.contains(sc[j]));
                        let i = choose|i: int| 0 <= i < sorted.len() && sorted[i] == sc[j];
                        assert(ordered@[i] == pos_of(n, t));
                    }
                }
                ordered
            },
        }
    }

    /// The positions of the queens, in row order.
    pub fn queen_positions(&self) -> (r: Vec<(usize, usize)>)
        requires
            self.wf(),
        ensures
            r@ == queens_upto(self.n(), self.cells(), self.n() * self.n()),
    {
        proof {
            lemma_cells_bound(self.n());
        }
        let total = self.size * self.size;
        let mut positions: Vec<(usize, usize)> = Vec::new();
        let mut idx: usize = 0;
        while idx < total
            invariant
                self.wf(),
                total == self.n() * self.n(),
                idx <= total,
                positions@ == queens_upto(self.n(), self.cells(), idx as int),
            decreases total - idx,
        {
            if self.states[idx] == CellState::Queen {
                positions.push(self.idx_to_pos(idx));
            }
            idx += 1;
        }
        positions
    }
}

/// The error that building a board from grid `g` gives, if any: an empty grid,
/// then too many rows, then the first row of another length, then another
/// number of distinct labels than rows.
pub open spec fn construct_error(g: Seq<Seq<u8>>) -> Option<GameStateError> {
    let n = g.len();
    if n == 0 {
        Some(GameStateError::InexistentBoard)
    } else if n > 255 {
        Some(GameStateError::BoardTooLarge { size: n as usize, max_size: 255 })
    } else if !is_square(g) {
        Some(
            GameStateError::NonSquareBoard {
                rows: n as usize,
                cols: g[first_ragged(g, 0)].len() as usize,
            },
        )
    } else if label_count(g) != n {
        Some(
            GameStateError::RegionCountMismatch {
                expected: n as usize,
                found: label_count(g) as usize,
            },
        )
    } else {
        None
    }
}

/// The cells of a node with nothing placed yet.
pub open spec fn all_empty(len: int) -> Seq<CellState> {
    Seq::new(len as nat, |i: int| CellState::Empty)
}

/// What building a board from grid `g` returns: the error of
/// `construct_error`, or else the initial node of the normalised board.
pub open spec fn construct_ensures(
    g: Seq<Seq<u8>>,
    heuristic: Option<Scorer>,
    r: Result<GameState, GameStateError>,
) -> bool {
    match construct_error(g) {
        Some(e) => r == Err::<GameState, GameStateError>(e),
        None => r matches Ok(s) && {
            &&& s.wf()
            &&& s.n() == g.len()
            &&& s.labels() == board_labels(g)
            &&& s.cells() == all_empty(g.len() * g.len() as int)
            &&& s.flags() == Seq::new(g.len(), |i: int| false)
            &&& s.scorer() == heuristic
        },
    }
}

impl GameState {
    /// Builds the initial node of a board from a grid of region labels.
    pub fn construct(color_regions: Vec<Vec<u8>>) -> (r: Result<GameState, GameStateError>)
        ensures
            construct_ensures(color_regions.deep_view(), None, r),
    {
        let ghost g = color_regions.deep_view();
        let size = color_regions.len();
        if size == 0 {
            return Err(GameStateError::InexistentBoard);
        }
        if size > MAX_BOARD_SIZE {
            return Err(GameStateError::BoardTooLarge { size, max_size: MAX_BOARD_SIZE });
        }
        let mut i: usize = 0;
        while i < size
            invariant
                i <= size,
                1 <= size <= 255,
                size == g.len(),
                g == color_regions.deep_view(),
                forall|k: int| 0 <= k < i ==> #[trigger] g[k].len() == size,
                first_ragged(g, 0) == first_ragged(g, i as int),
            decreases size - i,
        {
            let cols = color_regions[i].len();
            assert(g[i as int].len() == cols);
            if cols != size {
                assert(first_ragged(g, i as int) == i);
                assert(!is_square(g));
                return Err(GameStateError::NonSquareBoard { rows: size, cols });
            }
            i += 1;
        }
        assert(is_square(g));
        let found = count_labels(&color_regions);
        let grid = normalize_colors(color_regions);
        let ghost ng = normalized(g);
        assert(size * size <= 255 * 255) by (nonlinear_arith)
            requires
                size <= 255,
        ;
        let total = size * size;
        assert(grid@.len() == grid.deep_view().len());
        let mut colors: Vec<u8> = Vec::new();
        let mut r: usize = 0;
        while r < size
            invariant
                r <= size,
                size == g.len(),
                1 <= size <= 255,
                total == size * size,
                is_square(g),
                ng == normalized(g),
                grid.deep_view() == ng,
                grid@.len() == size,
                colors@.len() == r * size,
                forall|k: int|
                    0 <= k < colors@.len() ==> #[trigger] colors@[k] == ng[k / size as int][k
                        % size as int],
            decreases size - r,
        {
            let row = &grid[r];
            assert(grid.deep_view()[r as int] =~= grid@[r as int]@);
            assert(row@ == ng[r as int]);
            assert(ng[r as int].len() == size);
            let mut c: usize = 0;
            while c < size
                invariant
                    r < size,
                    c <= size,
                    size == g.len(),
                    1 <= size <= 255,
                    row@ == ng[r as int],
                    row@.len() == size,
                    colors@.len() == r * size + c,
                    forall|k: int|
                        0 <= k < colors@.len() ==> #[trigger] colors@[k] == ng[k / size as int][k
                            % size as int],
                decreases size - c,
            {
                proof {
                    lemma_cell_index(size as int, r as int, c as int);
                }
                colors.push(row[c]);
                c += 1;
            }
            assert(r * size + size == (r + 1) * size) by (nonlinear_arith);
            r += 1;
        }
        if colors.len() != total {
            return Err(GameStateError::InvalidCellCount { expected: total, found: colors.len() });
        }
        if found != size {
            return Err(GameStateError::RegionCountMismatch { expected: size, found });
        }
        assert(colors@ =~= board_labels(g));
        proof {
            assert forall|k: int| 0 <= k < size * size implies #[trigger] colors@[k] < size by {
                lemma_cell_position(size as int, k);
                let a = k / size as int;
                let b = k % size as int;
                let v = g[a][b] as int;
                assert(row_contains(g[a], v));
                assert(label_present(g, v));
                lemma_rank_below_count(g, v);
                crate::regions::lemma_labels_below_bounded(g, v);
            }
        }
        let mut masks: Vec<Vec<bool>> = Vec::new();
        let mut reg: usize = 0;
        while reg < size
            invariant
                reg <= size,
                colors@.len() == total,
                masks@.len() == reg,
                forall|r2: int| 0 <= r2 < reg ==> (#[trigger] masks@[r2])@.len() == total,
                forall|r2: int, k: int|
                    0 <= r2 < reg && 0 <= k < total ==> #[trigger] masks@[r2]@[k] == (colors@[k]
                        == r2),
            decreases size - reg,
        {
            let mut mask: Vec<bool> = Vec::new();
            let mut k: usize = 0;
            while k < total
                invariant
                    k <= total,
                    colors@.len() == total,
                    mask@.len() == k,
                    forall|k2: int| 0 <= k2 < k ==> #[trigger] mask@[k2] == (colors@[k2] == reg),
                decreases total - k,
            {
                mask.push(colors[k] as usize == reg);
                k += 1;
            }
            masks.push(mask);
            reg += 1;
        }
        let mut states: Vec<CellState> = Vec::new();
        let mut k: usize = 0;
        while k < total
            invariant
                k <= total,
                states@ == all_empty(k as int),
            decreases total - k,
        {
            states.push(CellState::Empty);
            k += 1;
            assert(states@ =~= all_empty(k as int));
        }
        let mut flags: Vec<bool> = Vec::new();
        let mut k: usize = 0;
        while k < size
            invariant
                k <= size,
                flags@ == Seq::new(k as nat, |i: int| false),
            decreases size - k,
        {
            flags.push(false);
            k += 1;
            assert(flags@ =~= Seq::new(k as nat, |i: int| false));
        }
        let hash = compute_hash(states.as_slice());
        let s = GameState {
            size,
            states,
            colors_with_queens: flags,
            regions: Rc::new(Regions { colors, color_masks: masks }),
            heuristic: None,
            hash,
        };
        proof {
            assert(s.masks().len() == size);
            assert forall|r2: int| 0 <= r2 < size implies (#[trigger] s.masks()[r2]).len() == size
                * size by {
                assert(s.masks()[r2] == masks@[r2]@);
            }
            assert forall|r2: int, k2: int| 0 <= r2 < size && 0 <= k2 < size * size implies #[trigger] s.masks()[r2][k2]
                == (s.labels()[k2] == r2) by {
                assert(s.masks()[r2] == masks@[r2]@);
            }
            assert forall|reg2: int| 0 <= reg2 < size implies (#[trigger] s.flags()[reg2]
                <==> has_queen(s.labels(), s.cells(), reg2)) by {
                if has_queen(s.labels(), s.cells(), reg2) {
                    let j = choose|j: int|
                        0 <= j < s.cells().len() && s.cells()[j] == CellState::Queen && s.labels()[j]
                            == reg2;
                    assert(s.cells()[j] == CellState::Empty);
                }
            }
        }
        Ok(s)
    }

    /// Builds the initial node of a board from a grid of region labels, with a
    /// scoring rule for the order of moves.
    pub fn from_color_regions(color_regions: Vec<Vec<u8>>, heuristic: Option<Scorer>) -> (r: Result<
        GameState,
        GameStateError,
    >)
        ensures
            construct_ensures(color_regions.deep_view(), heuristic, r),
    {
        match GameState::construct(color_regions) {
            Ok(base) => {
                let mut base = base;
                base.heuristic = heuristic;
                Ok(base)
            },
            Err(e) => Err(e),
        }
    }
}

impl TryFrom<Vec<Vec<u8>>> for GameState {
    type Error = GameStateError;

    fn try_from(color_regions: Vec<Vec<u8>>) -> (r: Result<GameState, GameStateError>) {
        GameState::construct(color_regions)
    }
}

impl vstd::std_specs::convert::TryFromSpecImpl<Vec<Vec<u8>>> for GameState {
    /// Conversion promises nothing here: `construct` carries the contract.
    open spec fn obeys_try_from_spec() -> bool {
        false
    }

    open spec fn try_from_spec(v: Vec<Vec<u8>>) -> Result<GameState, GameStateError> {
        Err(GameStateError::InexistentBoard)
    }
}

/// Whether two cell vectors are equal.
pub fn same_cells(a: &[CellState], b: &[CellState]) -> (r: bool)
    ensures
        r == (a@ == b@),
{
    if a.len() != b.len() {
        return false;
    }
    let mut i: usize = 0;
    while i < a.len()
        invariant
            a@.len() == b@.len(),
            i <= a@.len(),
            forall|k: int| 0 <= k < i ==> a@[k] == b@[k],
        decreases a@.len() - i,
    {
        if a[i] != b[i] {
            return false;
        }
        i += 1;
    }
    assert(a@ =~= b@);
    true
}

/// Two nodes are equal when their cells are: the board and the digest follow
/// from the search that made them.
impl PartialEq for GameState {
    fn eq(&self, other: &GameState) -> (r: bool) {
        same_cells(self.states.as_slice(), other.states.as_slice())
    }
}

impl vstd::std_specs::cmp::PartialEqSpecImpl for GameState {
    open spec fn obeys_eq_spec() -> bool {
        true
    }

    open spec fn eq_spec(&self, other: &GameState) -> bool {
        self.cells() == other.cells()
    }
}

impl Eq for GameState {

}

impl GameState {
    /// The code of every cell (0 empty, 1 blocked, 2 queen), row by row.
    pub fn state_codes(&self) -> (r: Vec<u8>)
        ensures
            r@ == codes_of(self.cells()),
    {
        let mut codes: Vec<u8> = Vec::new();
        let mut i: usize = 0;
        while i < self.states.len()
            invariant
                i <= self.cells().len(),
                codes@ == codes_of(self.cells().take(i as int)),
            decreases self.cells().len() - i,
        {
            codes.push(self.states[i].code());
            i += 1;
            assert(codes@ =~= codes_of(self.cells().take(i as int)));
        }
        assert(self.cells().take(i as int) =~= self.cells());
        codes
    }

    /// The codes of the cells (0 empty, 1 blocked, 2 queen), one vector per row.
    pub fn state_rows(&self) -> (r: Vec<Vec<u8>>)
        requires
            self.wf(),
        ensures
            r@.len() == self.n(),
            forall|i: int|
                0 <= i < self.n() ==> (#[trigger] r@[i])@ == codes_of(self.cells()).subrange(
                    i * self.n(),
                    i * self.n() + self.n(),
                ),
    {
        let ghost n = self.n();
        let codes = self.state_codes();
        proof {
            lemma_cells_bound(n);
        }
        let mut rows: Vec<Vec<u8>> = Vec::new();
        let mut r: usize = 0;
        while r < self.size
            invariant
                n == self.n(),
                1 <= n <= 255,
                codes@ == codes_of(self.cells()),
                codes@.len() == n * n,
                n * n <= 65025,
                r <= n,
                rows@.len() == r,
                forall|i: int|
                    0 <= i < r ==> (#[trigger] rows@[i])@ == codes_of(self.cells()).subrange(
                        i * n,
                        i * n + n,
                    ),
            decreases n - r,
        {
            proof {
                lemma_cell_index(n, r as int, 0);
                lemma_cell_index(n, r as int, n - 1);
            }
            let start = r * self.size;
            let mut row: Vec<u8> = Vec::new();
            let mut c: usize = 0;
            while c < self.size
                invariant
                    n == self.n(),
                    codes@.len() == n * n,
                    n * n <= 65025,
                    r < n,
                    start == r * n,
                    start + n <= n * n,
                    c <= n,
                    row@ == codes@.subrange(start as int, start + c),
                decreases n - c,
            {
                row.push(codes[start + c]);
                c += 1;
                assert(row@ =~= codes@.subrange(start as int, start + c));
            }
            rows.push(row);
            r += 1;
        }
        rows
    }
}

/// The digest of a cell vector.
pub fn compute_hash(states: &[CellState]) -> (r: u64)
    ensures
        r == state_digest(codes_of(states@)),
{
    let mut codes: Vec<u8> = Vec::new();
    let mut i: usize = 0;
    while i < states.len()
        invariant
            i <= states@.len(),
            codes@ == codes_of(states@.take(i as int)),
        decreases states@.len() - i,
    {
        codes.push(states[i].code());
        assert(states@.take(i + 1) == states@.take(i as int).push(states@[i as int]));
        assert(codes_of(states@.take(i + 1)) =~= codes_of(states@.take(i as int)).push(
            code_of(states@[i as int]),
        ));
        i += 1;
    }
    assert(states@.take(states@.len() as int) == states@);
    digest_bytes(codes.as_slice())
}

} // verus!
