//! Move ordering: pure scoring rules that rank candidate placements, lower first.
//!
//! A scoring rule never changes the set of moves tried, only their order, so it
//! can cut the number of nodes visited but not change whether a solution is found.
use vstd::prelude::*;

use crate::cell_state::CellState;
use crate::rules::{board_ok, lemma_cell_index, lemma_cells_bound};

verus! {

/// What a scoring rule may look at: the candidates and the node they come from.
pub struct HeuristicContext<'a> {
    pub positions: &'a [(usize, usize)],
    pub size: usize,
    pub states: &'a [CellState],
    pub colors_with_queens: &'a [bool],
    pub colors: &'a [u8],
    pub color_masks: &'a [Vec<bool>],
}

/// A scoring rule for candidate placements; lower scores are tried first.
#[derive(Debug, Clone, Copy, PartialEq, Eq, Structural)]
pub enum Scorer {
    /// The total size of the candidate's region.
    SmallestRegionFirst,
    /// The number of empty cells left in the candidate's region.
    SmallestRegionByEmptyCells,
}

/// A context over a well-formed board, with every candidate on the board.
pub open spec fn context_ok(
    positions: Seq<(usize, usize)>,
    n: int,
    states: Seq<CellState>,
    colors: Seq<u8>,
) -> bool {
    &&& board_ok(n, colors)
    &&& states.len() == n * n
    &&& forall|i: int| 0 <= i < positions.len() ==> (#[trigger] positions[i]).0 < n && positions[i].1 < n
}

/// The number of cells among the first `k` that lie in region `reg`.
pub open spec fn region_size_upto(colors: Seq<u8>, reg: int, k: int) -> nat
    decreases k,
{
    if k <= 0 {
        0
    } else {
        region_size_upto(colors, reg, k - 1) + if colors[k - 1] == reg {
            1nat
        } else {
            0nat
        }
    }
}

/// The number of empty cells among the first `k` that lie in region `reg`.
pub open spec fn region_empty_upto(colors: Seq<u8>, states: Seq<CellState>, reg: int, k: int) -> nat
    decreases k,
{
    if k <= 0 {
        0
    } else {
        region_empty_upto(colors, states, reg, k - 1) + if colors[k - 1] == reg && states[k - 1]
            == CellState::Empty {
            1nat
        } else {
            0nat
        }
    }
}

/// The region of the cell at a position.
pub open spec fn region_at(n: int, colors: Seq<u8>, p: (usize, usize)) -> int {
    colors[p.0 * n + p.1] as int
}

/// Each candidate with the total size of its region.
pub open spec fn region_size_scores(positions: Seq<(usize, usize)>, n: int, colors: Seq<u8>) -> Seq<
    ((usize, usize), usize),
> {
    Seq::new(
        positions.len(),
        |i: int|
            (
                positions[i],
                region_size_upto(colors, region_at(n, colors, positions[i]), n * n) as usize,
            ),
    )
}

/// Each candidate with the number of empty cells left in its region.
pub open spec fn region_empty_scores(
    positions: Seq<(usize, usize)>,
    n: int,
    states: Seq<CellState>,
    colors: Seq<u8>,
) -> Seq<((usize, usize), usize)> {
    Seq::new(
        positions.len(),
        |i: int|
            (
                positions[i],
                region_empty_upto(colors, states, region_at(n, colors, positions[i]), n * n) as usize,
            ),
    )
}

/// The scores that a rule gives the candidates of a context.
pub open spec fn scores_of(
    h: Scorer,
    positions: Seq<(usize, usize)>,
    n: int,
    states: Seq<CellState>,
    colors: Seq<u8>,
) -> Seq<((usize, usize), usize)> {
    match h {
        Scorer::SmallestRegionFirst => region_size_scores(positions, n, colors),
        Scorer::SmallestRegionByEmptyCells => region_empty_scores(positions, n, states, colors),
    }
}

pub proof fn lemma_region_size_bounded(colors: Seq<u8>, reg: int, k: int)
    requires
        0 <= k,
    ensures
        region_size_upto(colors, reg, k) <= k,
    decreases k,
{
    if k > 0 {
        lemma_region_size_bounded(colors, reg, k - 1);
    }
}

pub proof fn lemma_region_empty_bounded(colors: Seq<u8>, states: Seq<CellState>, reg: int, k: int)
    requires
        0 <= k,
    ensures
        region_empty_upto(colors, states, reg, k) <= k,
    decreases k,
{
    if k > 0 {
        lemma_region_empty_bounded(colors, states, reg, k - 1);
    }
}

/// Scoring is a function of the candidates and the node alone: two calls on
/// equal contexts give equal score lists.
pub proof fn lemma_scores_deterministic(
    h: Scorer,
    positions1: Seq<(usize, usize)>,
    positions2: Seq<(usize, usize)>,
    n: int,
    states1: Seq<CellState>,
    states2: Seq<CellState>,
    colors1: Seq<u8>,
    colors2: Seq<u8>,
)
    requires
        positions1 == positions2,
        states1 == states2,
        colors1 == colors2,
    ensures
        scores_of(h, positions1, n, states1, colors1) == scores_of(h, positions2, n, states2, colors2),
{
}

/// For each region, the number of cells in it.
fn region_sizes(colors: &[u8], size: usize) -> (counts: Vec<usize>)
    requires
        board_ok(size as int, colors@),
    ensures
        counts@.len() == size,
        forall|reg: int|
            0 <= reg < size ==> #[trigger] counts@[reg] == region_size_upto(
                colors@,
                reg,
                size * size,
            ),
{
    let mut counts: Vec<usize> = Vec::new();
    let mut reg: usize = 0;
    while reg < size
        invariant
            reg <= size,
            counts@.len() == reg,
            forall|r: int| 0 <= r < reg ==> #[trigger] counts@[r] == 0,
        decreases size - reg,
    {
        counts.push(0);
        reg += 1;
    }
    let mut i: usize = 0;
    while i < colors.len()
        invariant
            board_ok(size as int, colors@),
            i <= colors@.len(),
            counts@.len() == size,
            forall|r: int| 0 <= r < size ==> #[trigger] counts@[r] == region_size_upto(colors@, r, i as int),
        decreases colors@.len() - i,
    {
        let color = colors[i] as usize;
        proof {
            lemma_region_size_bounded(colors@, color as int, i as int);
            lemma_cells_bound(size as int);
        }
        let old_count = counts[color];
        counts.set(color, old_count + 1);
        i += 1;
    }
    counts
}

/// For each region, the number of its cells that are empty.
fn region_empty_counts(colors: &[u8], states: &[CellState], size: usize) -> (counts: Vec<usize>)
    requires
        board_ok(size as int, colors@),
        states@.len() == size * size,
    ensures
        counts@.len() == size,
        forall|reg: int|
            0 <= reg < size ==> #[trigger] counts@[reg] == region_empty_upto(
                colors@,
                states@,
                reg,
                size * size,
            ),
{
    let mut counts: Vec<usize> = Vec::new();
    let mut reg: usize = 0;
    while reg < size
        invariant
            reg <= size,
            counts@.len() == reg,
            forall|r: int| 0 <= r < reg ==> #[trigger] counts@[r] == 0,
        decreases size - reg,
    {
        counts.push(0);
        reg += 1;
    }
    let mut i: usize = 0;
    while i < states.len()
        invariant
            board_ok(size as int, colors@),
            states@.len() == size * size,
            i <= states@.len(),
            counts@.len() == size,
            forall|r: int|
                0 <= r < size ==> #[trigger] counts@[r] == region_empty_upto(colors@, states@, r, i as int),
        decreases states@.len() - i,
    {
        if states[i] == CellState::Empty {
            let color = colors[i] as usize;
            proof {
                lemma_region_empty_bounded(colors@, states@, color as int, i as int);
                lemma_cells_bound(size as int);
            }
            let old_count = counts[color];
            counts.set(color, old_count + 1);
        }
        i += 1;
    }
    counts
}

/// Scores every candidate by the total size of its region, counting every
/// cell of the region whatever its status.
pub fn smallest_region_first(ctx: &HeuristicContext) -> (r: Vec<((usize, usize), usize)>)
    requires
        context_ok(ctx.positions@, ctx.size as int, ctx.states@, ctx.colors@),
    ensures
        r@ == region_size_scores(ctx.positions@, ctx.size as int, ctx.colors@),
{
    let color_sizes = region_sizes(ctx.colors, ctx.size);
    let mut scored: Vec<((usize, usize), usize)> = Vec::new();
    let mut i: usize = 0;
    while i < ctx.positions.len()
        invariant
            context_ok(ctx.positions@, ctx.size as int, ctx.states@, ctx.colors@),
            i <= ctx.positions@.len(),
            color_sizes@.len() == ctx.size,
            forall|reg: int|
                0 <= reg < ctx.size ==> #[trigger] color_sizes@[reg] == region_size_upto(
                    ctx.colors@,
                    reg,
                    ctx.size * ctx.size,
                ),
            scored@ == region_size_scores(ctx.positions@, ctx.size as int, ctx.colors@).take(
                i as int,
            ),
        decreases ctx.positions@.len() - i,
    {
        let (r, c) = ctx.positions[i];
        proof {
            lemma_cell_index(ctx.size as int, r as int, c as int);
            lemma_cells_bound(ctx.size as int);
        }
        let idx = r * ctx.size + c;
        let color = ctx.colors[idx] as usize;
        scored.push(((r, c), color_sizes[color]));
        i += 1;
        assert(scored@ =~= region_size_scores(ctx.positions@, ctx.size as int, ctx.colors@).take(
            i as int,
        ));
    }
    assert(region_size_scores(ctx.positions@, ctx.size as int, ctx.colors@).take(i as int)
        =~= region_size_scores(ctx.positions@, ctx.size as int, ctx.colors@));
    scored
}

/// Scores every candidate by the number of empty cells left in its region.
pub fn smallest_region_by_empty_cells(ctx: &HeuristicContext) -> (r: Vec<((usize, usize), usize)>)
    requires
        context_ok(ctx.positions@, ctx.size as int, ctx.states@, ctx.colors@),
    ensures
        r@ == region_empty_scores(ctx.positions@, ctx.size as int, ctx.states@, ctx.colors@),
{
    let color_empty_counts = region_empty_counts(ctx.colors, ctx.states, ctx.size);
    let mut scored: Vec<((usize, usize), usize)> = Vec::new();
    let mut i: usize = 0;
    while i < ctx.positions.len()
        invariant
            context_ok(ctx.positions@, ctx.size as int, ctx.states@, ctx.colors@),
            i <= ctx.positions@.len(),
            color_empty_counts@.len() == ctx.size,
            forall|reg: int|
                0 <= reg < ctx.size ==> #[trigger] color_empty_counts@[reg] == region_empty_upto(
                    ctx.colors@,
                    ctx.states@,
                    reg,
                    ctx.size * ctx.size,
                ),
            scored@ == region_empty_scores(
                ctx.positions@,
                ctx.size as int,
                ctx.states@,
                ctx.colors@,
            ).take(i as int),
        decreases ctx.positions@.len() - i,
    {
        let (r, c) = ctx.positions[i];
        proof {
            lemma_cell_index(ctx.size as int, r as int, c as int);
            lemma_cells_bound(ctx.size as int);
        }
        let idx = r * ctx.size + c;
        let color = ctx.colors[idx] as usize;
        scored.push(((r, c), color_empty_counts[color]));
        i += 1;
        assert(scored@ =~= region_empty_scores(
            ctx.positions@,
            ctx.size as int,
            ctx.states@,
            ctx.colors@,
        ).take(i as int));
    }
    assert(region_empty_scores(ctx.positions@, ctx.size as int, ctx.states@, ctx.colors@).take(
        i as int,
    ) =~= region_empty_scores(ctx.positions@, ctx.size as int, ctx.states@, ctx.colors@));
    scored
}

impl Scorer {
    /// The scores that this rule gives the candidates of the context.
    pub fn score(&self, ctx: &HeuristicContext) -> (r: Vec<((usize, usize), usize)>)
        requires
            context_ok(ctx.positions@, ctx.size as int, ctx.states@, ctx.colors@),
        ensures
            r@ == scores_of(*self, ctx.positions@, ctx.size as int, ctx.states@, ctx.colors@),
    {
        match self {
            Scorer::SmallestRegionFirst => smallest_region_first(ctx),
            Scorer::SmallestRegionByEmptyCells => smallest_region_by_empty_cells(ctx),
        }
    }
}

/// The first index at or after `i` whose score is above `score`.
pub open spec fn first_above(s: Seq<((usize, usize), usize)>, score: usize, i: int) -> int
    decreases s.len() - i,
{
    if i >= s.len() {
        s.len() as int
    } else if s[i].1 > score {
        i
    } else {
        first_above(s, score, i + 1)
    }
}

/// `x` inserted after every entry whose score is not above its own.
pub open spec fn insert_by_score(s: Seq<((usize, usize), usize)>, x: ((usize, usize), usize)) -> Seq<
    ((usize, usize), usize),
> {
    s.insert(first_above(s, x.1, 0), x)
}

/// The entries sorted by score, ties kept in their order.
pub open spec fn sorted_by_score(s: Seq<((usize, usize), usize)>) -> Seq<((usize, usize), usize)>
    decreases s.len(),
{
    if s.len() == 0 {
        s
    } else {
        insert_by_score(sorted_by_score(s.drop_last()), s.last())
    }
}

/// The positions of scored candidates, lowest score first, ties kept in their order.
pub open spec fn ordered_positions(s: Seq<((usize, usize), usize)>) -> Seq<(usize, usize)> {
    sorted_by_score(s).map_values(|e: ((usize, usize), usize)| e.0)
}

pub proof fn lemma_first_above_bounds(s: Seq<((usize, usize), usize)>, score: usize, i: int)
    requires
        0 <= i <= s.len(),
    ensures
        i <= first_above(s, score, i) <= s.len(),
    decreases s.len() - i,
{
    if i < s.len() {
        lemma_first_above_bounds(s, score, i + 1);
    }
}

pub proof fn lemma_sorted_by_score_len(s: Seq<((usize, usize), usize)>)
    ensures
        sorted_by_score(s).len() == s.len(),
    decreases s.len(),
{
    if s.len() > 0 {
        lemma_sorted_by_score_len(s.drop_last());
        lemma_first_above_bounds(sorted_by_score(s.drop_last()), s.last().1, 0);
    }
}

/// Inserting `x` keeps every entry and adds `x`.
pub proof fn lemma_insert_contains<A>(s: Seq<A>, p: int, x: A)
    requires
        0 <= p <= s.len(),
    ensures
        forall|y: A| #[trigger] s.insert(p, x).contains(y) <==> (s.contains(y) || y == x),
{
    let t = s.insert(p, x);
    assert forall|y: A| #[trigger] t.contains(y) <==> (s.contains(y) || y == x) by {
        if t.contains(y) {
            let i = choose|i: int| 0 <= i < t.len() && t[i] == y;
            if i < p {
                assert(s[i] == y);
            } else if i > p {
                assert(s[i - 1] == y);
            }
        }
        if s.contains(y) {
            let i = choose|i: int| 0 <= i < s.len() && s[i] == y;
            if i < p {
                assert(t[i] == y);
            } else {
                assert(t[i + 1] == y);
            }
        }
        if y == x {
            assert(t[p] == y);
        }
    }
}

/// Sorting by score keeps the entries.
pub proof fn lemma_sorted_by_score_contains(s: Seq<((usize, usize), usize)>)
    ensures
        forall|e: ((usize, usize), usize)| #[trigger] sorted_by_score(s).contains(e) <==> s.contains(e),
    decreases s.len(),
{
    if s.len() > 0 {
        let rest = s.drop_last();
        lemma_sorted_by_score_contains(rest);
        lemma_first_above_bounds(sorted_by_score(rest), s.last().1, 0);
        lemma_insert_contains(sorted_by_score(rest), first_above(sorted_by_score(rest), s.last().1, 0), s.last());
        assert forall|e: ((usize, usize), usize)| #[trigger] sorted_by_score(s).contains(e) <==> s.contains(e) by {
            if s.contains(e) && e != s.last() {
                let i = choose|i: int| 0 <= i < s.len() && s[i] == e;
                assert(rest[i] == e);
            }
            if rest.contains(e) {
                let i = choose|i: int| 0 <= i < rest.len() && rest[i] == e;
                assert(s[i] == e);
            }
            if e == s.last() {
                assert(s[s.len() - 1] == e);
            }
        }
    }
}

/// Before `first_above(s, score, i)` every score from `i` on is at most
/// `score`; the entry there, if any, has a higher score.
pub proof fn lemma_first_above_splits(s: Seq<((usize, usize), usize)>, score: usize, i: int)
    requires
        0 <= i <= s.len(),
    ensures
        forall|k: int| i <= k < first_above(s, score, i) ==> #[trigger] s[k].1 <= score,
        first_above(s, score, i) < s.len() ==> s[first_above(s, score, i)].1 > score,
    decreases s.len() - i,
{
    if i < s.len() {
        lemma_first_above_splits(s, score, i + 1);
    }
}

/// Sorting by score puts lower scores first.
pub proof fn lemma_sorted_by_score_ascending(s: Seq<((usize, usize), usize)>)
    ensures
        forall|i: int, j: int|
            0 <= i < j < sorted_by_score(s).len() ==> #[trigger] sorted_by_score(s)[i].1
                <= #[trigger] sorted_by_score(s)[j].1,
    decreases s.len(),
{
    if s.len() > 0 {
        let rest = sorted_by_score(s.drop_last());
        let x = s.last();
        lemma_sorted_by_score_ascending(s.drop_last());
        lemma_first_above_bounds(rest, x.1, 0);
        lemma_first_above_splits(rest, x.1, 0);
        let p = first_above(rest, x.1, 0);
        let t = rest.insert(p, x);
        assert(t == sorted_by_score(s));
        assert forall|i: int, j: int| 0 <= i < j < t.len() implies #[trigger] t[i].1 <= #[trigger] t[j].1 by {
            if i < p && j == p {
                assert(rest[i].1 <= x.1);
            } else if i < p && j > p {
                assert(t[j] == rest[j - 1]);
            } else if i == p && j > p {
                assert(t[j] == rest[j - 1]);
                assert(rest[p].1 > x.1);
                if j - 1 > p {
                    assert(rest[p].1 <= rest[j - 1].1);
                }
            } else if i > p {
                assert(t[i] == rest[i - 1]);
                assert(t[j] == rest[j - 1]);
            }
        }
    }
}

/// The positions of the scored candidates, lowest score first; candidates with
/// equal scores keep their order.
pub fn order_by_score(scored: Vec<((usize, usize), usize)>) -> (r: Vec<(usize, usize)>)
    ensures
        r@ == ordered_positions(scored@),
{
    let mut sorted: Vec<((usize, usize), usize)> = Vec::new();
    let mut i: usize = 0;
    while i < scored.len()
        invariant
            i <= scored@.len(),
            sorted@ == sorted_by_score(scored@.take(i as int)),
        decreases scored@.len() - i,
    {
        let x = scored[i];
        proof {
            lemma_sorted_by_score_len(scored@.take(i as int));
        }
        let mut p: usize = 0;
        while p < sorted.len() && !(sorted[p].1 > x.1)
            invariant
                p <= sorted@.len(),
                first_above(sorted@, x.1, 0) == first_above(sorted@, x.1, p as int),
            decreases sorted@.len() - p,
        {
            p += 1;
        }
        proof {
            lemma_first_above_bounds(sorted@, x.1, 0);
        }
        sorted.insert(p, x);
        assert(scored@.take(i + 1).drop_last() =~= scored@.take(i as int));
        i += 1;
    }
    assert(scored@.take(i as int) =~= scored@);
    let mut out: Vec<(usize, usize)> = Vec::new();
    let mut k: usize = 0;
    while k < sorted.len()
        invariant
            k <= sorted@.len(),
            out@ == sorted@.take(k as int).map_values(|e: ((usize, usize), usize)| e.0),
        decreases sorted@.len() - k,
    {
        out.push(sorted[k].0);
        k += 1;
        assert(out@ =~= sorted@.take(k as int).map_values(|e: ((usize, usize), usize)| e.0));
    }
    assert(sorted@.take(k as int) =~= sorted@);
    out
}

} // verus!
