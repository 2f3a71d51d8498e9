//! Depth-first search over search nodes, with a record of the cell vectors seen.
use vstd::prelude::*;

use crate::cell_state::{codes_of, CellState};
use crate::digest::state_digest;
use crate::game_state::{idx_of, pos_of, same_cells, GameState};
use crate::rules::{
    admits, dead_end, empty_count, is_solution, lemma_goal_is_solution, lemma_place_admits,
    lemma_place_progress, lemma_solution_cell_placeable, queens_of, region_covered,
};

verus! {

/// The cell vectors the search has expanded, each with its digest. The
/// digests make most lookups a comparison of two integers.
pub struct VisitedSet {
    digests: Vec<u64>,
    cells: Vec<Vec<CellState>>,
}

impl VisitedSet {
    /// The recorded cell vectors, in the order they were recorded.
    pub closed spec fn entries(&self) -> Seq<Seq<CellState>> {
        self.cells@.map_values(|v: Vec<CellState>| v@)
    }

    pub closed spec fn wf(&self) -> bool {
        &&& self.digests@.len() == self.cells@.len()
        &&& forall|i: int|
            0 <= i < self.cells@.len() ==> #[trigger] self.digests@[i] == state_digest(
                codes_of(self.cells@[i]@),
            )
    }

    /// No cell vector is recorded twice.
    pub open spec fn distinct(&self) -> bool {
        forall|i: int, j: int|
            0 <= i < j < self.entries().len() ==> #[trigger] self.entries()[i] != #[trigger] self.entries()[j]
    }

    pub fn new() -> (r: VisitedSet)
        ensures
            r.wf(),
            r.entries() == Seq::<Seq<CellState>>::empty(),
    {
        let r = VisitedSet { digests: Vec::new(), cells: Vec::new() };
        assert(r.entries() =~= Seq::<Seq<CellState>>::empty());
        r
    }

    /// The number of recorded cell vectors.
    pub fn len(&self) -> (r: usize)
        ensures
            r == self.entries().len(),
    {
        self.cells.len()
    }

    /// The recorded cell vector at `i`.
    pub fn entry(&self, i: usize) -> (r: &[CellState])
        requires
            i < self.entries().len(),
        ensures
            r@ == self.entries()[i as int],
    {
        self.cells[i].as_slice()
    }

    /// Whether `cells`, whose digest is `digest`, is recorded.
    pub fn contains(&self, cells: &[CellState], digest: u64) -> (r: bool)
        requires
            self.wf(),
            digest == state_digest(codes_of(cells@)),
        ensures
            r == self.entries().contains(cells@),
    {
        let mut k: usize = 0;
        while k < self.cells.len()
            invariant
                self.wf(),
                digest == state_digest(codes_of(cells@)),
                k <= self.cells@.len(),
                forall|i: int| 0 <= i < k ==> #[trigger] self.entries()[i] != cells@,
            decreases self.cells@.len() - k,
        {
            if self.digests[k] == digest && same_cells(self.cells[k].as_slice(), cells) {
                assert(self.entries()[k as int] == cells@);
                return true;
            }
            assert(self.entries()[k as int] == self.cells@[k as int]@);
            k += 1;
        }
        false
    }

    /// Records `cells`, whose digest is `digest`.
    pub fn insert(&mut self, cells: &[CellState], digest: u64)
        requires
            old(self).wf(),
            digest == state_digest(codes_of(cells@)),
        ensures
            final(self).wf(),
            final(self).entries() == old(self).entries().push(cells@),
    {
        let mut copy: Vec<CellState> = Vec::new();
        let mut i: usize = 0;
        while i < cells.len()
            invariant
                i <= cells@.len(),
                copy@ == cells@.take(i as int),
            decreases cells@.len() - i,
        {
            copy.push(cells[i]);
            i += 1;
            assert(copy@ =~= cells@.take(i as int));
        }
        assert(cells@.take(i as int) =~= cells@);
        self.digests.push(digest);
        self.cells.push(copy);
        assert(self.entries() =~= old(self).entries().push(cells@));
    }
}

/// Whether `sol` answers a search started at `start`: a well-formed node of
/// the same board whose regions all hold a queen, whose queens form a
/// solution, and which keeps every queen of `start`.
pub open spec fn solves(start: GameState, sol: GameState) -> bool {
    &&& sol.wf()
    &&& sol.same_board(&start)
    &&& sol.goal_spec()
    &&& is_solution(sol.n(), sol.labels(), queens_of(sol.cells()))
    &&& forall|j: int|
        0 <= j < start.cells().len() && #[trigger] start.cells()[j] == CellState::Queen ==> sol.cells()[j]
            == CellState::Queen
}

/// Whether every recorded cell vector is a dead end of the board of `s`, or
/// has more empty cells than `s` (it is then on the path to `s`).
pub open spec fn seen_ok(seen: Seq<Seq<CellState>>, s: GameState) -> bool {
    forall|k: int|
        0 <= k < seen.len() ==> dead_end(s.n(), s.labels(), #[trigger] seen[k]) || empty_count(seen[k])
            > empty_count(s.cells())
}

/// Explores the subtree of `game_state`, skipping cell vectors already in
/// `seen` and recording the ones it expands. Returns the first node found
/// whose regions all hold a queen.
pub fn dfs_helper(game_state: GameState, seen: &mut VisitedSet) -> (r: Option<GameState>)
    requires
        game_state.wf(),
        old(seen).wf(),
        old(seen).distinct(),
        seen_ok(old(seen).entries(), game_state),
    ensures
        final(seen).wf(),
        final(seen).distinct(),
        final(seen).entries().len() >= old(seen).entries().len(),
        final(seen).entries().take(old(seen).entries().len() as int) == old(seen).entries(),
        !old(seen).entries().contains(game_state.cells()) ==> final(seen).entries().len() > old(
            seen,
        ).entries().len() && final(seen).entries()[old(seen).entries().len() as int]
            == game_state.cells(),
        match r {
            Some(sol) => solves(game_state, sol),
            None => {
                &&& dead_end(game_state.n(), game_state.labels(), game_state.cells())
                &&& forall|k: int|
                    old(seen).entries().len() <= k < final(seen).entries().len() ==> dead_end(
                        game_state.n(),
                        game_state.labels(),
                        #[trigger] final(seen).entries()[k],
                    )
            },
        },
    decreases empty_count(game_state.cells()),
{
    let ghost n = game_state.n();
    let ghost labels = game_state.labels();
    let ghost start = seen.entries();
    if seen.contains(game_state.states(), game_state.hash()) {
        proof {
            let k = choose|k: int| 0 <= k < start.len() && start[k] == game_state.cells();
            assert(dead_end(n, labels, start[k]) || empty_count(start[k]) > empty_count(
                game_state.cells(),
            ));
            assert(start.take(start.len() as int) =~= start);
        }
        return None;
    }
    seen.insert(game_state.states(), game_state.hash());
    proof {
        assert forall|i: int, j: int|
            0 <= i < j < seen.entries().len() implies #[trigger] seen.entries()[i]
            != #[trigger] seen.entries()[j] by {
            if j == start.len() {
                assert(start[i] == seen.entries()[i]);
            } else {
                assert(start[i] == seen.entries()[i]);
                assert(start[j] == seen.entries()[j]);
            }
        }
        assert(seen.entries().take(start.len() as int) =~= start);
    }
    if game_state.is_goal_state() {
        proof {
            lemma_goal_is_solution(n, labels, game_state.cells(), game_state.flags());
        }
        return Some(game_state);
    }
    let moves = game_state.valid_placements();
    let mut i: usize = 0;
    while i < moves.len()
        invariant
            game_state.wf(),
            !game_state.goal_spec(),
            n == game_state.n(),
            labels == game_state.labels(),
            seen.wf(),
            seen.distinct(),
            start == old(seen).entries(),
            seen.entries().len() > start.len(),
            seen.entries().take(start.len() as int) == start,
            seen.entries()[start.len() as int] == game_state.cells(),
            seen_ok(start, game_state),
            forall|k: int|
                start.len() < k < seen.entries().len() ==> dead_end(n, labels, #[trigger] seen.entries()[k]),
            i <= moves@.len(),
            forall|m: int|
                0 <= m < moves@.len() ==> {
                    let p = #[trigger] moves@[m];
                    &&& p.0 < n
                    &&& p.1 < n
                    &&& crate::rules::placeable(n, labels, game_state.cells(), game_state.flags(), idx_of(n, p))
                },
            forall|m: int|
                0 <= m < i ==> dead_end(
                    n,
                    labels,
                    crate::rules::cells_after(
                        n,
                        labels,
                        game_state.cells(),
                        game_state.flags(),
                        idx_of(n, #[trigger] moves@[m]),
                    ),
                ),
        decreases moves@.len() - i,
    {
        let (r, c) = moves[i];
        let child = game_state.place_queen(r, c);
        let ghost before = seen.entries();
        proof {
            crate::rules::lemma_cell_index(n, r as int, c as int);
            lemma_place_progress(n, labels, game_state.cells(), game_state.flags(), idx_of(n, (r, c)));
            assert forall|k: int| 0 <= k < before.len() implies dead_end(
                child.n(),
                child.labels(),
                #[trigger] before[k],
            ) || empty_count(before[k]) > empty_count(child.cells()) by {
                if k < start.len() {
                    assert(before[k] == start[k]);
                } else if k > start.len() {
                }
            }
        }
        let found = dfs_helper(child, seen);
        proof {
            assert forall|k: int| 0 <= k < before.len() implies #[trigger] seen.entries()[k] == before[k] by {
                assert(seen.entries().take(before.len() as int)[k] == before[k]);
            }
            assert(seen.entries().take(start.len() as int) =~= start) by {
                assert forall|k: int| 0 <= k < start.len() implies seen.entries()[k] == start[k] by {
                    assert(before[k] == start[k]);
                }
            }
        }
        match found {
            Some(sol) => {
                proof {
                    assert(seen.entries().len() >= before.len());
                    assert(seen.entries().take(start.len() as int) =~= start);
                    assert(seen.entries()[start.len() as int] == before[start.len() as int]);
                    assert forall|j: int|
                        0 <= j < game_state.cells().len() && #[trigger] game_state.cells()[j]
                            == CellState::Queen implies sol.cells()[j] == CellState::Queen by {
                        assert(child.cells()[j] == CellState::Queen);
                    }
                }
                return Some(sol);
            },
            None => {},
        }
        i += 1;
    }
    proof {
        assert forall|q: Seq<bool>| #[trigger] is_solution(n, labels, q) implies !admits(
            game_state.cells(),
            q,
        ) by {
            if admits(game_state.cells(), q) {
                let reg = choose|reg: int| 0 <= reg < n && !game_state.flags()[reg];
                assert(region_covered(n, labels, q, reg));
                let t = choose|t: int| 0 <= t < n * n && q[t] && labels[t] == reg;
                if game_state.cells()[t] == CellState::Queen {
                    assert(crate::rules::has_queen(labels, game_state.cells(), reg));
                }
                lemma_solution_cell_placeable(n, labels, game_state.cells(), game_state.flags(), q, t);
                assert(moves@.contains(pos_of(n, t)));
                let m = choose|m: int| 0 <= m < moves@.len() && moves@[m] == pos_of(n, t);
                crate::rules::lemma_cell_position(n, t);
                assert(idx_of(n, moves@[m]) == t);
                lemma_place_admits(n, labels, game_state.cells(), game_state.flags(), q, t);
            }
        }
    }
    None
}

/// Searches depth first from `game_state` for a node whose regions all hold a
/// queen. Returns it, or `None` when no solution can be reached from
/// `game_state`, together with the number of distinct cell vectors expanded.
pub fn depth_first_search(game_state: GameState) -> (r: (Option<GameState>, usize))
    requires
        game_state.wf(),
    ensures
        match r.0 {
            Some(sol) => solves(game_state, sol),
            None => dead_end(game_state.n(), game_state.labels(), game_state.cells()),
        },
        r.1 >= 1,
{
    let (solution, seen) = search_recording(game_state);
    (solution, seen.len())
}

/// As `depth_first_search`, and hands back the record of the cell vectors
/// expanded, in the order they were expanded: none twice, the start first.
pub fn search_recording(game_state: GameState) -> (r: (Option<GameState>, VisitedSet))
    requires
        game_state.wf(),
    ensures
        match r.0 {
            Some(sol) => solves(game_state, sol),
            None => dead_end(game_state.n(), game_state.labels(), game_state.cells()),
        },
        r.1.wf(),
        r.1.distinct(),
        r.1.entries().len() >= 1,
        r.1.entries()[0] == game_state.cells(),
{
    let mut seen = VisitedSet::new();
    let solution = dfs_helper(game_state, &mut seen);
    (solution, seen)
}

} // verus!
