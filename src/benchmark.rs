//! What a benchmark run is configured with and what it records.
use vstd::prelude::*;

use crate::heuristic::Scorer;

verus! {

/// The move orderings a benchmark compares.
#[derive(Debug, Clone, Copy, PartialEq, Eq, Structural)]
pub enum Heuristic {
    NoHeuristic,
    SmallestRegionFirst,
    SmallestRegionByEmptyCells,
}

impl Heuristic {
    /// The name under which results are filed.
    pub fn name(&self) -> (r: &'static str)
        ensures
            r@ == match *self {
                Heuristic::NoHeuristic => "no-heuristic"@,
                Heuristic::SmallestRegionFirst => "smallest-region-first"@,
                Heuristic::SmallestRegionByEmptyCells => "smallest-region-by-empty-cells"@,
            },
    {
        match self {
            Heuristic::NoHeuristic => "no-heuristic",
            Heuristic::SmallestRegionFirst => "smallest-region-first",
            Heuristic::SmallestRegionByEmptyCells => "smallest-region-by-empty-cells",
        }
    }

    /// Every ordering, plain search first.
    pub fn all() -> (r: Vec<Heuristic>)
        ensures
            r@ == seq![
                Heuristic::NoHeuristic,
                Heuristic::SmallestRegionFirst,
                Heuristic::SmallestRegionByEmptyCells,
            ],
    {
        let mut r: Vec<Heuristic> = Vec::new();
        r.push(Heuristic::NoHeuristic);
        r.push(Heuristic::SmallestRegionFirst);
        r.push(Heuristic::SmallestRegionByEmptyCells);
        assert(r@ =~= seq![
            Heuristic::NoHeuristic,
            Heuristic::SmallestRegionFirst,
            Heuristic::SmallestRegionByEmptyCells,
        ]);
        r
    }

    /// The scoring rule the search is given: none for plain search.
    pub fn to_fn(&self) -> (r: Option<Scorer>)
        ensures
            r == match *self {
                Heuristic::NoHeuristic => None,
                Heuristic::SmallestRegionFirst => Some(Scorer::SmallestRegionFirst),
                Heuristic::SmallestRegionByEmptyCells => Some(Scorer::SmallestRegionByEmptyCells),
            },
    {
        match self {
            Heuristic::NoHeuristic => None,
            Heuristic::SmallestRegionFirst => Some(Scorer::SmallestRegionFirst),
            Heuristic::SmallestRegionByEmptyCells => Some(Scorer::SmallestRegionByEmptyCells),
        }
    }
}

/// One row of benchmark output: a level, how long its search took on
/// average, how many nodes it visited, and whether it found a solution.
#[derive(Debug, Clone)]
pub struct BenchmarkResult {
    pub id: u32,
    pub size: u32,
    pub duration_ns: u128,
    pub steps_taken: usize,
    pub solved: bool,
}

} // verus!
