//! Puzzle levels as the benchmark reads them, and their order.
use vstd::prelude::*;

verus! {

/// Where a level comes from.
#[derive(Debug, Clone, PartialEq, Eq, Structural)]
pub enum LevelSource {
    BaseLevels,
    BonusLevels,
    CommunityLevels,
}

/// One puzzle level: its number, side length, region labels and origin.
#[derive(Debug, Clone)]
pub struct LevelData {
    pub id: u32,
    pub size: u32,
    pub regions: Vec<Vec<u8>>,
    pub source: LevelSource,
}

/// The first index at or after `i` whose level number is above `id`.
pub open spec fn first_id_above(s: Seq<LevelData>, id: u32, i: int) -> int
    decreases s.len() - i,
{
    if i >= s.len() {
        s.len() as int
    } else if s[i].id > id {
        i
    } else {
        first_id_above(s, id, i + 1)
    }
}

/// The levels sorted by number; levels with equal numbers keep their order.
pub open spec fn sorted_by_id(s: Seq<LevelData>) -> Seq<LevelData>
    decreases s.len(),
{
    if s.len() == 0 {
        s
    } else {
        let rest = sorted_by_id(s.drop_last());
        rest.insert(first_id_above(rest, s.last().id, 0), s.last())
    }
}

pub proof fn lemma_first_id_above_bounds(s: Seq<LevelData>, id: u32, i: int)
    requires
        0 <= i <= s.len(),
    ensures
        i <= first_id_above(s, id, i) <= s.len(),
    decreases s.len() - i,
{
    if i < s.len() {
        lemma_first_id_above_bounds(s, id, i + 1);
    }
}

/// Sorts levels by number; levels with equal numbers keep their order.
pub fn sort_by_id(levels: Vec<LevelData>) -> (r: Vec<LevelData>)
    ensures
        r@ == sorted_by_id(levels@),
{
    let ghost all = levels@;
    assert(all.len() == levels.len());
    let mut rest = levels;
    let mut sorted: Vec<LevelData> = Vec::new();
    let mut i: usize = 0;
    while rest.len() > 0
        invariant
            i <= all.len(),
            all.len() <= usize::MAX,
            rest@ == all.skip(i as int),
            sorted@ == sorted_by_id(all.take(i as int)),
        decreases rest@.len(),
    {
        let x = rest.remove(0);
        assert(x == all[i as int]);
        let mut p: usize = 0;
        while p < sorted.len() && !(sorted[p].id > x.id)
            invariant
                p <= sorted@.len(),
                first_id_above(sorted@, x.id, 0) == first_id_above(sorted@, x.id, p as int),
            decreases sorted@.len() - p,
        {
            p += 1;
        }
        proof {
            lemma_first_id_above_bounds(sorted@, x.id, 0);
        }
        sorted.insert(p, x);
        assert(all.take(i + 1).drop_last() =~= all.take(i as int));
        assert(all.skip(i + 1) =~= all.skip(i as int).skip(1));
        i += 1;
    }
    assert(all.take(i as int) =~= all);
    sorted
}

/// Reads the level files of a benchmark.
pub struct LevelLoader;

impl LevelLoader {
    /// All levels of the three collections, sorted by number; levels with equal
    /// numbers keep the order base, bonus, community.
    pub fn load_all(base: Vec<LevelData>, bonus: Vec<LevelData>, community: Vec<LevelData>) -> (r: Vec<
        LevelData,
    >)
        ensures
            r@ == sorted_by_id(base@ + bonus@ + community@),
    {
        let mut all: Vec<LevelData> = Vec::new();
        let mut base = base;
        let mut bonus = bonus;
        let mut community = community;
        all.append(&mut base);
        all.append(&mut bonus);
        all.append(&mut community);
        sort_by_id(all)
    }
}

} // verus!
