use queen_sweep::{sort_by_id, Heuristic, LevelData, LevelLoader, LevelSource, Scorer};

fn level(id: u32, source: LevelSource) -> LevelData {
    LevelData { id, size: 1, regions: vec![vec![0]], source }
}

#[test]
fn heuristic_names() {
    assert_eq!(Heuristic::NoHeuristic.name(), "no-heuristic");
    assert_eq!(Heuristic::SmallestRegionFirst.name(), "smallest-region-first");
    assert_eq!(Heuristic::SmallestRegionByEmptyCells.name(), "smallest-region-by-empty-cells");
}

#[test]
fn heuristic_all_and_scorers() {
    assert_eq!(
        Heuristic::all(),
        vec![
            Heuristic::NoHeuristic,
            Heuristic::SmallestRegionFirst,
            Heuristic::SmallestRegionByEmptyCells
        ]
    );
    assert_eq!(Heuristic::NoHeuristic.to_fn(), None);
    assert_eq!(Heuristic::SmallestRegionFirst.to_fn(), Some(Scorer::SmallestRegionFirst));
    assert_eq!(
        Heuristic::SmallestRegionByEmptyCells.to_fn(),
        Some(Scorer::SmallestRegionByEmptyCells)
    );
}

#[test]
fn levels_sort_by_id_stably() {
    let levels = vec![
        level(3, LevelSource::BaseLevels),
        level(1, LevelSource::BaseLevels),
        level(3, LevelSource::BonusLevels),
        level(2, LevelSource::CommunityLevels),
    ];
    let sorted = sort_by_id(levels);
    let ids: Vec<u32> = sorted.iter().map(|l| l.id).collect();
    assert_eq!(ids, vec![1, 2, 3, 3]);
    assert_eq!(sorted[2].source, LevelSource::BaseLevels);
    assert_eq!(sorted[3].source, LevelSource::BonusLevels);
    assert!(sort_by_id(Vec::new()).is_empty());
}

#[test]
fn load_all_merges_collections() {
    let base = vec![level(5, LevelSource::BaseLevels), level(1, LevelSource::BaseLevels)];
    let bonus = vec![level(5, LevelSource::BonusLevels)];
    let community = vec![level(2, LevelSource::CommunityLevels)];
    let all = LevelLoader::load_all(base, bonus, community);
    let keys: Vec<(u32, LevelSource)> = all.iter().map(|l| (l.id, l.source.clone())).collect();
    assert_eq!(
        keys,
        vec![
            (1, LevelSource::BaseLevels),
            (2, LevelSource::CommunityLevels),
            (5, LevelSource::BaseLevels),
            (5, LevelSource::BonusLevels)
        ]
    );
}
