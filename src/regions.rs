//! Normalisation of region labels: the distinct labels of a grid, sorted
//! ascending, are renamed `0, 1, 2, ...` in that order.
use vstd::prelude::*;

verus! {

/// Whether `row` holds the label `v`.
pub open spec fn row_contains(row: Seq<u8>, v: int) -> bool {
    exists|j: int| 0 <= j < row.len() && row[j] == v
}

/// Whether the label `v` occurs in the grid.
pub open spec fn label_present(grid: Seq<Seq<u8>>, v: int) -> bool {
    exists|i: int| 0 <= i < grid.len() && #[trigger] row_contains(grid[i], v)
}

/// The number of distinct labels of the grid that are below `l`.
pub open spec fn labels_below(grid: Seq<Seq<u8>>, l: int) -> nat
    decreases l,
{
    if l <= 0 {
        0
    } else {
        labels_below(grid, l - 1) + if label_present(grid, l - 1) {
            1nat
        } else {
            0nat
        }
    }
}

/// The number of distinct labels of the grid.
pub open spec fn label_count(grid: Seq<Seq<u8>>) -> nat {
    labels_below(grid, 256)
}

/// The grid with each label replaced by its rank among the grid's distinct labels.
pub open spec fn normalized(grid: Seq<Seq<u8>>) -> Seq<Seq<u8>> {
    grid.map_values(|row: Seq<u8>| row.map_values(|v: u8| labels_below(grid, v as int) as u8))
}

pub proof fn lemma_labels_below_bounded(grid: Seq<Seq<u8>>, l: int)
    requires
        0 <= l,
    ensures
        labels_below(grid, l) <= l,
    decreases l,
{
    if l > 0 {
        lemma_labels_below_bounded(grid, l - 1);
    }
}

pub proof fn lemma_labels_below_monotone(grid: Seq<Seq<u8>>, a: int, b: int)
    requires
        0 <= a <= b,
    ensures
        labels_below(grid, a) <= labels_below(grid, b),
    decreases b - a,
{
    if a < b {
        lemma_labels_below_monotone(grid, a, b - 1);
    }
}

/// A label that occurs has a rank below the number of distinct labels.
pub proof fn lemma_rank_below_count(grid: Seq<Seq<u8>>, v: int)
    requires
        0 <= v < 256,
        label_present(grid, v),
    ensures
        labels_below(grid, v) < label_count(grid),
{
    assert(labels_below(grid, v + 1) == labels_below(grid, v) + 1);
    lemma_labels_below_monotone(grid, v + 1, 256);
}

/// Marks in `table` every label of `row`.
fn mark_row_labels(row: &Vec<u8>, table: &mut Vec<bool>)
    requires
        old(table)@.len() == 256,
    ensures
        final(table)@.len() == 256,
        forall|v: int|
            0 <= v < 256 ==> #[trigger] final(table)@[v] == (old(table)@[v] || row_contains(
                row@,
                v,
            )),
{
    let mut j: usize = 0;
    while j < row.len()
        invariant
            j <= row@.len(),
            table@.len() == 256,
            forall|v: int|
                0 <= v < 256 ==> #[trigger] table@[v] == (old(table)@[v] || exists|k: int|
                    0 <= k < j && row@[k] == v),
        decreases row@.len() - j,
    {
        let v = row[j];
        table.set(v as usize, true);
        assert forall|w: int| 0 <= w < 256 implies #[trigger] table@[w] == (old(table)@[w]
            || exists|k: int| 0 <= k < j + 1 && row@[k] == w) by {
            if w == v as int {
                assert(row@[j as int] == w);
            }
        }
        j += 1;
    }
}

/// A table of the 256 labels, true where the label occurs in the grid.
fn label_table(grid: &Vec<Vec<u8>>) -> (table: Vec<bool>)
    ensures
        table@.len() == 256,
        forall|v: int| 0 <= v < 256 ==> #[trigger] table@[v] == label_present(grid.deep_view(), v),
{
    let mut table: Vec<bool> = Vec::new();
    let mut v: usize = 0;
    while v < 256
        invariant
            v <= 256,
            table@.len() == v,
            forall|w: int| 0 <= w < v ==> !#[trigger] table@[w],
        decreases 256 - v,
    {
        table.push(false);
        v += 1;
    }
    let ghost g = grid.deep_view();
    let mut i: usize = 0;
    while i < grid.len()
        invariant
            i <= grid@.len(),
            g == grid.deep_view(),
            table@.len() == 256,
            forall|w: int|
                0 <= w < 256 ==> #[trigger] table@[w] == exists|k: int|
                    0 <= k < i && #[trigger] row_contains(g[k], w),
        decreases grid@.len() - i,
    {
        let ghost before = table@;
        mark_row_labels(&grid[i], &mut table);
        assert(g[i as int] == grid@[i as int]@);
        assert forall|w: int| 0 <= w < 256 implies #[trigger] table@[w] == exists|k: int|
            0 <= k < i + 1 && #[trigger] row_contains(g[k], w) by {
            if row_contains(g[i as int], w) {
                assert(0 <= i < i + 1);
            }
            if exists|k: int| 0 <= k < i + 1 && #[trigger] row_contains(g[k], w) {
                let k = choose|k: int| 0 <= k < i + 1 && #[trigger] row_contains(g[k], w);
                if k < i {
                    assert(before[w]);
                }
            }
        }
        i += 1;
    }
    table
}

/// For every label, the number of distinct labels of the grid below it; and
/// the number of distinct labels.
fn label_ranks(table: &Vec<bool>, Ghost(grid): Ghost<Seq<Seq<u8>>>) -> (r: (Vec<u8>, usize))
    requires
        table@.len() == 256,
        forall|v: int| 0 <= v < 256 ==> #[trigger] table@[v] == label_present(grid, v),
    ensures
        r.0@.len() == 256,
        forall|v: int| 0 <= v < 256 ==> #[trigger] r.0@[v] == labels_below(grid, v),
        r.1 == label_count(grid),
{
    let mut ranks: Vec<u8> = Vec::new();
    let mut count: usize = 0;
    let mut v: usize = 0;
    while v < 256
        invariant
            v <= 256,
            ranks@.len() == v,
            count == labels_below(grid, v as int),
            count <= v,
            table@.len() == 256,
            forall|w: int| 0 <= w < 256 ==> #[trigger] table@[w] == label_present(grid, w),
            forall|w: int| 0 <= w < v ==> #[trigger] ranks@[w] == labels_below(grid, w),
        decreases 256 - v,
    {
        ranks.push(count as u8);
        if table[v] {
            count += 1;
        }
        v += 1;
    }
    (ranks, count)
}

/// The number of distinct labels in the grid.
pub fn count_labels(grid: &Vec<Vec<u8>>) -> (r: usize)
    ensures
        r == label_count(grid.deep_view()),
{
    let table = label_table(grid);
    let (_, count) = label_ranks(&table, Ghost(grid.deep_view()));
    count
}

/// Renames the labels of the grid: the distinct labels, sorted ascending,
/// become `0, 1, 2, ...` in that order. The shape of the grid is kept.
pub fn normalize_colors(color_regions: Vec<Vec<u8>>) -> (r: Vec<Vec<u8>>)
    ensures
        r.deep_view() == normalized(color_regions.deep_view()),
{
    let ghost g = color_regions.deep_view();
    let table = label_table(&color_regions);
    let (ranks, _) = label_ranks(&table, Ghost(g));
    let mut out: Vec<Vec<u8>> = Vec::new();
    let mut i: usize = 0;
    while i < color_regions.len()
        invariant
            i <= color_regions@.len(),
            g == color_regions.deep_view(),
            ranks@.len() == 256,
            forall|v: int| 0 <= v < 256 ==> #[trigger] ranks@[v] == labels_below(g, v),
            out@.len() == i,
            forall|k: int| 0 <= k < i ==> #[trigger] out@[k]@ == normalized(g)[k],
        decreases color_regions@.len() - i,
    {
        let row = &color_regions[i];
        assert(row@ == g[i as int]);
        let mut new_row: Vec<u8> = Vec::new();
        let mut j: usize = 0;
        while j < row.len()
            invariant
                j <= row@.len(),
                ranks@.len() == 256,
                forall|v: int| 0 <= v < 256 ==> #[trigger] ranks@[v] == labels_below(g, v),
                new_row@.len() == j,
                forall|k: int|
                    0 <= k < j ==> #[trigger] new_row@[k] == labels_below(g, row@[k] as int) as u8,
            decreases row@.len() - j,
        {
            new_row.push(ranks[row[j] as usize]);
            j += 1;
        }
        assert(new_row@ =~= normalized(g)[i as int]);
        out.push(new_row);
        i += 1;
    }
    assert(out.deep_view() =~= normalized(g)) by {
        assert forall|k: int| 0 <= k < out@.len() implies #[trigger] out.deep_view()[k] == normalized(
            g,
        )[k] by {
            assert(out.deep_view()[k] == out@[k].deep_view());
            assert(out@[k].deep_view() =~= out@[k]@);
        }
    }
    out
}

} // verus!
