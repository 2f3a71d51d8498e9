//! Sample boards: grids of region labels, one row per line.
use vstd::prelude::*;

verus! {

/// An 8×8 board with a solution.
pub fn puzzle_8x8_sol() -> (r: Vec<Vec<u8>>)
    ensures
        r.deep_view() == seq![
            seq![0u8, 0, 1, 1, 1, 2, 2, 2],
            seq![0u8, 3, 1, 3, 1, 4, 2, 2],
            seq![0u8, 3, 1, 3, 1, 2, 2, 2],
            seq![0u8, 3, 3, 3, 1, 5, 6, 2],
            seq![0u8, 3, 3, 3, 1, 5, 6, 6],
            seq![0u8, 3, 7, 3, 1, 5, 6, 6],
            seq![7u8, 3, 7, 3, 1, 5, 5, 6],
            seq![7u8, 7, 7, 7, 6, 6, 6, 6],
        ],
{
    let r = vec![
        vec![0, 0, 1, 1, 1, 2, 2, 2],
        vec![0, 3, 1, 3, 1, 4, 2, 2],
        vec![0, 3, 1, 3, 1, 2, 2, 2],
        vec![0, 3, 3, 3, 1, 5, 6, 2],
        vec![0, 3, 3, 3, 1, 5, 6, 6],
        vec![0, 3, 7, 3, 1, 5, 6, 6],
        vec![7, 3, 7, 3, 1, 5, 5, 6],
        vec![7, 7, 7, 7, 6, 6, 6, 6],
    ];
    assert(r.deep_view() =~= seq![
        seq![0u8, 0, 1, 1, 1, 2, 2, 2],
        seq![0u8, 3, 1, 3, 1, 4, 2, 2],
        seq![0u8, 3, 1, 3, 1, 2, 2, 2],
        seq![0u8, 3, 3, 3, 1, 5, 6, 2],
        seq![0u8, 3, 3, 3, 1, 5, 6, 6],
        seq![0u8, 3, 7, 3, 1, 5, 6, 6],
        seq![7u8, 3, 7, 3, 1, 5, 5, 6],
        seq![7u8, 7, 7, 7, 6, 6, 6, 6],
    ]) by {
        assert(r.deep_view()[0] =~= seq![0u8, 0, 1, 1, 1, 2, 2, 2]);
        assert(r.deep_view()[1] =~= seq![0u8, 3, 1, 3, 1, 4, 2, 2]);
        assert(r.deep_view()[2] =~= seq![0u8, 3, 1, 3, 1, 2, 2, 2]);
        assert(r.deep_view()[3] =~= seq![0u8, 3, 3, 3, 1, 5, 6, 2]);
        assert(r.deep_view()[4] =~= seq![0u8, 3, 3, 3, 1, 5, 6, 6]);
        assert(r.deep_view()[5] =~= seq![0u8, 3, 7, 3, 1, 5, 6, 6]);
        assert(r.deep_view()[6] =~= seq![7u8, 3, 7, 3, 1, 5, 5, 6]);
        assert(r.deep_view()[7] =~= seq![7u8, 7, 7, 7, 6, 6, 6, 6]);
    }
    r
}

/// A 3×3 board with no solution.
pub fn puzzle_3x3_nosol() -> (r: Vec<Vec<u8>>)
    ensures
        r.deep_view() == seq![
            seq![0u8, 0, 1],
            seq![1u8, 1, 2],
            seq![2u8, 2, 2],
        ],
{
    let r = vec![
        vec![0, 0, 1],
        vec![1, 1, 2],
        vec![2, 2, 2],
    ];
    assert(r.deep_view() =~= seq![
        seq![0u8, 0, 1],
        seq![1u8, 1, 2],
        seq![2u8, 2, 2],
    ]) by {
        assert(r.deep_view()[0] =~= seq![0u8, 0, 1]);
        assert(r.deep_view()[1] =~= seq![1u8, 1, 2]);
        assert(r.deep_view()[2] =~= seq![2u8, 2, 2]);
    }
    r
}

/// An 11×11 board.
pub fn puzzle_11x11() -> (r: Vec<Vec<u8>>)
    ensures
        r.deep_view() == seq![
            seq![0u8, 1, 1, 1, 2, 2, 2, 2, 2, 2, 2],
            seq![0u8, 3, 3, 1, 1, 1, 2, 2, 2, 2, 2],
            seq![0u8, 3, 3, 1, 1, 2, 2, 2, 2, 2, 2],
            seq![0u8, 0, 0, 0, 2, 2, 2, 4, 4, 4, 4],
            seq![0u8, 5, 5, 6, 7, 7, 2, 2, 2, 4, 4],
            seq![0u8, 5, 5, 6, 7, 7, 7, 7, 7, 7, 4],
            seq![0u8, 5, 5, 6, 7, 7, 7, 7, 7, 7, 4],
            seq![0u8, 5, 5, 6, 7, 7, 8, 9, 7, 7, 4],
            seq![0u8, 5, 5, 6, 7, 7, 8, 9, 7, 7, 8],
            seq![10u8, 5, 5, 6, 7, 7, 8, 9, 7, 7, 8],
            seq![10u8, 10, 10, 6, 6, 8, 8, 8, 8, 8, 8],
        ],
{
    let r = vec![
        vec![0, 1, 1, 1, 2, 2, 2, 2, 2, 2, 2],
        vec![0, 3, 3, 1, 1, 1, 2, 2, 2, 2, 2],
        vec![0, 3, 3, 1, 1, 2, 2, 2, 2, 2, 2],
        vec![0, 0, 0, 0, 2, 2, 2, 4, 4, 4, 4],
        vec![0, 5, 5, 6, 7, 7, 2, 2, 2, 4, 4],
        vec![0, 5, 5, 6, 7, 7, 7, 7, 7, 7, 4],
        vec![0, 5, 5, 6, 7, 7, 7, 7, 7, 7, 4],
        vec![0, 5, 5, 6, 7, 7, 8, 9, 7, 7, 4],
        vec![0, 5, 5, 6, 7, 7, 8, 9, 7, 7, 8],
        vec![10, 5, 5, 6, 7, 7, 8, 9, 7, 7, 8],
        vec![10, 10, 10, 6, 6, 8, 8, 8, 8, 8, 8],
    ];
    assert(r.deep_view() =~= seq![
        seq![0u8, 1, 1, 1, 2, 2, 2, 2, 2, 2, 2],
        seq![0u8, 3, 3, 1, 1, 1, 2, 2, 2, 2, 2],
        seq![0u8, 3, 3, 1, 1, 2, 2, 2, 2, 2, 2],
        seq![0u8, 0, 0, 0, 2, 2, 2, 4, 4, 4, 4],
        seq![0u8, 5, 5, 6, 7, 7, 2, 2, 2, 4, 4],
        seq![0u8, 5, 5, 6, 7, 7, 7, 7, 7, 7, 4],
        seq![0u8, 5, 5, 6, 7, 7, 7, 7, 7, 7, 4],
        seq![0u8, 5, 5, 6, 7, 7, 8, 9, 7, 7, 4],
        seq![0u8, 5, 5, 6, 7, 7, 8, 9, 7, 7, 8],
        seq![10u8, 5, 5, 6, 7, 7, 8, 9, 7, 7, 8],
        seq![10u8, 10, 10, 6, 6, 8, 8, 8, 8, 8, 8],
    ]) by {
        assert(r.deep_view()[0] =~= seq![0u8, 1, 1, 1, 2, 2, 2, 2, 2, 2, 2]);
        assert(r.deep_view()[1] =~= seq![0u8, 3, 3, 1, 1, 1, 2, 2, 2, 2, 2]);
        assert(r.deep_view()[2] =~= seq![0u8, 3, 3, 1, 1, 2, 2, 2, 2, 2, 2]);
        assert(r.deep_view()[3] =~= seq![0u8, 0, 0, 0, 2, 2, 2, 4, 4, 4, 4]);
        assert(r.deep_view()[4] =~= seq![0u8, 5, 5, 6, 7, 7, 2, 2, 2, 4, 4]);
        assert(r.deep_view()[5] =~= seq![0u8, 5, 5, 6, 7, 7, 7, 7, 7, 7, 4]);
        assert(r.deep_view()[6] =~= seq![0u8, 5, 5, 6, 7, 7, 7, 7, 7, 7, 4]);
        assert(r.deep_view()[7] =~= seq![0u8, 5, 5, 6, 7, 7, 8, 9, 7, 7, 4]);
        assert(r.deep_view()[8] =~= seq![0u8, 5, 5, 6, 7, 7, 8, 9, 7, 7, 8]);
        assert(r.deep_view()[9] =~= seq![10u8, 5, 5, 6, 7, 7, 8, 9, 7, 7, 8]);
        assert(r.deep_view()[10] =~= seq![10u8, 10, 10, 6, 6, 8, 8, 8, 8, 8, 8]);
    }
    r
}

/// An 8×8 board.
pub fn puzzle_8x8() -> (r: Vec<Vec<u8>>)
    ensures
        r.deep_view() == seq![
            seq![0u8, 0, 1, 1, 1, 2, 2, 2],
            seq![0u8, 3, 1, 3, 1, 4, 2, 2],
            seq![0u8, 3, 1, 3, 1, 2, 2, 2],
            seq![0u8, 3, 3, 3, 1, 5, 6, 2],
            seq![0u8, 3, 3, 3, 1, 5, 6, 6],
            seq![0u8, 3, 7, 3, 1, 5, 6, 6],
            seq![7u8, 3, 7, 3, 1, 5, 5, 6],
            seq![7u8, 7, 7, 7, 6, 6, 6, 6],
        ],
{
    let r = vec![
        vec![0, 0, 1, 1, 1, 2, 2, 2],
        vec![0, 3, 1, 3, 1, 4, 2, 2],
        vec![0, 3, 1, 3, 1, 2, 2, 2],
        vec![0, 3, 3, 3, 1, 5, 6, 2],
        vec![0, 3, 3, 3, 1, 5, 6, 6],
        vec![0, 3, 7, 3, 1, 5, 6, 6],
        vec![7, 3, 7, 3, 1, 5, 5, 6],
        vec![7, 7, 7, 7, 6, 6, 6, 6],
    ];
    assert(r.deep_view() =~= seq![
        seq![0u8, 0, 1, 1, 1, 2, 2, 2],
        seq![0u8, 3, 1, 3, 1, 4, 2, 2],
        seq![0u8, 3, 1, 3, 1, 2, 2, 2],
        seq![0u8, 3, 3, 3, 1, 5, 6, 2],
        seq![0u8, 3, 3, 3, 1, 5, 6, 6],
        seq![0u8, 3, 7, 3, 1, 5, 6, 6],
        seq![7u8, 3, 7, 3, 1, 5, 5, 6],
        seq![7u8, 7, 7, 7, 6, 6, 6, 6],
    ]) by {
        assert(r.deep_view()[0] =~= seq![0u8, 0, 1, 1, 1, 2, 2, 2]);
        assert(r.deep_view()[1] =~= seq![0u8, 3, 1, 3, 1, 4, 2, 2]);
        assert(r.deep_view()[2] =~= seq![0u8, 3, 1, 3, 1, 2, 2, 2]);
        assert(r.deep_view()[3] =~= seq![0u8, 3, 3, 3, 1, 5, 6, 2]);
        assert(r.deep_view()[4] =~= seq![0u8, 3, 3, 3, 1, 5, 6, 6]);
        assert(r.deep_view()[5] =~= seq![0u8, 3, 7, 3, 1, 5, 6, 6]);
        assert(r.deep_view()[6] =~= seq![7u8, 3, 7, 3, 1, 5, 5, 6]);
        assert(r.deep_view()[7] =~= seq![7u8, 7, 7, 7, 6, 6, 6, 6]);
    }
    r
}

/// A 13×13 board.
pub fn puzzle_13x13() -> (r: Vec<Vec<u8>>)
    ensures
        r.deep_view() == seq![
            seq![0u8, 0, 0, 0, 0, 0, 1, 1, 1, 2, 2, 2, 3],
            seq![0u8, 0, 0, 0, 0, 0, 0, 1, 1, 4, 4, 4, 3],
            seq![0u8, 0, 0, 0, 0, 0, 5, 5, 1, 1, 4, 3, 3],
            seq![0u8, 0, 0, 0, 0, 0, 5, 5, 5, 1, 1, 1, 1],
            seq![0u8, 0, 0, 0, 0, 0, 0, 5, 6, 1, 6, 1, 1],
            seq![0u8, 0, 0, 0, 0, 0, 0, 5, 6, 6, 6, 6, 6],
            seq![0u8, 0, 7, 7, 8, 8, 8, 5, 5, 5, 6, 6, 6],
            seq![9u8, 7, 7, 7, 8, 8, 8, 5, 5, 6, 6, 5, 6],
            seq![9u8, 7, 9, 7, 7, 8, 8, 8, 5, 5, 5, 5, 5],
            seq![9u8, 9, 9, 7, 7, 7, 7, 8, 10, 10, 5, 5, 5],
            seq![9u8, 9, 11, 11, 7, 7, 7, 8, 10, 10, 10, 10, 10],
            seq![12u8, 9, 11, 11, 11, 7, 11, 11, 10, 10, 10, 10, 10],
            seq![12u8, 12, 12, 12, 11, 11, 11, 10, 10, 10, 10, 10, 10],
        ],
{
    let r = vec![
        vec![0, 0, 0, 0, 0, 0, 1, 1, 1, 2, 2, 2, 3],
        vec![0, 0, 0, 0, 0, 0, 0, 1, 1, 4, 4, 4, 3],
        vec![0, 0, 0, 0, 0, 0, 5, 5, 1, 1, 4, 3, 3],
        vec![0, 0, 0, 0, 0, 0, 5, 5, 5, 1, 1, 1, 1],
        vec![0, 0, 0, 0, 0, 0, 0, 5, 6, 1, 6, 1, 1],
        vec![0, 0, 0, 0, 0, 0, 0, 5, 6, 6, 6, 6, 6],
        vec![0, 0, 7, 7, 8, 8, 8, 5, 5, 5, 6, 6, 6],
        vec![9, 7, 7, 7, 8, 8, 8, 5, 5, 6, 6, 5, 6],
        vec![9, 7, 9, 7, 7, 8, 8, 8, 5, 5, 5, 5, 5],
        vec![9, 9, 9, 7, 7, 7, 7, 8, 10, 10, 5, 5, 5],
        vec![9, 9, 11, 11, 7, 7, 7, 8, 10, 10, 10, 10, 10],
        vec![12, 9, 11, 11, 11, 7, 11, 11, 10, 10, 10, 10, 10],
        vec![12, 12, 12, 12, 11, 11, 11, 10, 10, 10, 10, 10, 10],
    ];
    assert(r.deep_view() =~= seq![
        seq![0u8, 0, 0, 0, 0, 0, 1, 1, 1, 2, 2, 2, 3],
        seq![0u8, 0, 0, 0, 0, 0, 0, 1, 1, 4, 4, 4, 3],
        seq![0u8, 0, 0, 0, 0, 0, 5, 5, 1, 1, 4, 3, 3],
        seq![0u8, 0, 0, 0, 0, 0, 5, 5, 5, 1, 1, 1, 1],
        seq![0u8, 0, 0, 0, 0, 0, 0, 5, 6, 1, 6, 1, 1],
        seq![0u8, 0, 0, 0, 0, 0, 0, 5, 6, 6, 6, 6, 6],
        seq![0u8, 0, 7, 7, 8, 8, 8, 5, 5, 5, 6, 6, 6],
        seq![9u8, 7, 7, 7, 8, 8, 8, 5, 5, 6, 6, 5, 6],
        seq![9u8, 7, 9, 7, 7, 8, 8, 8, 5, 5, 5, 5, 5],
        seq![9u8, 9, 9, 7, 7, 7, 7, 8, 10, 10, 5, 5, 5],
        seq![9u8, 9, 11, 11, 7, 7, 7, 8, 10, 10, 10, 10, 10],
        seq![12u8, 9, 11, 11, 11, 7, 11, 11, 10, 10, 10, 10, 10],
        seq![12u8, 12, 12, 12, 11, 11, 11, 10, 10, 10, 10, 10, 10],
    ]) by {
        assert(r.deep_view()[0] =~= seq![0u8, 0, 0, 0, 0, 0, 1, 1, 1, 2, 2, 2, 3]);
        assert(r.deep_view()[1] =~= seq![0u8, 0, 0, 0, 0, 0, 0, 1, 1, 4, 4, 4, 3]);
        assert(r.deep_view()[2] =~= seq![0u8, 0, 0, 0, 0, 0, 5, 5, 1, 1, 4, 3, 3]);
        assert(r.deep_view()[3] =~= seq![0u8, 0, 0, 0, 0, 0, 5, 5, 5, 1, 1, 1, 1]);
        assert(r.deep_view()[4] =~= seq![0u8, 0, 0, 0, 0, 0, 0, 5, 6, 1, 6, 1, 1]);
        assert(r.deep_view()[5] =~= seq![0u8, 0, 0, 0, 0, 0, 0, 5, 6, 6, 6, 6, 6]);
        assert(r.deep_view()[6] =~= seq![0u8, 0, 7, 7, 8, 8, 8, 5, 5, 5, 6, 6, 6]);
        assert(r.deep_view()[7] =~= seq![9u8, 7, 7, 7, 8, 8, 8, 5, 5, 6, 6, 5, 6]);
        assert(r.deep_view()[8] =~= seq![9u8, 7, 9, 7, 7, 8, 8, 8, 5, 5, 5, 5, 5]);
        assert(r.deep_view()[9] =~= seq![9u8, 9, 9, 7, 7, 7, 7, 8, 10, 10, 5, 5, 5]);
        assert(r.deep_view()[10] =~= seq![9u8, 9, 11, 11, 7, 7, 7, 8, 10, 10, 10, 10, 10]);
        assert(r.deep_view()[11] =~= seq![12u8, 9, 11, 11, 11, 7, 11, 11, 10, 10, 10, 10, 10]);
        assert(r.deep_view()[12] =~= seq![12u8, 12, 12, 12, 11, 11, 11, 10, 10, 10, 10, 10, 10]);
    }
    r
}

/// An 11×11 board with several solutions.
pub fn puzzle_11x11_multiple_solns() -> (r: Vec<Vec<u8>>)
    ensures
        r.deep_view() == seq![
            seq![0u8, 1, 1, 0, 2, 2, 3, 3, 4, 1, 1],
            seq![1u8, 0, 1, 4, 0, 2, 5, 6, 4, 4, 1],
            seq![1u8, 1, 0, 4, 4, 0, 7, 8, 6, 4, 4],
            seq![0u8, 4, 4, 0, 9, 10, 0, 7, 8, 6, 3],
            seq![2u8, 0, 4, 9, 0, 9, 10, 0, 7, 5, 3],
            seq![2u8, 2, 0, 10, 9, 0, 9, 10, 0, 2, 2],
            seq![3u8, 5, 7, 0, 10, 9, 0, 9, 4, 0, 2],
            seq![3u8, 6, 8, 7, 0, 10, 9, 0, 4, 4, 0],
            seq![4u8, 4, 6, 8, 7, 0, 4, 4, 0, 1, 1],
            seq![1u8, 4, 4, 6, 5, 2, 0, 4, 1, 0, 1],
            seq![1u8, 1, 4, 3, 3, 2, 2, 0, 1, 1, 0],
        ],
{
    let r = vec![
        vec![0, 1, 1, 0, 2, 2, 3, 3, 4, 1, 1],
        vec![1, 0, 1, 4, 0, 2, 5, 6, 4, 4, 1],
        vec![1, 1, 0, 4, 4, 0, 7, 8, 6, 4, 4],
        vec![0, 4, 4, 0, 9, 10, 0, 7, 8, 6, 3],
        vec![2, 0, 4, 9, 0, 9, 10, 0, 7, 5, 3],
        vec![2, 2, 0, 10, 9, 0, 9, 10, 0, 2, 2],
        vec![3, 5, 7, 0, 10, 9, 0, 9, 4, 0, 2],
        vec![3, 6, 8, 7, 0, 10, 9, 0, 4, 4, 0],
        vec![4, 4, 6, 8, 7, 0, 4, 4, 0, 1, 1],
        vec![1, 4, 4, 6, 5, 2, 0, 4, 1, 0, 1],
        vec![1, 1, 4, 3, 3, 2, 2, 0, 1, 1, 0],
    ];
    assert(r.deep_view() =~= seq![
        seq![0u8, 1, 1, 0, 2, 2, 3, 3, 4, 1, 1],
        seq![1u8, 0, 1, 4, 0, 2, 5, 6, 4, 4, 1],
        seq![1u8, 1, 0, 4, 4, 0, 7, 8, 6, 4, 4],
        seq![0u8, 4, 4, 0, 9, 10, 0, 7, 8, 6, 3],
        seq![2u8, 0, 4, 9, 0, 9, 10, 0, 7, 5, 3],
        seq![2u8, 2, 0, 10, 9, 0, 9, 10, 0, 2, 2],
        seq![3u8, 5, 7, 0, 10, 9, 0, 9, 4, 0, 2],
        seq![3u8, 6, 8, 7, 0, 10, 9, 0, 4, 4, 0],
        seq![4u8, 4, 6, 8, 7, 0, 4, 4, 0, 1, 1],
        seq![1u8, 4, 4, 6, 5, 2, 0, 4, 1, 0, 1],
        seq![1u8, 1, 4, 3, 3, 2, 2, 0, 1, 1, 0],
    ]) by {
        assert(r.deep_view()[0] =~= seq![0u8, 1, 1, 0, 2, 2, 3, 3, 4, 1, 1]);
        assert(r.deep_view()[1] =~= seq![1u8, 0, 1, 4, 0, 2, 5, 6, 4, 4, 1]);
        assert(r.deep_view()[2] =~= seq![1u8, 1, 0, 4, 4, 0, 7, 8, 6, 4, 4]);
        assert(r.deep_view()[3] =~= seq![0u8, 4, 4, 0, 9, 10, 0, 7, 8, 6, 3]);
        assert(r.deep_view()[4] =~= seq![2u8, 0, 4, 9, 0, 9, 10, 0, 7, 5, 3]);
        assert(r.deep_view()[5] =~= seq![2u8, 2, 0, 10, 9, 0, 9, 10, 0, 2, 2]);
        assert(r.deep_view()[6] =~= seq![3u8, 5, 7, 0, 10, 9, 0, 9, 4, 0, 2]);
        assert(r.deep_view()[7] =~= seq![3u8, 6, 8, 7, 0, 10, 9, 0, 4, 4, 0]);
        assert(r.deep_view()[8] =~= seq![4u8, 4, 6, 8, 7, 0, 4, 4, 0, 1, 1]);
        assert(r.deep_view()[9] =~= seq![1u8, 4, 4, 6, 5, 2, 0, 4, 1, 0, 1]);
        assert(r.deep_view()[10] =~= seq![1u8, 1, 4, 3, 3, 2, 2, 0, 1, 1, 0]);
    }
    r
}

} // verus!
