//! The cache schedule of the fast generator.
//!
//! With the separable camera, a pixel's viewing azimuth depends only on its
//! column and its elevation angle only on its row, so the generator keeps one
//! ray path per row and one terrain sequence per column. This module fixes
//! which cache entries a pixel reads, and pairs the two cached sequences for
//! the tracing pipeline.

use vstd::prelude::*;

verus! {

/// The index of the cached ray path a pixel reads: its row.
pub open spec fn path_cache_index(x: int, y: int) -> int {
    y
}

/// The index of the cached terrain sequence a pixel reads: its column.
pub open spec fn terrain_cache_index(x: int, y: int) -> int {
    x
}

/// The cache entries a pixel reads: the terrain sequence of its column and
/// the ray path of its row.
pub fn fast_cache_indices(x: u16, y: u16) -> (r: (u16, u16))
    ensures
        r.0 as int == terrain_cache_index(x as int, y as int),
        r.1 as int == path_cache_index(x as int, y as int),
{
    (x, y)
}

/// Two pixels of one row read the same cached ray path, so their paths are
/// identical.
pub proof fn lemma_row_shares_path(x1: int, x2: int, y: int)
    ensures
        path_cache_index(x1, y) == path_cache_index(x2, y),
{
}

/// Two pixels of one column read the same cached terrain sequence, so their
/// terrain samples are identical.
pub proof fn lemma_column_shares_terrain(x: int, y1: int, y2: int)
    ensures
        terrain_cache_index(x, y1) == terrain_cache_index(x, y2),
{
}

/// Pairs a column's terrain samples with a row's path elements, index by
/// index, as the tracing pipeline consumes them.
pub fn zip_terrain_and_path<A: Copy, B: Copy>(terrain: &Vec<A>, path: &Vec<B>) -> (r: Vec<(A, B)>)
    ensures
        r@.len() == if terrain@.len() <= path@.len() {
            terrain@.len()
        } else {
            path@.len()
        },
        forall|i: int| 0 <= i < r@.len() ==> #[trigger] r@[i] == (terrain@[i], path@[i]),
{
    let mut r: Vec<(A, B)> = Vec::new();
    let n: usize = if terrain.len() <= path.len() {
        terrain.len()
    } else {
        path.len()
    };
    for i in 0..n
        invariant
            n <= terrain@.len() && n <= path@.len(),
            n == if terrain@.len() <= path@.len() {
                terrain@.len()
            } else {
                path@.len()
            },
            r@.len() == i,
            forall|k: int| 0 <= k < i ==> #[trigger] r@[k] == (terrain@[k], path@[k]),
    {
        r.push((terrain[i], path[i]));
    }
    r
}

} // verus!
