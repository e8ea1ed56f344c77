use panorama::collision::{accepted_side_roots, side_root_candidates, DiscriminantSign};
use panorama::grid::{fast_cache_indices, zip_terrain_and_path};

#[test]
fn pixels_of_one_row_share_the_path_cache() {
    let (_, p1) = fast_cache_indices(3, 7);
    let (_, p2) = fast_cache_indices(600, 7);
    assert_eq!(p1, p2);
}

#[test]
fn pixels_of_one_column_share_the_terrain_cache() {
    let (t1, _) = fast_cache_indices(3, 0);
    let (t2, _) = fast_cache_indices(3, 479);
    assert_eq!(t1, t2);
}

#[test]
fn zip_pairs_index_by_index() {
    let terrain = vec![10u32, 20, 30];
    let path = vec![1u8, 2, 3, 4];
    let zipped = zip_terrain_and_path(&terrain, &path);
    assert_eq!(zipped, vec![(10, 1), (20, 2), (30, 3)]);
}

#[test]
fn negative_discriminant_has_no_roots() {
    assert_eq!(side_root_candidates(DiscriminantSign::Negative), (false, false));
    assert!(accepted_side_roots(DiscriminantSign::Negative, true, true).is_empty());
}

#[test]
fn tangent_ray_counts_the_double_root_once() {
    assert_eq!(side_root_candidates(DiscriminantSign::Zero), (true, false));
    let hits = accepted_side_roots(DiscriminantSign::Zero, true, true);
    assert!(hits.len() <= 1);
    assert_eq!(hits, vec![0]);
    assert!(accepted_side_roots(DiscriminantSign::Zero, false, true).is_empty());
}

#[test]
fn crossing_ray_may_keep_both_roots() {
    assert_eq!(accepted_side_roots(DiscriminantSign::Positive, true, true), vec![0, 1]);
    assert_eq!(accepted_side_roots(DiscriminantSign::Positive, false, true), vec![1]);
    assert_eq!(accepted_side_roots(DiscriminantSign::Positive, true, false), vec![0]);
}
