use panorama::interp::{blend_policy, BlendPolicy, CornerSet};

fn corners(c00: bool, c01: bool, c10: bool, c11: bool) -> CornerSet {
    CornerSet { c00, c01, c10, c11 }
}

#[test]
fn no_corner_discards() {
    let p = corners(false, false, false, false);
    assert_eq!(blend_policy(p, false, false), BlendPolicy::Discard);
    assert_eq!(blend_policy(p, true, true), BlendPolicy::Discard);
}

#[test]
fn single_corner_kept_only_in_its_quadrant() {
    let p = corners(false, false, true, false);
    assert_eq!(blend_policy(p, true, false), BlendPolicy::Single { corner: (true, false) });
    assert_eq!(blend_policy(p, false, false), BlendPolicy::Discard);
    assert_eq!(blend_policy(p, true, true), BlendPolicy::Discard);
}

#[test]
fn edge_pair_blends_on_its_half() {
    let p = corners(true, true, false, false);
    assert_eq!(
        blend_policy(p, false, false),
        BlendPolicy::EdgeBlend { first: (false, false), second: (false, true) }
    );
    assert_eq!(
        blend_policy(p, false, true),
        BlendPolicy::EdgeBlend { first: (false, false), second: (false, true) }
    );
    assert_eq!(blend_policy(p, true, false), BlendPolicy::Discard);
}

#[test]
fn diagonal_pair_blends_on_its_quadrants() {
    let p = corners(true, false, false, true);
    assert_eq!(
        blend_policy(p, false, false),
        BlendPolicy::DiagonalBlend { first: (false, false), second: (true, true) }
    );
    assert_eq!(
        blend_policy(p, true, true),
        BlendPolicy::DiagonalBlend { first: (false, false), second: (true, true) }
    );
    assert_eq!(blend_policy(p, true, false), BlendPolicy::Discard);
    assert_eq!(blend_policy(p, false, true), BlendPolicy::Discard);

    let q = corners(false, true, true, false);
    assert_eq!(
        blend_policy(q, true, false),
        BlendPolicy::DiagonalBlend { first: (false, true), second: (true, false) }
    );
    assert_eq!(blend_policy(q, true, true), BlendPolicy::Discard);
}

#[test]
fn three_corners_forbid_the_missing_quadrant() {
    let p = corners(true, true, true, false);
    assert_eq!(blend_policy(p, true, true), BlendPolicy::Discard);
    assert_eq!(
        blend_policy(p, false, false),
        BlendPolicy::TriangleBlend { missing: (true, true) }
    );
    assert_eq!(
        blend_policy(p, true, false),
        BlendPolicy::TriangleBlend { missing: (true, true) }
    );
}

#[test]
fn every_single_corner_case() {
    let cases = [
        (corners(true, false, false, false), (false, false)),
        (corners(false, true, false, false), (false, true)),
        (corners(false, false, true, false), (true, false)),
        (corners(false, false, false, true), (true, true)),
    ];
    for (p, q) in cases {
        assert_eq!(blend_policy(p, q.0, q.1), BlendPolicy::Single { corner: q });
        assert_eq!(blend_policy(p, !q.0, q.1), BlendPolicy::Discard);
        assert_eq!(blend_policy(p, q.0, !q.1), BlendPolicy::Discard);
        assert_eq!(blend_policy(p, !q.0, !q.1), BlendPolicy::Discard);
    }
}

#[test]
fn every_three_corner_case() {
    let cases = [
        (corners(false, true, true, true), (false, false)),
        (corners(true, false, true, true), (false, true)),
        (corners(true, true, false, true), (true, false)),
        (corners(true, true, true, false), (true, true)),
    ];
    for (p, missing) in cases {
        assert_eq!(blend_policy(p, missing.0, missing.1), BlendPolicy::Discard);
        assert_eq!(
            blend_policy(p, !missing.0, missing.1),
            BlendPolicy::TriangleBlend { missing }
        );
        assert_eq!(
            blend_policy(p, missing.0, !missing.1),
            BlendPolicy::TriangleBlend { missing }
        );
        assert_eq!(
            blend_policy(p, !missing.0, !missing.1),
            BlendPolicy::TriangleBlend { missing }
        );
    }
}

#[test]
fn four_corners_always_blend() {
    let p = corners(true, true, true, true);
    assert_eq!(blend_policy(p, false, false), BlendPolicy::Bilinear);
    assert_eq!(blend_policy(p, true, true), BlendPolicy::Bilinear);
}
