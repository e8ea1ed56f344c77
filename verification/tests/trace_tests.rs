use panorama::trace::{get_single_pixel, Candidate, ColorClass, TracePoint, TraceStep};

const OPAQUE: i64 = 1000;
const TRANSPARENT: i64 = 0;

fn quiet_step(old_ray: i64, new_ray: i64, terrain: i64) -> TraceStep<u32> {
    TraceStep {
        old_ray_elev: old_ray,
        old_terrain_elev: terrain,
        old_terrain_known: true,
        new_ray_elev: new_ray,
        new_terrain_elev: terrain,
        new_terrain_known: true,
        terrain_candidate: None,
        object_candidates: Vec::new(),
    }
}

fn crossing_step(distance: i64, payload: u32) -> TraceStep<u32> {
    TraceStep {
        old_ray_elev: 10,
        old_terrain_elev: 5,
        old_terrain_known: true,
        new_ray_elev: 1,
        new_terrain_elev: 5,
        new_terrain_known: true,
        terrain_candidate: Some(Candidate { prop: 500, distance, alpha: OPAQUE, payload }),
        object_candidates: Vec::new(),
    }
}

#[test]
fn no_steps_no_points() {
    let steps: Vec<TraceStep<u32>> = Vec::new();
    let r = get_single_pixel(&steps, OPAQUE, OPAQUE, TRANSPARENT);
    assert!(r.is_empty());
}

#[test]
fn ray_above_terrain_yields_nothing() {
    let steps = vec![quiet_step(10, 9, 5), quiet_step(9, 8, 5), quiet_step(8, 7, 5)];
    let r = get_single_pixel(&steps, OPAQUE, OPAQUE, TRANSPARENT);
    assert!(r.is_empty());
}

#[test]
fn touching_the_terrain_is_not_a_crossing() {
    // The sign change must be strict: ending exactly on the terrain does not
    // produce a hit.
    let steps = vec![quiet_step(10, 5, 5), quiet_step(5, 5, 5)];
    let r = get_single_pixel(&steps, OPAQUE, OPAQUE, TRANSPARENT);
    assert!(r.is_empty());
}

#[test]
fn opaque_terrain_hit_ends_the_trace() {
    let steps = vec![quiet_step(10, 7, 5), crossing_step(100, 7), crossing_step(200, 8)];
    let r = get_single_pixel(&steps, OPAQUE, OPAQUE, TRANSPARENT);
    assert_eq!(r.len(), 1);
    assert_eq!(r[0].class, ColorClass::Terrain);
    assert_eq!(r[0].distance, 100);
    assert_eq!(r[0].alpha, OPAQUE);
    assert_eq!(r[0].payload, 7);
}

#[test]
fn translucent_terrain_keeps_tracing() {
    let half: i64 = 500;
    let steps = vec![crossing_step(100, 1), crossing_step(200, 2)];
    let r = get_single_pixel(&steps, half, OPAQUE, TRANSPARENT);
    assert_eq!(r.len(), 2);
    assert_eq!(r[0].distance, 100);
    assert_eq!(r[1].distance, 200);
    assert!(r[0].distance <= r[1].distance);
    assert_eq!(r[0].alpha, half);
    assert_eq!(r[1].alpha, half);
}

#[test]
fn unknown_terrain_cell_never_hits() {
    // Same elevations as a crossing step, but the tile data is missing at one
    // endpoint: no terrain point may be produced.
    let mut s = crossing_step(100, 1);
    s.old_terrain_known = false;
    let steps = vec![s];
    let r = get_single_pixel(&steps, OPAQUE, OPAQUE, TRANSPARENT);
    assert!(r.is_empty());
}

#[test]
fn object_hits_are_sorted_by_prop_within_a_step() {
    let mut s = quiet_step(10, 9, 5);
    s.object_candidates = vec![
        Candidate { prop: 800, distance: 180, alpha: 300, payload: 11 },
        Candidate { prop: 200, distance: 120, alpha: 400, payload: 22 },
    ];
    let steps = vec![s];
    let r = get_single_pixel(&steps, OPAQUE, OPAQUE, TRANSPARENT);
    assert_eq!(r.len(), 2);
    assert_eq!(r[0].payload, 22);
    assert_eq!(r[1].payload, 11);
    assert!(r[0].distance <= r[1].distance);
    assert_eq!(r[0].class, ColorClass::Rgba);
    assert_eq!(r[1].class, ColorClass::Rgba);
}

#[test]
fn fully_transparent_object_hits_are_dropped() {
    let mut s = quiet_step(10, 9, 5);
    s.object_candidates = vec![
        Candidate { prop: 300, distance: 130, alpha: TRANSPARENT, payload: 1 },
        Candidate { prop: 600, distance: 160, alpha: 250, payload: 2 },
    ];
    let steps = vec![s];
    let r = get_single_pixel(&steps, OPAQUE, OPAQUE, TRANSPARENT);
    assert_eq!(r.len(), 1);
    assert_eq!(r[0].payload, 2);
}

#[test]
fn opaque_object_ends_the_trace() {
    let mut s = quiet_step(10, 9, 5);
    s.object_candidates = vec![Candidate { prop: 300, distance: 130, alpha: OPAQUE, payload: 5 }];
    let steps = vec![s, crossing_step(200, 9)];
    let r = get_single_pixel(&steps, OPAQUE, OPAQUE, TRANSPARENT);
    assert_eq!(r.len(), 1);
    assert_eq!(r[0].class, ColorClass::Rgba);
    assert_eq!(r[0].distance, 130);
}

#[test]
fn terrain_comes_before_an_object_at_the_same_prop() {
    let mut s = crossing_step(100, 1);
    s.object_candidates = vec![Candidate { prop: 500, distance: 100, alpha: 400, payload: 2 }];
    let steps = vec![s];
    // Translucent terrain so both points stay.
    let r = get_single_pixel(&steps, 500, OPAQUE, TRANSPARENT);
    assert_eq!(r.len(), 2);
    assert_eq!(r[0].class, ColorClass::Terrain);
    assert_eq!(r[1].class, ColorClass::Rgba);
}

#[test]
fn distances_never_decrease_across_steps() {
    let mut s1 = quiet_step(10, 9, 5);
    s1.object_candidates = vec![Candidate { prop: 700, distance: 70, alpha: 100, payload: 1 }];
    let mut s2 = quiet_step(9, 8, 5);
    s2.object_candidates = vec![
        Candidate { prop: 400, distance: 140, alpha: 100, payload: 2 },
        Candidate { prop: 900, distance: 190, alpha: 100, payload: 3 },
    ];
    let steps = vec![s1, s2];
    let r = get_single_pixel(&steps, OPAQUE, OPAQUE, TRANSPARENT);
    assert_eq!(r.len(), 3);
    let points: Vec<&TracePoint<u32>> = r.iter().collect();
    for w in points.windows(2) {
        assert!(w[0].distance <= w[1].distance);
    }
}
