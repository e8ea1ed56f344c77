//! The per-pixel tracing pipeline: out of a walk of ray-vs-terrain samples and
//! candidate object hits it builds the ordered list of trace points for one
//! pixel.
//!
//! The surrounding application integrates the ray and interpolates hit
//! coordinates on IEEE 754 doubles, which this crate does not compute with.
//! Every measured quantity therefore enters the pipeline as an *order key*: an
//! `i64` whose integer order mirrors the numeric order of the measurement (for
//! IEEE 754 doubles the usual sign-folded bit pattern is such a key). The
//! pipeline never does arithmetic on keys; it only compares them, so each
//! statement proved here carries over to the measured values.

use vstd::prelude::*;

verus! {

/// Whether a trace point records a terrain hit or an object (RGBA) hit.
#[derive(Debug, Clone, Copy, PartialEq, Eq, Structural)]
pub enum ColorClass {
    Terrain,
    Rgba,
}

/// One candidate hit within a step, produced by the application: the fraction
/// of the step at which it lies (`prop`), the distance along the ray, the
/// colour's alpha, and the interpolated data carried through for the
/// compositor. All of `prop`, `distance` and `alpha` are order keys.
#[derive(Debug, Clone, Copy)]
pub struct Candidate<T> {
    pub prop: i64,
    pub distance: i64,
    pub alpha: i64,
    pub payload: T,
}

/// One recorded hit of the ray, with enough information to shade.
#[derive(Debug, Clone, Copy)]
pub struct TracePoint<T> {
    pub class: ColorClass,
    pub prop: i64,
    pub distance: i64,
    pub alpha: i64,
    pub payload: T,
}

/// One integration step: the ray and terrain elevations at its two endpoints
/// (order keys), whether terrain data was available there, the interpolated
/// terrain crossing candidate (where the application found one), and the
/// object hits returned by the collision stage for this segment.
#[derive(Debug, Clone)]
pub struct TraceStep<T> {
    pub old_ray_elev: i64,
    pub old_terrain_elev: i64,
    pub old_terrain_known: bool,
    pub new_ray_elev: i64,
    pub new_terrain_elev: i64,
    pub new_terrain_known: bool,
    pub terrain_candidate: Option<Candidate<T>>,
    pub object_candidates: Vec<Candidate<T>>,
}

/// The canonical terrain-crossing rule: the sign of (ray − terrain) changes
/// strictly between the two endpoints of the step, and terrain data is
/// available at both. A cell with no tile data never yields a terrain hit.
pub open spec fn crossing<T>(s: TraceStep<T>) -> bool {
    &&& s.old_terrain_known
    &&& s.new_terrain_known
    &&& {
        ||| (s.old_ray_elev < s.old_terrain_elev && s.new_ray_elev > s.new_terrain_elev)
        ||| (s.old_ray_elev > s.old_terrain_elev && s.new_ray_elev < s.new_terrain_elev)
    }
}

/// The trace point recorded for a terrain crossing: the candidate's position
/// with the configured terrain alpha.
pub open spec fn terrain_point<T>(c: Candidate<T>, terrain_alpha: i64) -> TracePoint<T> {
    TracePoint {
        class: ColorClass::Terrain,
        prop: c.prop,
        distance: c.distance,
        alpha: terrain_alpha,
        payload: c.payload,
    }
}

/// The trace point recorded for an object hit.
pub open spec fn rgba_point<T>(c: Candidate<T>) -> TracePoint<T> {
    TracePoint {
        class: ColorClass::Rgba,
        prop: c.prop,
        distance: c.distance,
        alpha: c.alpha,
        payload: c.payload,
    }
}

/// The object hits kept from a step: candidates whose alpha key is not the
/// fully-transparent key, in their given order.
pub open spec fn object_points<T>(cs: Seq<Candidate<T>>, transparent: i64) -> Seq<TracePoint<T>>
    decreases cs.len(),
{
    if cs.len() == 0 {
        Seq::empty()
    } else {
        let rest = object_points(cs.drop_last(), transparent);
        if cs.last().alpha == transparent {
            rest
        } else {
            rest.push(rgba_point(cs.last()))
        }
    }
}

/// Everything a step emits, terrain hit first, not yet ordered.
pub open spec fn step_emissions<T>(s: TraceStep<T>, terrain_alpha: i64, transparent: i64) -> Seq<
    TracePoint<T>,
> {
    let objects = object_points(s.object_candidates@, transparent);
    if crossing(s) {
        seq![terrain_point(s.terrain_candidate->Some_0, terrain_alpha)] + objects
    } else {
        objects
    }
}

/// Whether a step emits an opaque point, which ends the trace after the step.
pub open spec fn step_opaque<T>(
    s: TraceStep<T>,
    terrain_alpha: i64,
    opaque: i64,
    transparent: i64,
) -> bool {
    let e = step_emissions(s, terrain_alpha, transparent);
    exists|i: int| 0 <= i < e.len() && e[i].alpha == opaque
}

/// Stable insertion by `prop`: `p` goes after every point whose prop key is
/// not greater.
pub open spec fn insert_by_prop<T>(s: Seq<TracePoint<T>>, p: TracePoint<T>) -> Seq<TracePoint<T>>
    decreases s.len(),
{
    if s.len() == 0 {
        seq![p]
    } else if p.prop < s.last().prop {
        insert_by_prop(s.drop_last(), p).push(s.last())
    } else {
        s.push(p)
    }
}

/// Stable sort by `prop`: within a step, points are ordered by the fraction at
/// which they lie; ties keep their emission order.
pub open spec fn sort_by_prop<T>(s: Seq<TracePoint<T>>) -> Seq<TracePoint<T>>
    decreases s.len(),
{
    if s.len() == 0 {
        Seq::empty()
    } else {
        insert_by_prop(sort_by_prop(s.drop_last()), s.last())
    }
}

/// The points contributed by one step, in their final order.
pub open spec fn step_points<T>(s: TraceStep<T>, terrain_alpha: i64, transparent: i64) -> Seq<
    TracePoint<T>,
> {
    sort_by_prop(step_emissions(s, terrain_alpha, transparent))
}

/// The full trace from step `i` on: each step's points in order, stopping
/// after the first step that emitted an opaque point.
pub open spec fn trace_from<T>(
    steps: Seq<TraceStep<T>>,
    i: int,
    terrain_alpha: i64,
    opaque: i64,
    transparent: i64,
) -> Seq<TracePoint<T>>
    decreases steps.len() - i,
{
    if i < 0 || i >= steps.len() {
        Seq::empty()
    } else {
        let pts = step_points(steps[i], terrain_alpha, transparent);
        if step_opaque(steps[i], terrain_alpha, opaque, transparent) {
            pts
        } else {
            pts + trace_from(steps, i + 1, terrain_alpha, opaque, transparent)
        }
    }
}

/// The list of trace points of one pixel, as a function of the steps walked.
pub open spec fn trace_result<T>(
    steps: Seq<TraceStep<T>>,
    terrain_alpha: i64,
    opaque: i64,
    transparent: i64,
) -> Seq<TracePoint<T>> {
    trace_from(steps, 0, terrain_alpha, opaque, transparent)
}

/// All pairs of points appear in order of non-decreasing distance key.
pub open spec fn distance_sorted<T>(s: Seq<TracePoint<T>>) -> bool {
    forall|i: int, j: int|
        #![trigger s[i], s[j]]
        0 <= i < j < s.len() ==> s[i].distance <= s[j].distance
}

/// All pairs of points appear in order of non-decreasing prop key.
pub open spec fn prop_sorted<T>(s: Seq<TracePoint<T>>) -> bool {
    forall|i: int, j: int|
        #![trigger s[i], s[j]]
        0 <= i < j < s.len() ==> s[i].prop <= s[j].prop
}

/// All candidates of a step: the terrain crossing candidate, if the
/// application supplied one, and the object hits.
pub open spec fn step_cands<T>(s: TraceStep<T>) -> Seq<Candidate<T>> {
    match s.terrain_candidate {
        Option::Some(c) => seq![c] + s.object_candidates@,
        Option::None => s.object_candidates@,
    }
}

/// Within one step, the candidates' distances are ordered as their props are:
/// the application interpolates the distance monotonically in the fraction.
pub open spec fn step_consistent<T>(s: TraceStep<T>) -> bool {
    forall|a: int, b: int|
        #![trigger step_cands(s)[a], step_cands(s)[b]]
        0 <= a < step_cands(s).len() && 0 <= b < step_cands(s).len() && step_cands(s)[a].prop
            <= step_cands(s)[b].prop ==> step_cands(s)[a].distance <= step_cands(s)[b].distance
}

/// Candidates of an earlier step lie no farther along the ray than candidates
/// of a later step: each step's hits fall inside that step's distance range.
pub open spec fn steps_monotone<T>(steps: Seq<TraceStep<T>>) -> bool {
    forall|i: int, j: int, a: int, b: int|
        #![trigger step_cands(steps[i])[a], step_cands(steps[j])[b]]
        0 <= i < j < steps.len() && 0 <= a < step_cands(steps[i]).len() && 0 <= b < step_cands(
            steps[j],
        ).len() ==> step_cands(steps[i])[a].distance <= step_cands(steps[j])[b].distance
}

/// The point records the position of one of the step's candidates.
pub open spec fn matches_candidate<T>(s: TraceStep<T>, x: TracePoint<T>) -> bool {
    exists|k: int|
        0 <= k < step_cands(s).len() && (#[trigger] step_cands(s)[k]).prop == x.prop && step_cands(
            s,
        )[k].distance == x.distance
}

/// The point records the position of a candidate of some step at or after `i`.
pub open spec fn matches_step_at_or_after<T>(steps: Seq<TraceStep<T>>, i: int, x: TracePoint<T>) -> bool {
    exists|j: int| i <= j < steps.len() && matches_candidate(#[trigger] steps[j], x)
}

proof fn lemma_object_points_from_cands<T>(cs: Seq<Candidate<T>>, transparent: i64)
    ensures
        forall|m: int|
            0 <= m < object_points(cs, transparent).len() ==> (#[trigger] object_points(
                cs,
                transparent,
            )[m]).class == ColorClass::Rgba && exists|k: int|
                0 <= k < cs.len() && object_points(cs, transparent)[m] == rgba_point(
                    #[trigger] cs[k],
                ),
    decreases cs.len(),
{
    if cs.len() == 0 {
    } else {
        let d = cs.drop_last();
        lemma_object_points_from_cands(d, transparent);
        let pts = object_points(cs, transparent);
        let rest = object_points(d, transparent);
        assert forall|m: int| 0 <= m < pts.len() implies (#[trigger] pts[m]).class
            == ColorClass::Rgba && exists|k: int|
            0 <= k < cs.len() && pts[m] == rgba_point(#[trigger] cs[k]) by {
            if m < rest.len() {
                let k = choose|k: int| 0 <= k < d.len() && rest[m] == rgba_point(#[trigger] d[k]);
                assert(cs[k] == d[k]);
                assert(pts[m] == rgba_point(cs[k]));
            } else {
                assert(cs.last().alpha != transparent);
                assert(pts[m] == rgba_point(cs[cs.len() - 1]));
            }
        }
    }
}

proof fn lemma_emissions_from_cands<T>(s: TraceStep<T>, terrain_alpha: i64, transparent: i64)
    requires
        crossing(s) ==> s.terrain_candidate is Some,
    ensures
        forall|m: int|
            0 <= m < step_emissions(s, terrain_alpha, transparent).len() ==> matches_candidate(
                s,
                #[trigger] step_emissions(s, terrain_alpha, transparent)[m],
            ),
        forall|m: int|
            0 <= m < step_emissions(s, terrain_alpha, transparent).len() && (
            #[trigger] step_emissions(s, terrain_alpha, transparent)[m]).class
                == ColorClass::Terrain ==> crossing(s),
{
    let e = step_emissions(s, terrain_alpha, transparent);
    let objs = object_points(s.object_candidates@, transparent);
    lemma_object_points_from_cands(s.object_candidates@, transparent);
    assert forall|m: int| 0 <= m < e.len() implies matches_candidate(s, #[trigger] e[m]) && (e[m].class
        == ColorClass::Terrain ==> crossing(s)) by {
        if crossing(s) {
            let c = s.terrain_candidate->Some_0;
            if m == 0 {
                assert(step_cands(s)[0] == c);
                assert(e[0] == terrain_point(c, terrain_alpha));
            } else {
                let k = choose|k: int|
                    0 <= k < s.object_candidates@.len() && objs[m - 1] == rgba_point(
                        #[trigger] s.object_candidates@[k],
                    );
                assert(step_cands(s)[k + 1] == s.object_candidates@[k]);
                assert(e[m] == objs[m - 1]);
            }
        } else {
            let k = choose|k: int|
                0 <= k < s.object_candidates@.len() && objs[m] == rgba_point(
                    #[trigger] s.object_candidates@[k],
                );
            match s.terrain_candidate {
                Option::Some(_) => {
                    assert(step_cands(s)[k + 1] == s.object_candidates@[k]);
                },
                Option::None => {
                    assert(step_cands(s)[k] == s.object_candidates@[k]);
                },
            }
            assert(e[m] == objs[m]);
        }
    }
}

proof fn lemma_insert_props<T>(s: Seq<TracePoint<T>>, p: TracePoint<T>)
    ensures
        insert_by_prop(s, p).len() == s.len() + 1,
        forall|m: int|
            0 <= m < s.len() + 1 ==> #[trigger] insert_by_prop(s, p)[m] == p || exists|k: int|
                0 <= k < s.len() && insert_by_prop(s, p)[m] == s[k],
        prop_sorted(s) ==> prop_sorted(insert_by_prop(s, p)),
    decreases s.len(),
{
    let r = insert_by_prop(s, p);
    if s.len() == 0 {
        assert(r[0] == p);
    } else if p.prop < s.last().prop {
        let d = s.drop_last();
        lemma_insert_props(d, p);
        let q = insert_by_prop(d, p);
        assert forall|m: int| 0 <= m < s.len() + 1 implies #[trigger] r[m] == p || exists|k: int|
            0 <= k < s.len() && r[m] == s[k] by {
            if m < q.len() {
                assert(r[m] == q[m]);
                if q[m] == p {
                } else {
                    let k = choose|k: int| 0 <= k < d.len() && q[m] == d[k];
                    assert(r[m] == s[k]);
                }
            } else {
                assert(r[m] == s[s.len() - 1]);
            }
        }
        if prop_sorted(s) {
            assert(prop_sorted(d)) by {
                assert forall|i: int, j: int|
                    #![trigger d[i], d[j]]
                    0 <= i < j < d.len() implies d[i].prop <= d[j].prop by {
                    assert(s[i] == d[i] && s[j] == d[j]);
                }
            }
            assert forall|i: int, j: int|
                #![trigger r[i], r[j]]
                0 <= i < j < r.len() implies r[i].prop <= r[j].prop by {
                if j < q.len() {
                } else {
                    assert(r[j] == s.last());
                    assert(r[i] == q[i]);
                    if q[i] == p {
                        assert(r[i].prop <= r[j].prop);
                    } else {
                        let k = choose|k: int| 0 <= k < d.len() && q[i] == d[k];
                        assert(d[k] == s[k]);
                        assert(s[k].prop <= s.last().prop);
                    }
                }
            }
        }
    } else {
        assert forall|m: int| 0 <= m < s.len() + 1 implies #[trigger] r[m] == p || exists|k: int|
            0 <= k < s.len() && r[m] == s[k] by {
            if m < s.len() {
                assert(r[m] == s[m]);
            } else {
                assert(r[m] == p);
            }
        }
        if prop_sorted(s) {
            assert forall|i: int, j: int|
                #![trigger r[i], r[j]]
                0 <= i < j < r.len() implies r[i].prop <= r[j].prop by {
                if j < s.len() {
                } else {
                    assert(r[j] == p);
                    assert(r[i] == s[i]);
                    if i < s.len() - 1 {
                        assert(s[i].prop <= s[s.len() - 1].prop);
                    }
                    assert(s[i].prop <= p.prop);
                }
            }
        }
    }
}

proof fn lemma_sort_props<T>(s: Seq<TracePoint<T>>)
    ensures
        sort_by_prop(s).len() == s.len(),
        prop_sorted(sort_by_prop(s)),
        forall|m: int|
            0 <= m < s.len() ==> exists|k: int|
                0 <= k < s.len() && #[trigger] sort_by_prop(s)[m] == s[k],
    decreases s.len(),
{
    let r = sort_by_prop(s);
    if s.len() == 0 {
    } else {
        let d = s.drop_last();
        lemma_sort_props(d);
        let q = sort_by_prop(d);
        lemma_insert_props(q, s.last());
        assert forall|m: int| 0 <= m < s.len() implies exists|k: int|
            0 <= k < s.len() && #[trigger] r[m] == s[k] by {
            if r[m] == s.last() {
                assert(r[m] == s[s.len() - 1]);
            } else {
                let k0 = choose|k0: int| 0 <= k0 < d.len() && r[m] == q[k0];
                let k = choose|k: int| 0 <= k < d.len() && q[k0] == d[k];
                assert(r[m] == s[k]);
            }
        }
    }
}

proof fn lemma_step_points_dist_sorted<T>(s: TraceStep<T>, terrain_alpha: i64, transparent: i64)
    requires
        step_consistent(s),
        crossing(s) ==> s.terrain_candidate is Some,
    ensures
        distance_sorted(step_points(s, terrain_alpha, transparent)),
        forall|m: int|
            0 <= m < step_points(s, terrain_alpha, transparent).len() ==> matches_candidate(
                s,
                #[trigger] step_points(s, terrain_alpha, transparent)[m],
            ),
{
    let e = step_emissions(s, terrain_alpha, transparent);
    let pts = step_points(s, terrain_alpha, transparent);
    lemma_emissions_from_cands(s, terrain_alpha, transparent);
    lemma_sort_props(e);
    assert forall|m: int| 0 <= m < pts.len() implies matches_candidate(s, #[trigger] pts[m]) by {
        let k = choose|k: int| 0 <= k < e.len() && pts[m] == e[k];
        assert(matches_candidate(s, e[k]));
    }
    assert forall|i: int, j: int|
        #![trigger pts[i], pts[j]]
        0 <= i < j < pts.len() implies pts[i].distance <= pts[j].distance by {
        assert(pts[i].prop <= pts[j].prop);
        let a = choose|a: int|
            0 <= a < step_cands(s).len() && (#[trigger] step_cands(s)[a]).prop == pts[i].prop
                && step_cands(s)[a].distance == pts[i].distance;
        let b = choose|b: int|
            0 <= b < step_cands(s).len() && (#[trigger] step_cands(s)[b]).prop == pts[j].prop
                && step_cands(s)[b].distance == pts[j].distance;
        assert(step_cands(s)[a].distance <= step_cands(s)[b].distance);
    }
}

proof fn lemma_trace_from_sorted<T>(
    steps: Seq<TraceStep<T>>,
    i: int,
    terrain_alpha: i64,
    opaque: i64,
    transparent: i64,
)
    requires
        forall|j: int|
            0 <= j < steps.len() ==> step_consistent(#[trigger] steps[j]) && (crossing(steps[j])
                ==> steps[j].terrain_candidate is Some),
        steps_monotone(steps),
    ensures
        distance_sorted(trace_from(steps, i, terrain_alpha, opaque, transparent)),
        forall|m: int|
            0 <= m < trace_from(steps, i, terrain_alpha, opaque, transparent).len()
                ==> matches_step_at_or_after(
                steps,
                i,
                #[trigger] trace_from(steps, i, terrain_alpha, opaque, transparent)[m],
            ),
    decreases steps.len() - i,
{
    let r = trace_from(steps, i, terrain_alpha, opaque, transparent);
    if i < 0 || i >= steps.len() {
    } else {
        let pts = step_points(steps[i], terrain_alpha, transparent);
        lemma_step_points_dist_sorted(steps[i], terrain_alpha, transparent);
        if step_opaque(steps[i], terrain_alpha, opaque, transparent) {
            assert forall|m: int| 0 <= m < r.len() implies matches_step_at_or_after(
                steps,
                i,
                #[trigger] r[m],
            ) by {
                assert(matches_candidate(steps[i], pts[m]));
            }
        } else {
            let rest = trace_from(steps, i + 1, terrain_alpha, opaque, transparent);
            lemma_trace_from_sorted(steps, i + 1, terrain_alpha, opaque, transparent);
            assert forall|m: int| 0 <= m < r.len() implies matches_step_at_or_after(
                steps,
                i,
                #[trigger] r[m],
            ) by {
                if m < pts.len() {
                    assert(r[m] == pts[m]);
                    assert(matches_candidate(steps[i], pts[m]));
                } else {
                    assert(r[m] == rest[m - pts.len()]);
                    let j = choose|j: int|
                        i + 1 <= j < steps.len() && matches_candidate(
                            #[trigger] steps[j],
                            rest[m - pts.len()],
                        );
                    assert(matches_candidate(steps[j], r[m]));
                }
            }
            assert forall|m1: int, m2: int|
                #![trigger r[m1], r[m2]]
                0 <= m1 < m2 < r.len() implies r[m1].distance <= r[m2].distance by {
                if m2 < pts.len() {
                    assert(r[m1] == pts[m1] && r[m2] == pts[m2]);
                } else if m1 >= pts.len() {
                    assert(r[m1] == rest[m1 - pts.len()] && r[m2] == rest[m2 - pts.len()]);
                } else {
                    assert(r[m1] == pts[m1] && r[m2] == rest[m2 - pts.len()]);
                    assert(matches_candidate(steps[i], pts[m1]));
                    let a = choose|a: int|
                        0 <= a < step_cands(steps[i]).len() && (#[trigger] step_cands(
                            steps[i],
                        )[a]).prop == pts[m1].prop && step_cands(steps[i])[a].distance
                            == pts[m1].distance;
                    assert(matches_step_at_or_after(steps, i + 1, rest[m2 - pts.len()]));
                    let j = choose|j: int|
                        i + 1 <= j < steps.len() && matches_candidate(
                            #[trigger] steps[j],
                            rest[m2 - pts.len()],
                        );
                    let b = choose|b: int|
                        0 <= b < step_cands(steps[j]).len() && (#[trigger] step_cands(
                            steps[j],
                        )[b]).prop == rest[m2 - pts.len()].prop && step_cands(steps[j])[b].distance
                            == rest[m2 - pts.len()].distance;
                    assert(step_cands(steps[i])[a].distance <= step_cands(steps[j])[b].distance);
                }
            }
        }
    }
}

/// For every pixel, the trace points are ordered by non-decreasing distance
/// along the ray: within a step the points are ordered by the fraction at
/// which they lie, which agrees with their distance, and the steps themselves
/// advance along the ray.
pub proof fn lemma_trace_points_sorted<T>(
    steps: Seq<TraceStep<T>>,
    terrain_alpha: i64,
    opaque: i64,
    transparent: i64,
)
    requires
        forall|j: int|
            0 <= j < steps.len() ==> step_consistent(#[trigger] steps[j]) && (crossing(steps[j])
                ==> steps[j].terrain_candidate is Some),
        steps_monotone(steps),
    ensures
        distance_sorted(trace_result(steps, terrain_alpha, opaque, transparent)),
{
    lemma_trace_from_sorted(steps, 0, terrain_alpha, opaque, transparent);
}

proof fn lemma_trace_from_opaque_ends<T>(
    steps: Seq<TraceStep<T>>,
    i: int,
    terrain_alpha: i64,
    opaque: i64,
    transparent: i64,
    k: int,
)
    requires
        forall|j: int|
            0 <= j < steps.len() ==> step_emissions(
                #[trigger] steps[j],
                terrain_alpha,
                transparent,
            ).len() <= 1,
        0 <= k < trace_from(steps, i, terrain_alpha, opaque, transparent).len(),
        trace_from(steps, i, terrain_alpha, opaque, transparent)[k].alpha == opaque,
    ensures
        trace_from(steps, i, terrain_alpha, opaque, transparent).len() == k + 1,
    decreases steps.len() - i,
{
    let r = trace_from(steps, i, terrain_alpha, opaque, transparent);
    let e = step_emissions(steps[i], terrain_alpha, transparent);
    let pts = step_points(steps[i], terrain_alpha, transparent);
    lemma_sort_props(e);
    if step_opaque(steps[i], terrain_alpha, opaque, transparent) {
        assert(e.len() == 1);
        assert(r.len() == 1);
    } else {
        let rest = trace_from(steps, i + 1, terrain_alpha, opaque, transparent);
        if k < pts.len() {
            let k0 = choose|k0: int| 0 <= k0 < e.len() && pts[k] == e[k0];
            assert(e[k0].alpha == opaque);
            assert(step_opaque(steps[i], terrain_alpha, opaque, transparent));
            assert(false);
        } else {
            assert(r[k] == rest[k - pts.len()]);
            lemma_trace_from_opaque_ends(
                steps,
                i + 1,
                terrain_alpha,
                opaque,
                transparent,
                k - pts.len(),
            );
        }
    }
}

/// A trace point with the opaque alpha is the last point of its pixel: the
/// trace stops at the opaque hit. Stated for walks whose steps emit at most
/// one point each; a step that emits an opaque point and a farther,
/// translucent one in the same step keeps both, and the trace stops after
/// that step.
pub proof fn lemma_opaque_point_ends_trace<T>(
    steps: Seq<TraceStep<T>>,
    terrain_alpha: i64,
    opaque: i64,
    transparent: i64,
    k: int,
)
    requires
        forall|j: int|
            0 <= j < steps.len() ==> step_emissions(
                #[trigger] steps[j],
                terrain_alpha,
                transparent,
            ).len() <= 1,
        0 <= k < trace_result(steps, terrain_alpha, opaque, transparent).len(),
        trace_result(steps, terrain_alpha, opaque, transparent)[k].alpha == opaque,
    ensures
        trace_result(steps, terrain_alpha, opaque, transparent).len() == k + 1,
{
    lemma_trace_from_opaque_ends(steps, 0, terrain_alpha, opaque, transparent, k);
}

proof fn lemma_trace_from_truncated<T>(
    steps: Seq<TraceStep<T>>,
    i: int,
    terrain_alpha: i64,
    opaque: i64,
    transparent: i64,
    j: int,
)
    requires
        0 <= j < steps.len(),
        i <= j,
        step_opaque(steps[j], terrain_alpha, opaque, transparent),
    ensures
        trace_from(steps, i, terrain_alpha, opaque, transparent) == trace_from(
            steps.take(j + 1),
            i,
            terrain_alpha,
            opaque,
            transparent,
        ),
    decreases steps.len() - i,
{
    let pre = steps.take(j + 1);
    if i < 0 {
    } else {
        assert(pre[i] == steps[i]);
        if i < j && !step_opaque(steps[i], terrain_alpha, opaque, transparent) {
            lemma_trace_from_truncated(steps, i + 1, terrain_alpha, opaque, transparent, j);
        }
    }
}

/// The trace ends with the first step that emitted an opaque point: the steps
/// after it contribute nothing, whatever they hold.
pub proof fn lemma_trace_ends_at_first_opaque_step<T>(
    steps: Seq<TraceStep<T>>,
    terrain_alpha: i64,
    opaque: i64,
    transparent: i64,
    j: int,
)
    requires
        0 <= j < steps.len(),
        step_opaque(steps[j], terrain_alpha, opaque, transparent),
    ensures
        trace_result(steps, terrain_alpha, opaque, transparent) == trace_result(
            steps.take(j + 1),
            terrain_alpha,
            opaque,
            transparent,
        ),
{
    lemma_trace_from_truncated(steps, 0, terrain_alpha, opaque, transparent, j);
}

proof fn lemma_trace_from_quiet<T>(
    steps: Seq<TraceStep<T>>,
    i: int,
    terrain_alpha: i64,
    opaque: i64,
    transparent: i64,
)
    requires
        forall|j: int|
            0 <= j < steps.len() ==> !crossing(#[trigger] steps[j])
                && steps[j].object_candidates@.len() == 0,
    ensures
        trace_from(steps, i, terrain_alpha, opaque, transparent).len() == 0,
    decreases steps.len() - i,
{
    if i < 0 || i >= steps.len() {
    } else {
        assert(step_emissions(steps[i], terrain_alpha, transparent) =~= Seq::<
            TracePoint<T>,
        >::empty());
        lemma_trace_from_quiet(steps, i + 1, terrain_alpha, opaque, transparent);
    }
}

/// A ray that never crosses the terrain and meets no object yields an empty
/// list of trace points.
pub proof fn lemma_no_hits_no_points<T>(
    steps: Seq<TraceStep<T>>,
    terrain_alpha: i64,
    opaque: i64,
    transparent: i64,
)
    requires
        forall|j: int|
            0 <= j < steps.len() ==> !crossing(#[trigger] steps[j])
                && steps[j].object_candidates@.len() == 0,
    ensures
        trace_result(steps, terrain_alpha, opaque, transparent).len() == 0,
{
    lemma_trace_from_quiet(steps, 0, terrain_alpha, opaque, transparent);
}

proof fn lemma_trace_from_terrain_hit<T>(
    steps: Seq<TraceStep<T>>,
    i: int,
    terrain_alpha: i64,
    opaque: i64,
    transparent: i64,
    k: int,
)
    requires
        forall|j: int|
            0 <= j < steps.len() ==> crossing(#[trigger] steps[j])
                ==> steps[j].terrain_candidate is Some,
        0 <= k < trace_from(steps, i, terrain_alpha, opaque, transparent).len(),
        trace_from(steps, i, terrain_alpha, opaque, transparent)[k].class == ColorClass::Terrain,
    ensures
        exists|j: int| 0 <= j < steps.len() && crossing(#[trigger] steps[j]),
    decreases steps.len() - i,
{
    let r = trace_from(steps, i, terrain_alpha, opaque, transparent);
    let e = step_emissions(steps[i], terrain_alpha, transparent);
    let pts = step_points(steps[i], terrain_alpha, transparent);
    lemma_sort_props(e);
    lemma_emissions_from_cands(steps[i], terrain_alpha, transparent);
    if step_opaque(steps[i], terrain_alpha, opaque, transparent) || k < pts.len() {
        let k0 = choose|k0: int| 0 <= k0 < e.len() && pts[k] == e[k0];
        assert(e[k0].class == ColorClass::Terrain);
        assert(crossing(steps[i]));
    } else {
        lemma_trace_from_terrain_hit(
            steps,
            i + 1,
            terrain_alpha,
            opaque,
            transparent,
            k - pts.len(),
        );
    }
}

/// A terrain trace point arises only from a step whose ray strictly crosses
/// the terrain, with terrain data available at both endpoints: a ray walking
/// cells with no tile data never hits terrain.
pub proof fn lemma_terrain_point_implies_crossing<T>(
    steps: Seq<TraceStep<T>>,
    terrain_alpha: i64,
    opaque: i64,
    transparent: i64,
    k: int,
)
    requires
        forall|j: int|
            0 <= j < steps.len() ==> crossing(#[trigger] steps[j])
                ==> steps[j].terrain_candidate is Some,
        0 <= k < trace_result(steps, terrain_alpha, opaque, transparent).len(),
        trace_result(steps, terrain_alpha, opaque, transparent)[k].class == ColorClass::Terrain,
    ensures
        exists|j: int|
            0 <= j < steps.len() && crossing(#[trigger] steps[j]) && steps[j].old_terrain_known
                && steps[j].new_terrain_known,
{
    lemma_trace_from_terrain_hit(steps, 0, terrain_alpha, opaque, transparent, k);
    let j = choose|j: int| 0 <= j < steps.len() && crossing(#[trigger] steps[j]);
    assert(crossing(steps[j]) && steps[j].old_terrain_known && steps[j].new_terrain_known);
}

proof fn lemma_insert_by_prop_at<T>(s: Seq<TracePoint<T>>, p: TracePoint<T>, i: int)
    requires
        0 <= i <= s.len(),
        forall|j: int| i <= j < s.len() ==> p.prop < s[j].prop,
        i > 0 ==> !(p.prop < s[i - 1].prop),
    ensures
        insert_by_prop(s, p) == s.subrange(0, i) + seq![p] + s.subrange(i, s.len() as int),
    decreases s.len(),
{
    if s.len() == 0 {
        assert(insert_by_prop(s, p) =~= s.subrange(0, i) + seq![p] + s.subrange(i, 0));
    } else if i == s.len() {
        assert(!(p.prop < s.last().prop));
        assert(insert_by_prop(s, p) =~= s.subrange(0, i) + seq![p] + s.subrange(i, i));
    } else {
        assert(p.prop < s.last().prop);
        let d = s.drop_last();
        lemma_insert_by_prop_at(d, p, i);
        assert(insert_by_prop(s, p) =~= s.subrange(0, i) + seq![p] + s.subrange(
            i,
            s.len() as int,
        )) by {
            assert(d.subrange(0, i) =~= s.subrange(0, i));
            assert(d.subrange(i, d.len() as int) =~= s.subrange(i, s.len() - 1));
        }
    }
}

/// Inserts `p` into the prop-ordered vector `v`, after every point whose prop
/// key is not greater.
fn insert_point<T: Copy>(v: &mut Vec<TracePoint<T>>, p: TracePoint<T>)
    ensures
        final(v)@ == insert_by_prop(old(v)@, p),
{
    let mut i: usize = v.len();
    while i > 0 && p.prop < v[i - 1].prop
        invariant
            i <= v@.len(),
            v@ == old(v)@,
            forall|j: int| i <= j < v@.len() ==> p.prop < v@[j].prop,
        decreases i,
    {
        i = i - 1;
    }
    proof {
        lemma_insert_by_prop_at(v@, p, i as int);
    }
    v.insert(i, p);
    assert(v@ =~= old(v)@.subrange(0, i as int) + seq![p] + old(v)@.subrange(
        i as int,
        old(v)@.len() as int,
    ));
}

/// Sorts the emissions of one step by their prop key; the sort is stable, so
/// ties keep their emission order.
fn sort_points<T: Copy>(points: &Vec<TracePoint<T>>) -> (r: Vec<TracePoint<T>>)
    ensures
        r@ == sort_by_prop(points@),
{
    let mut r: Vec<TracePoint<T>> = Vec::new();
    let n: usize = points.len();
    for k in 0..n
        invariant
            n == points@.len(),
            r@ == sort_by_prop(points@.take(k as int)),
    {
        insert_point(&mut r, points[k]);
        proof {
            assert(points@.take(k + 1).drop_last() =~= points@.take(k as int));
            assert(points@.take(k + 1).last() == points@[k as int]);
        }
    }
    proof {
        assert(points@.take(n as int) =~= points@);
    }
    r
}

/// Whether the step crosses the terrain: the canonical strict sign-change
/// rule, restricted to steps with terrain data at both endpoints.
fn step_crosses<T>(s: &TraceStep<T>) -> (b: bool)
    ensures
        b == crossing(*s),
{
    s.old_terrain_known && s.new_terrain_known && ((s.old_ray_elev < s.old_terrain_elev
        && s.new_ray_elev > s.new_terrain_elev) || (s.old_ray_elev > s.old_terrain_elev
        && s.new_ray_elev < s.new_terrain_elev))
}

/// Collects what one step emits: the terrain crossing point, if the step has
/// one, then the object hits that are not fully transparent.
fn collect_step_emissions<T: Copy>(s: &TraceStep<T>, terrain_alpha: i64, transparent: i64) -> (r:
    Vec<TracePoint<T>>)
    requires
        crossing(*s) ==> s.terrain_candidate is Some,
    ensures
        r@ == step_emissions(*s, terrain_alpha, transparent),
{
    let mut r: Vec<TracePoint<T>> = Vec::new();
    let ghost prefix: Seq<TracePoint<T>> = if crossing(*s) {
        seq![terrain_point(s.terrain_candidate->Some_0, terrain_alpha)]
    } else {
        Seq::empty()
    };
    if step_crosses(s) {
        let c: Candidate<T> = s.terrain_candidate.unwrap();
        r.push(
            TracePoint {
                class: ColorClass::Terrain,
                prop: c.prop,
                distance: c.distance,
                alpha: terrain_alpha,
                payload: c.payload,
            },
        );
    }
    assert(r@ =~= prefix + object_points(s.object_candidates@.take(0), transparent));
    let n: usize = s.object_candidates.len();
    for k in 0..n
        invariant
            n == s.object_candidates@.len(),
            r@ == prefix + object_points(s.object_candidates@.take(k as int), transparent),
    {
        let c: Candidate<T> = s.object_candidates[k];
        if c.alpha != transparent {
            r.push(
                TracePoint {
                    class: ColorClass::Rgba,
                    prop: c.prop,
                    distance: c.distance,
                    alpha: c.alpha,
                    payload: c.payload,
                },
            );
        }
        proof {
            assert(s.object_candidates@.take(k + 1).drop_last() =~= s.object_candidates@.take(
                k as int,
            ));
            assert(s.object_candidates@.take(k + 1).last() == s.object_candidates@[k as int]);
        }
    }
    proof {
        assert(s.object_candidates@.take(n as int) =~= s.object_candidates@);
    }
    r
}

/// Whether any collected point is opaque.
fn any_opaque<T>(points: &Vec<TracePoint<T>>, opaque: i64) -> (b: bool)
    ensures
        b == exists|i: int| 0 <= i < points@.len() && points@[i].alpha == opaque,
{
    let n: usize = points.len();
    for k in 0..n
        invariant
            n == points@.len(),
            forall|i: int| 0 <= i < k ==> points@[i].alpha != opaque,
    {
        if points[k].alpha == opaque {
            return true;
        }
    }
    false
}

/// Walks the steps of one pixel and returns its trace points: per step the
/// terrain crossing (if any) and the object hits, ordered within the step by
/// the fraction at which they lie, ending after the first step that produced
/// an opaque point.
pub fn get_single_pixel<T: Copy>(
    steps: &Vec<TraceStep<T>>,
    terrain_alpha: i64,
    opaque: i64,
    transparent: i64,
) -> (r: Vec<TracePoint<T>>)
    requires
        forall|i: int|
            0 <= i < steps@.len() && crossing(#[trigger] steps@[i]) ==> steps@[i].terrain_candidate
                is Some,
    ensures
        r@ == trace_result(steps@, terrain_alpha, opaque, transparent),
{
    let mut r: Vec<TracePoint<T>> = Vec::new();
    let n: usize = steps.len();
    for i in 0..n
        invariant
            n == steps@.len(),
            forall|j: int|
                0 <= j < steps@.len() && crossing(#[trigger] steps@[j])
                    ==> steps@[j].terrain_candidate is Some,
            trace_result(steps@, terrain_alpha, opaque, transparent) == r@ + trace_from(
                steps@,
                i as int,
                terrain_alpha,
                opaque,
                transparent,
            ),
    {
        let emissions = collect_step_emissions(&steps[i], terrain_alpha, transparent);
        let mut pts = sort_points(&emissions);
        let finish = any_opaque(&emissions, opaque);
        let ghost before = r@;
        let ghost pts_seq = pts@;
        let ghost rest = trace_from(steps@, i + 1, terrain_alpha, opaque, transparent);
        proof {
            assert(finish == step_opaque(steps@[i as int], terrain_alpha, opaque, transparent));
            assert(pts_seq == step_points(steps@[i as int], terrain_alpha, transparent));
        }
        r.append(&mut pts);
        if finish {
            assert(trace_from(steps@, i as int, terrain_alpha, opaque, transparent) == pts_seq);
            return r;
        }
        proof {
            assert(trace_from(steps@, i as int, terrain_alpha, opaque, transparent) == pts_seq
                + rest);
            assert((before + pts_seq) + rest =~= before + (pts_seq + rest));
        }
    }
    proof {
        assert(trace_from(steps@, n as int, terrain_alpha, opaque, transparent) =~= Seq::<
            TracePoint<T>,
        >::empty());
        assert(r@ =~= r@ + Seq::<TracePoint<T>>::empty());
    }
    r
}

} // verus!
