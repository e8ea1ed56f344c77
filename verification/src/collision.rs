//! Root handling for the frustum side-surface intersection.
//!
//! Intersecting a ray segment with the side surface of a frustum leads to a
//! quadratic equation. The application computes the discriminant and tests
//! each root for lying within the segment and within the frustum's height;
//! this module owns the decision how many roots exist: a negative
//! discriminant has none, a zero discriminant has one double root — counted
//! once, so that a tangent ray yields at most one side intersection — and a
//! positive discriminant has two.

use vstd::prelude::*;

verus! {

/// The sign of the discriminant of the side-surface quadratic.
#[derive(Debug, Clone, Copy, PartialEq, Eq, Structural)]
pub enum DiscriminantSign {
    Negative,
    Zero,
    Positive,
}

/// How often each root of the quadratic is counted as a candidate: the lesser
/// root and the greater root. A zero discriminant makes them coincide, and
/// the double root is counted once.
pub fn side_root_candidates(delta: DiscriminantSign) -> (r: (bool, bool))
    ensures
        delta == DiscriminantSign::Negative ==> r == (false, false),
        delta == DiscriminantSign::Zero ==> r == (true, false),
        delta == DiscriminantSign::Positive ==> r == (true, true),
{
    match delta {
        DiscriminantSign::Negative => (false, false),
        DiscriminantSign::Zero => (true, false),
        DiscriminantSign::Positive => (true, true),
    }
}

/// The side-surface hits kept, given which roots exist and which of them the
/// application found to lie within the segment and the frustum's height: the
/// indices of the accepted roots, in order.
pub fn accepted_side_roots(delta: DiscriminantSign, first_in_range: bool, second_in_range: bool) -> (r: Vec<u8>)
    ensures
        delta == DiscriminantSign::Negative ==> r@ == Seq::<u8>::empty(),
        delta == DiscriminantSign::Zero ==> r@ == (if first_in_range {
            seq![0u8]
        } else {
            Seq::<u8>::empty()
        }),
        delta == DiscriminantSign::Positive ==> r@ == (if first_in_range {
            seq![0u8]
        } else {
            Seq::<u8>::empty()
        }) + (if second_in_range {
            seq![1u8]
        } else {
            Seq::<u8>::empty()
        }),
        r@.len() <= 2,
        delta == DiscriminantSign::Zero ==> r@.len() <= 1,
{
    let mut r: Vec<u8> = Vec::new();
    let (use_first, use_second) = side_root_candidates(delta);
    if use_first && first_in_range {
        r.push(0);
    }
    if use_second && second_in_range {
        r.push(1);
    }
    proof {
        if delta == DiscriminantSign::Negative {
            assert(r@ =~= Seq::<u8>::empty());
        }
        if delta == DiscriminantSign::Zero && !first_in_range {
            assert(r@ =~= Seq::<u8>::empty());
        }
        if delta == DiscriminantSign::Positive {
            assert(r@ =~= (if first_in_range {
                seq![0u8]
            } else {
                Seq::<u8>::empty()
            }) + (if second_in_range {
                seq![1u8]
            } else {
                Seq::<u8>::empty()
            }));
        }
    }
    r
}

} // verus!
