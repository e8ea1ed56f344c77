//! The blending policy of the interpolating rectilinear generator.
//!
//! Each pixel's ray is quantized onto a lattice of cached rays; the pixel lies
//! inside a lattice cell, at fractional offsets (re, rd) from the cell's lower
//! corner. For one class of trace points, each of the four corners may or may
//! not have supplied a point. This module decides, from which corners are
//! present and in which quadrant of the cell the pixel lies, whether a point
//! is emitted and how the present corners are blended; the blending weights
//! themselves are computed by the application. A corner is written as a pair
//! of sides (elevation side, direction side), `false` for the lower side; the
//! pixel's quadrant is the corner it is nearest to, with the upper side taken
//! at the midpoint.

use vstd::prelude::*;

verus! {

/// Which corners of the lattice cell supplied a trace point of the class:
/// `cED` is the corner on elevation side E and direction side D.
#[derive(Debug, Clone, Copy, PartialEq, Eq, Structural)]
pub struct CornerSet {
    pub c00: bool,
    pub c01: bool,
    pub c10: bool,
    pub c11: bool,
}

/// How the present corners are combined into the pixel's trace point.
#[derive(Debug, Clone, Copy, PartialEq, Eq)]
pub enum BlendPolicy {
    /// No point is emitted for this class.
    Discard,
    /// The single present corner's point is taken as it is.
    Single { corner: (bool, bool) },
    /// Two edge-adjacent corners are blended linearly along their edge.
    EdgeBlend { first: (bool, bool), second: (bool, bool) },
    /// Two diagonally opposite corners are blended along the diagonal.
    DiagonalBlend { first: (bool, bool), second: (bool, bool) },
    /// Three corners are blended bilinearly over their sub-triangle.
    TriangleBlend { missing: (bool, bool) },
    /// All four corners are blended bilinearly.
    Bilinear,
}

/// Whether the corner on the given sides supplied a point.
pub open spec fn corner_present(p: CornerSet, hi_e: bool, hi_d: bool) -> bool {
    if hi_e {
        if hi_d {
            p.c11
        } else {
            p.c10
        }
    } else {
        if hi_d {
            p.c01
        } else {
            p.c00
        }
    }
}

/// How many corners supplied a point.
pub open spec fn count_present(p: CornerSet) -> int {
    (if p.c00 {
        1int
    } else {
        0int
    }) + (if p.c01 {
        1int
    } else {
        0int
    }) + (if p.c10 {
        1int
    } else {
        0int
    }) + (if p.c11 {
        1int
    } else {
        0int
    })
}

/// Decides how the corners' points are combined for a pixel lying in the
/// quadrant given by `re_hi` (upper elevation half) and `rd_hi` (upper
/// direction half):
///
/// - no corner: nothing is emitted;
/// - one corner: its point is kept only if the pixel lies in that corner's
///   quadrant;
/// - two edge-adjacent corners: blended when the pixel lies on their half of
///   the cell, else nothing;
/// - two diagonal corners: blended when the pixel lies in one of their two
///   quadrants, else nothing;
/// - three corners: blended over the sub-triangle unless the pixel lies in
///   the missing corner's quadrant;
/// - four corners: always blended bilinearly.
pub fn blend_policy(p: CornerSet, re_hi: bool, rd_hi: bool) -> (r: BlendPolicy)
    ensures
        count_present(p) == 0 ==> r == BlendPolicy::Discard,
        count_present(p) == 1 && corner_present(p, re_hi, rd_hi) ==> r == (BlendPolicy::Single {
            corner: (re_hi, rd_hi),
        }),
        count_present(p) == 1 && !corner_present(p, re_hi, rd_hi) ==> r == BlendPolicy::Discard,
        p.c00 && p.c01 && count_present(p) == 2 ==> r == (if !re_hi {
            BlendPolicy::EdgeBlend { first: (false, false), second: (false, true) }
        } else {
            BlendPolicy::Discard
        }),
        p.c10 && p.c11 && count_present(p) == 2 ==> r == (if re_hi {
            BlendPolicy::EdgeBlend { first: (true, false), second: (true, true) }
        } else {
            BlendPolicy::Discard
        }),
        p.c00 && p.c10 && count_present(p) == 2 ==> r == (if !rd_hi {
            BlendPolicy::EdgeBlend { first: (false, false), second: (true, false) }
        } else {
            BlendPolicy::Discard
        }),
        p.c01 && p.c11 && count_present(p) == 2 ==> r == (if rd_hi {
            BlendPolicy::EdgeBlend { first: (false, true), second: (true, true) }
        } else {
            BlendPolicy::Discard
        }),
        p.c00 && p.c11 && count_present(p) == 2 ==> r == (if re_hi == rd_hi {
            BlendPolicy::DiagonalBlend { first: (false, false), second: (true, true) }
        } else {
            BlendPolicy::Discard
        }),
        p.c01 && p.c10 && count_present(p) == 2 ==> r == (if re_hi != rd_hi {
            BlendPolicy::DiagonalBlend { first: (false, true), second: (true, false) }
        } else {
            BlendPolicy::Discard
        }),
        count_present(p) == 3 && !p.c00 ==> r == (if !re_hi && !rd_hi {
            BlendPolicy::Discard
        } else {
            BlendPolicy::TriangleBlend { missing: (false, false) }
        }),
        count_present(p) == 3 && !p.c01 ==> r == (if !re_hi && rd_hi {
            BlendPolicy::Discard
        } else {
            BlendPolicy::TriangleBlend { missing: (false, true) }
        }),
        count_present(p) == 3 && !p.c10 ==> r == (if re_hi && !rd_hi {
            BlendPolicy::Discard
        } else {
            BlendPolicy::TriangleBlend { missing: (true, false) }
        }),
        count_present(p) == 3 && !p.c11 ==> r == (if re_hi && rd_hi {
            BlendPolicy::Discard
        } else {
            BlendPolicy::TriangleBlend { missing: (true, true) }
        }),
        count_present(p) == 4 ==> r == BlendPolicy::Bilinear,
{
    let n: u8 = (if p.c00 {
        1u8
    } else {
        0u8
    }) + (if p.c01 {
        1u8
    } else {
        0u8
    }) + (if p.c10 {
        1u8
    } else {
        0u8
    }) + (if p.c11 {
        1u8
    } else {
        0u8
    });
    if n == 0 {
        BlendPolicy::Discard
    } else if n == 1 {
        let present: (bool, bool) = if p.c00 {
            (false, false)
        } else if p.c01 {
            (false, true)
        } else if p.c10 {
            (true, false)
        } else {
            (true, true)
        };
        if present.0 == re_hi && present.1 == rd_hi {
            BlendPolicy::Single { corner: present }
        } else {
            BlendPolicy::Discard
        }
    } else if n == 2 {
        if p.c00 && p.c01 {
            if !re_hi {
                BlendPolicy::EdgeBlend { first: (false, false), second: (false, true) }
            } else {
                BlendPolicy::Discard
            }
        } else if p.c10 && p.c11 {
            if re_hi {
                BlendPolicy::EdgeBlend { first: (true, false), second: (true, true) }
            } else {
                BlendPolicy::Discard
            }
        } else if p.c00 && p.c10 {
            if !rd_hi {
                BlendPolicy::EdgeBlend { first: (false, false), second: (true, false) }
            } else {
                BlendPolicy::Discard
            }
        } else if p.c01 && p.c11 {
            if rd_hi {
                BlendPolicy::EdgeBlend { first: (false, true), second: (true, true) }
            } else {
                BlendPolicy::Discard
            }
        } else if p.c00 && p.c11 {
            if re_hi == rd_hi {
                BlendPolicy::DiagonalBlend { first: (false, false), second: (true, true) }
            } else {
                BlendPolicy::Discard
            }
        } else {
            if re_hi != rd_hi {
                BlendPolicy::DiagonalBlend { first: (false, true), second: (true, false) }
            } else {
                BlendPolicy::Discard
            }
        }
    } else if n == 3 {
        let missing: (bool, bool) = if !p.c00 {
            (false, false)
        } else if !p.c01 {
            (false, true)
        } else if !p.c10 {
            (true, false)
        } else {
            (true, true)
        };
        if re_hi == missing.0 && rd_hi == missing.1 {
            BlendPolicy::Discard
        } else {
            BlendPolicy::TriangleBlend { missing }
        }
    } else {
        BlendPolicy::Bilinear
    }
}

} // verus!
