//! Standalone validity checks for triangles and fractal regions.

use vstd::prelude::*;
use crate::fractal::FractalTriangle;
use crate::genesis::{GenesisTriangle, genesis_valid_spec};
use crate::geometry::point_wf_check;
use crate::triangle::{Triangle, is_nondegenerate};

verus! {

/// A triangle is valid when it is representable and non-degenerate.
pub fn validate_triangle(triangle: &Triangle) -> (r: bool)
    ensures
        r == (triangle.wf() && is_nondegenerate(*triangle)),
{
    if !(point_wf_check(&triangle.a) && point_wf_check(&triangle.b)
        && point_wf_check(&triangle.c)) {
        return false;
    }
    triangle.is_valid()
}

/// What `validate_fractal_triangle` accepts: the depth steps down from
/// the parent by one, and a depth-zero node must carry the (representable)
/// genesis triangle.
pub open spec fn fractal_triangle_valid_spec(
    ft: FractalTriangle,
    parent: Option<FractalTriangle>,
) -> bool {
    &&& (parent matches Some(p) ==> ft.depth == p.depth + 1)
    &&& (ft.depth == 0 ==> ft.triangle.wf() && genesis_valid_spec(ft.triangle))
}

/// Check a fractal region against its (optional) parent: the generation
/// count must increase by one, and a generation-zero region must be the
/// genesis triangle.
pub fn validate_fractal_triangle(
    fractal_tri: &FractalTriangle,
    parent_tri: Option<&FractalTriangle>,
) -> (r: bool)
    ensures
        r == fractal_triangle_valid_spec(*fractal_tri, match parent_tri {
            Some(p) => Some(*p),
            None => None,
        }),
{
    match parent_tri {
        Some(parent) => {
            if parent.depth == u32::MAX || fractal_tri.depth != parent.depth + 1 {
                return false;
            }
        },
        None => {},
    }

    if fractal_tri.depth == 0 {
        if !(point_wf_check(&fractal_tri.triangle.a)
            && point_wf_check(&fractal_tri.triangle.b)
            && point_wf_check(&fractal_tri.triangle.c)) {
            return false;
        }
        return GenesisTriangle::validate(&fractal_tri.triangle);
    }

    true
}

} // verus!
