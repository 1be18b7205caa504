//! The medial-triangle subdivision: a triangle splits into the three
//! corner triangles spanned by its corners and edge midpoints; the central
//! inverted triangle is deliberately excluded and becomes a void region.

use vstd::prelude::*;
use crate::errors::TriangleError;
use crate::geometry::v16;
use crate::triangle::{Triangle, shoelace, area_mantissa, is_nondegenerate};

verus! {

/// The three corner triangles of the medial construction, at the value level:
/// `c1 = (a, mid_ab, mid_ca)`, `c2 = (mid_ab, b, mid_bc)`, `c3 = (mid_ca, mid_bc, c)`.
pub open spec fn are_medial_children(t: Triangle, c1: Triangle, c2: Triangle, c3: Triangle) -> bool {
    &&& c1.a == t.a && c2.b == t.b && c3.c == t.c
    &&& c2.a == c1.b && c3.a == c1.c && c3.b == c2.c
    &&& 2 * v16(c1.b.x) == v16(t.a.x) + v16(t.b.x)
    &&& 2 * v16(c1.b.y) == v16(t.a.y) + v16(t.b.y)
    &&& 2 * v16(c2.c.x) == v16(t.b.x) + v16(t.c.x)
    &&& 2 * v16(c2.c.y) == v16(t.b.y) + v16(t.c.y)
    &&& 2 * v16(c1.c.x) == v16(t.c.x) + v16(t.a.x)
    &&& 2 * v16(c1.c.y) == v16(t.c.y) + v16(t.a.y)
}

/// Split a triangle into its three medial children.
///
/// Fails exactly when the triangle is degenerate or one of its coordinates
/// already sits at the finest representable scale.  The second condition is
/// a machine limit of the exact decimal coordinates: a midpoint needs one
/// more fraction digit than its endpoints, and this representation computes
/// midpoints exactly rather than rounding, so a coordinate at the scale
/// ceiling has no exact midpoint left.  Each child is exactly a quarter of
/// the parent's area, so no child of a non-degenerate parent is degenerate.
pub fn subdivide_triangle(tri: &Triangle) -> (r: Result<
    (Triangle, Triangle, Triangle),
    TriangleError,
>)
    requires
        tri.wf(),
    ensures
        r is Ok <==> is_nondegenerate(*tri) && tri.has_headroom(),
        r matches Ok((c1, c2, c3)) ==> {
            &&& c1.wf() && c2.wf() && c3.wf()
            &&& are_medial_children(*tri, c1, c2, c3)
            &&& 4 * shoelace(c1) == shoelace(*tri)
            &&& 4 * shoelace(c2) == shoelace(*tri)
            &&& 4 * shoelace(c3) == shoelace(*tri)
            &&& area_mantissa(*tri) == 4 * area_mantissa(c1)
            &&& area_mantissa(*tri) == 4 * area_mantissa(c2)
            &&& area_mantissa(*tri) == 4 * area_mantissa(c3)
            &&& is_nondegenerate(c1) && is_nondegenerate(c2) && is_nondegenerate(c3)
        },
        r is Err ==> (r matches Err(TriangleError::InvalidTriangle(_))),
{
    if !tri.is_valid() {
        return Err(TriangleError::InvalidTriangle(
            "Cannot subdivide a degenerate triangle".to_string(),
        ));
    }
    if !(tri.a.x.s < crate::geometry::SCALE_MAX && tri.a.y.s < crate::geometry::SCALE_MAX
        && tri.b.x.s < crate::geometry::SCALE_MAX && tri.b.y.s < crate::geometry::SCALE_MAX
        && tri.c.x.s < crate::geometry::SCALE_MAX && tri.c.y.s < crate::geometry::SCALE_MAX) {
        return Err(TriangleError::InvalidTriangle(
            "Coordinates are too fine to subdivide further".to_string(),
        ));
    }
    let mid_ab = tri.a.midpoint(&tri.b);
    let mid_bc = tri.b.midpoint(&tri.c);
    let mid_ca = tri.c.midpoint(&tri.a);

    let child1 = Triangle { a: tri.a, b: mid_ab, c: mid_ca };
    let child2 = Triangle { a: mid_ab, b: tri.b, c: mid_bc };
    let child3 = Triangle { a: mid_ca, b: mid_bc, c: tri.c };
    proof {
        lemma_medial_shoelace(
            v16(tri.a.x), v16(tri.a.y),
            v16(tri.b.x), v16(tri.b.y),
            v16(tri.c.x), v16(tri.c.y),
            v16(mid_ab.x), v16(mid_ab.y),
            v16(mid_bc.x), v16(mid_bc.y),
            v16(mid_ca.x), v16(mid_ca.y),
        );
        lemma_quarter_area(*tri, child1);
        lemma_quarter_area(*tri, child2);
        lemma_quarter_area(*tri, child3);
    }
    Ok((child1, child2, child3))
}

/// The shoelace sum of each medial child is a quarter of the parent's.
proof fn lemma_medial_shoelace(
    ax: int, ay: int,
    bx: int, by: int,
    cx: int, cy: int,
    m1x: int, m1y: int,
    m2x: int, m2y: int,
    m3x: int, m3y: int,
)
    requires
        2 * m1x == ax + bx,
        2 * m1y == ay + by,
        2 * m2x == bx + cx,
        2 * m2y == by + cy,
        2 * m3x == cx + ax,
        2 * m3y == cy + ay,
    ensures
        4 * (ax * (m1y - m3y) + m1x * (m3y - ay) + m3x * (ay - m1y))
            == ax * (by - cy) + bx * (cy - ay) + cx * (ay - by),
        4 * (m1x * (by - m2y) + bx * (m2y - m1y) + m2x * (m1y - by))
            == ax * (by - cy) + bx * (cy - ay) + cx * (ay - by),
        4 * (m3x * (m2y - cy) + m2x * (cy - m3y) + cx * (m3y - m2y))
            == ax * (by - cy) + bx * (cy - ay) + cx * (ay - by),
{
    assert(4 * (ax * (m1y - m3y) + m1x * (m3y - ay) + m3x * (ay - m1y))
        == ax * (by - cy) + bx * (cy - ay) + cx * (ay - by)) by (nonlinear_arith)
        requires
            2 * m1x == ax + bx,
            2 * m1y == ay + by,
            2 * m3x == cx + ax,
            2 * m3y == cy + ay;
    assert(4 * (m1x * (by - m2y) + bx * (m2y - m1y) + m2x * (m1y - by))
        == ax * (by - cy) + bx * (cy - ay) + cx * (ay - by)) by (nonlinear_arith)
        requires
            2 * m1x == ax + bx,
            2 * m1y == ay + by,
            2 * m2x == bx + cx,
            2 * m2y == by + cy;
    assert(4 * (m3x * (m2y - cy) + m2x * (cy - m3y) + cx * (m3y - m2y))
        == ax * (by - cy) + bx * (cy - ay) + cx * (ay - by)) by (nonlinear_arith)
        requires
            2 * m2x == bx + cx,
            2 * m2y == by + cy,
            2 * m3x == cx + ax,
            2 * m3y == cy + ay;
}

/// From a quartered shoelace sum to a quartered area mantissa.
proof fn lemma_quarter_area(t: Triangle, c: Triangle)
    requires
        4 * shoelace(c) == shoelace(t),
    ensures
        area_mantissa(t) == 4 * area_mantissa(c),
{
    let sc = shoelace(c);
    assert(vstd::math::abs(4 * sc) == 4 * vstd::math::abs(sc));
}

} // verus!
