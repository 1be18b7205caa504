//! Triangles and their derived quantities, all computed exactly.

use vstd::prelude::*;
use crate::dec::{Dec, is_floor_sqrt, floor_sqrt, lemma_floor_sqrt_unique};
use crate::geometry::{Point, v16, coord_ok, dist2, lemma_rescale_bound, SCALE_MAX, COORD_LIMIT};

verus! {

/// Scale at which every area is reported: `2 * SCALE_MAX + 1`.
pub const AREA_SCALE: u32 = 33;

/// A triangle given by its three corners.
#[derive(Clone, Copy, Debug)]
pub struct Triangle {
    pub a: Point,
    pub b: Point,
    pub c: Point,
}

/// Twice the signed area, over reference-scale mantissas.
pub open spec fn shoelace(t: Triangle) -> int {
    v16(t.a.x) * (v16(t.b.y) - v16(t.c.y))
        + v16(t.b.x) * (v16(t.c.y) - v16(t.a.y))
        + v16(t.c.x) * (v16(t.a.y) - v16(t.b.y))
}

/// The mantissa of the (unsigned) area at scale `AREA_SCALE`.
pub open spec fn area_mantissa(t: Triangle) -> int {
    5 * (vstd::math::abs(shoelace(t)) as int)
}

/// A triangle is non-degenerate exactly when its signed area is non-zero.
pub open spec fn is_nondegenerate(t: Triangle) -> bool {
    shoelace(t) != 0
}

impl Triangle {
    /// All corners within the representable coordinate range.
    pub open spec fn wf(self) -> bool {
        self.a.wf() && self.b.wf() && self.c.wf()
    }

    /// Every corner still has scale headroom for one subdivision.
    pub open spec fn has_headroom(self) -> bool {
        self.a.has_headroom() && self.b.has_headroom() && self.c.has_headroom()
    }

    pub fn new(a: Point, b: Point, c: Point) -> (r: Triangle)
        ensures
            r == (Triangle { a, b, c }),
    {
        Triangle { a, b, c }
    }

    /// The area `|ax(by-cy) + bx(cy-ay) + cx(ay-by)| / 2`, exact,
    /// reported at scale `AREA_SCALE`.
    pub fn area(&self) -> (r: Dec)
        requires
            self.wf(),
        ensures
            r.s == AREA_SCALE,
            r.m == area_mantissa(*self),
            0 <= r.m <= 15000000000000000000000000000000000000i128,
    {
        proof {
            lemma_rescale_bound(self.a.x, SCALE_MAX as int);
            lemma_rescale_bound(self.a.y, SCALE_MAX as int);
            lemma_rescale_bound(self.b.x, SCALE_MAX as int);
            lemma_rescale_bound(self.b.y, SCALE_MAX as int);
            lemma_rescale_bound(self.c.x, SCALE_MAX as int);
            lemma_rescale_bound(self.c.y, SCALE_MAX as int);
        }
        let ax = self.a.x.rescale(SCALE_MAX).m;
        let ay = self.a.y.rescale(SCALE_MAX).m;
        let bx = self.b.x.rescale(SCALE_MAX).m;
        let by = self.b.y.rescale(SCALE_MAX).m;
        let cx = self.c.x.rescale(SCALE_MAX).m;
        let cy = self.c.y.rescale(SCALE_MAX).m;
        proof {
            lemma_shoelace_term_bound(ax as int, by as int, cy as int);
            lemma_shoelace_term_bound(bx as int, cy as int, ay as int);
            lemma_shoelace_term_bound(cx as int, ay as int, by as int);
        }
        let s = ax * (by - cy) + bx * (cy - ay) + cx * (ay - by);
        let m = if s < 0 { -s } else { s };
        Dec { m: 5 * m, s: AREA_SCALE }
    }

    /// Non-degeneracy: strictly positive area.
    pub fn is_valid(&self) -> (r: bool)
        requires
            self.wf(),
        ensures
            r == is_nondegenerate(*self),
    {
        let a = self.area();
        a.m > 0
    }

    /// The sum of the three side lengths, each rounded down at the
    /// reference scale.
    pub fn perimeter(&self) -> (r: Dec)
        requires
            self.wf(),
        ensures
            r.s == SCALE_MAX,
            r.m == floor_sqrt(dist2(self.a, self.b)) + floor_sqrt(dist2(self.b, self.c))
                + floor_sqrt(dist2(self.c, self.a)),
    {
        let d1 = self.a.distance(&self.b);
        let d2 = self.b.distance(&self.c);
        let d3 = self.c.distance(&self.a);
        proof {
            lemma_floor_sqrt_unique(dist2(self.a, self.b), d1.m as int);
            lemma_floor_sqrt_unique(dist2(self.b, self.c), d2.m as int);
            lemma_floor_sqrt_unique(dist2(self.c, self.a), d3.m as int);
            lemma_dist_mantissa_bound(self.a, self.b, d1.m as int);
            lemma_dist_mantissa_bound(self.b, self.c, d2.m as int);
            lemma_dist_mantissa_bound(self.c, self.a, d3.m as int);
        }
        Dec { m: d1.m + d2.m + d3.m, s: SCALE_MAX }
    }

    /// The centroid: each coordinate is the mean of the three corner
    /// coordinates, truncated toward zero at the reference scale.
    pub fn centroid(&self) -> (r: Point)
        requires
            self.wf(),
        ensures
            r.wf(),
            r.x.s == SCALE_MAX,
            r.y.s == SCALE_MAX,
            r.x.m == trunc_div3(v16(self.a.x) + v16(self.b.x) + v16(self.c.x)),
            r.y.m == trunc_div3(v16(self.a.y) + v16(self.b.y) + v16(self.c.y)),
    {
        proof {
            lemma_rescale_bound(self.a.x, SCALE_MAX as int);
            lemma_rescale_bound(self.a.y, SCALE_MAX as int);
            lemma_rescale_bound(self.b.x, SCALE_MAX as int);
            lemma_rescale_bound(self.b.y, SCALE_MAX as int);
            lemma_rescale_bound(self.c.x, SCALE_MAX as int);
            lemma_rescale_bound(self.c.y, SCALE_MAX as int);
        }
        let sx = self.a.x.rescale(SCALE_MAX).m + self.b.x.rescale(SCALE_MAX).m
            + self.c.x.rescale(SCALE_MAX).m;
        let sy = self.a.y.rescale(SCALE_MAX).m + self.b.y.rescale(SCALE_MAX).m
            + self.c.y.rescale(SCALE_MAX).m;
        let x = Dec { m: div3_toward_zero(sx), s: SCALE_MAX };
        let y = Dec { m: div3_toward_zero(sy), s: SCALE_MAX };
        proof {
            lemma_trunc_div3_bound(sx as int);
            lemma_trunc_div3_bound(sy as int);
            vstd::arithmetic::power::lemma_pow0(10);
        }
        Point { x, y }
    }
}

/// Truncating (toward zero) division by three.
pub open spec fn trunc_div3(a: int) -> int {
    if a >= 0 {
        a / 3
    } else {
        -((-a) / 3)
    }
}

proof fn lemma_trunc_div3_bound(a: int)
    ensures
        vstd::math::abs(trunc_div3(a)) <= vstd::math::abs(a),
        3 * vstd::math::abs(trunc_div3(a)) <= vstd::math::abs(a),
{
    let m = vstd::math::abs(a);
    vstd::arithmetic::div_mod::lemma_fundamental_div_mod(m as int, 3);
    vstd::arithmetic::div_mod::lemma_div_pos_is_pos(m as int, 3);
}

fn div3_toward_zero(a: i128) -> (r: i128)
    requires
        a != i128::MIN,
    ensures
        r == trunc_div3(a as int),
{
    if a >= 0 {
        let q = (a as u128) / 3;
        proof {
            vstd::arithmetic::div_mod::lemma_div_pos_is_pos(a as int, 3);
            vstd::arithmetic::div_mod::lemma_div_is_ordered_by_denominator(a as int, 1, 3);
        }
        q as i128
    } else {
        let q = ((-a) as u128) / 3;
        proof {
            vstd::arithmetic::div_mod::lemma_div_pos_is_pos(-a as int, 3);
            vstd::arithmetic::div_mod::lemma_div_is_ordered_by_denominator(-a as int, 1, 3);
        }
        -(q as i128)
    }
}

/// One term of the shoelace sum stays within a fixed bound.
proof fn lemma_shoelace_term_bound(x: int, y1: int, y2: int)
    requires
        -COORD_LIMIT <= x <= COORD_LIMIT,
        -COORD_LIMIT <= y1 <= COORD_LIMIT,
        -COORD_LIMIT <= y2 <= COORD_LIMIT,
    ensures
        -1000000000000000000000000000000000000 <= x * (y1 - y2)
            <= 1000000000000000000000000000000000000,
{
    assert(-1000000000000000000000000000000000000 <= x * (y1 - y2)
        <= 1000000000000000000000000000000000000) by (nonlinear_arith)
        requires
            -COORD_LIMIT <= x <= COORD_LIMIT,
            -COORD_LIMIT <= y1 <= COORD_LIMIT,
            -COORD_LIMIT <= y2 <= COORD_LIMIT;
}

/// A rounded side length of two bounded points fits comfortably in `i128`.
proof fn lemma_dist_mantissa_bound(p: Point, q: Point, r: int)
    requires
        p.wf(),
        q.wf(),
        is_floor_sqrt(dist2(p, q), r),
    ensures
        0 <= r <= 2000000000000000000,
{
    assert(dist2(p, q) <= 2000000000000000000000000000000000000) by (nonlinear_arith)
        requires
            -COORD_LIMIT <= v16(p.x) <= COORD_LIMIT,
            -COORD_LIMIT <= v16(p.y) <= COORD_LIMIT,
            -COORD_LIMIT <= v16(q.x) <= COORD_LIMIT,
            -COORD_LIMIT <= v16(q.y) <= COORD_LIMIT;
    assert(r <= 2000000000000000000) by (nonlinear_arith)
        requires
            0 <= r,
            r * r <= 2000000000000000000000000000000000000;
}

impl PartialEq for Triangle {
    /// Corner-wise value equality.
    fn eq(&self, other: &Triangle) -> (r: bool) {
        self.a == other.a && self.b == other.b && self.c == other.c
    }
}

impl Eq for Triangle {}

impl vstd::std_specs::cmp::PartialEqSpecImpl for Triangle {
    open spec fn obeys_eq_spec() -> bool {
        true
    }

    open spec fn eq_spec(&self, other: &Triangle) -> bool {
        &&& self.a.x.same_value(other.a.x) && self.a.y.same_value(other.a.y)
        &&& self.b.x.same_value(other.b.x) && self.b.y.same_value(other.b.y)
        &&& self.c.x.same_value(other.c.x) && self.c.y.same_value(other.c.y)
    }
}

} // verus!
