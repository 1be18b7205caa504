//! The genesis region: a unit equilateral triangle.

use vstd::prelude::*;
use crate::dec::{Dec, floor_sqrt};
use crate::geometry::{Point, dist2, v16, SCALE_MAX};
use crate::triangle::{Triangle, area_mantissa, is_nondegenerate, AREA_SCALE};

verus! {

/// The genesis triangle: corners (0,0), (1,0) and (1/2, sqrt(3)/2),
/// with the height written out to twelve decimal places.
pub struct GenesisTriangle;

/// Tolerance for the equilateral side check: 1e-9 at the coordinate scale.
pub const SIDE_TOLERANCE: i128 = 10000000;

/// `sqrt(3)/4`, the area of the unit equilateral triangle, as a mantissa
/// at the area scale.
pub const UNIT_AREA_MANTISSA: i128 = 433012701892219300000000000000000;

/// Tolerance for the area check: 1e-9 at the area scale.
pub const AREA_TOLERANCE: i128 = 1000000000000000000000000;

/// What `GenesisTriangle::validate` accepts: sides pairwise equal and
/// area equal to `sqrt(3)/4`, all within a billionth.
pub open spec fn genesis_valid_spec(t: Triangle) -> bool {
    let s1 = floor_sqrt(dist2(t.a, t.b));
    let s2 = floor_sqrt(dist2(t.b, t.c));
    let s3 = floor_sqrt(dist2(t.c, t.a));
    &&& -SIDE_TOLERANCE < s1 - s2 < SIDE_TOLERANCE
    &&& -SIDE_TOLERANCE < s2 - s3 < SIDE_TOLERANCE
    &&& -AREA_TOLERANCE < area_mantissa(t) - UNIT_AREA_MANTISSA < AREA_TOLERANCE
}

/// The genesis triangle value: corners (0,0), (1,0) and (1/2, sqrt(3)/2),
/// the height truncated to twelve decimal places.
pub open spec fn genesis_triangle_spec() -> Triangle {
    Triangle {
        a: Point { x: Dec { m: 0, s: 0 }, y: Dec { m: 0, s: 0 } },
        b: Point { x: Dec { m: 1, s: 0 }, y: Dec { m: 0, s: 0 } },
        c: Point { x: Dec { m: 5, s: 1 }, y: Dec { m: 866025403784, s: 12 } },
    }
}

impl GenesisTriangle {
    /// The canonical genesis triangle.
    pub fn new() -> (r: Triangle)
        ensures
            r == genesis_triangle_spec(),
            r.wf(),
            r.has_headroom(),
            is_nondegenerate(r),
    {
        let a = Point::new(Dec::new(0, 0), Dec::new(0, 0));
        let b = Point::new(Dec::new(1, 0), Dec::new(0, 0));
        let c = Point::new(Dec::new(5, 1), Dec::new(866025403784, 12));
        let r = Triangle::new(a, b, c);
        proof {
            lemma_p10_concrete();
        }
        r
    }

    /// Check that a triangle is (within tolerance) the unit equilateral
    /// triangle: all sides equal and area `sqrt(3)/4`.
    pub fn validate(triangle: &Triangle) -> (r: bool)
        requires
            triangle.wf(),
        ensures
            r == genesis_valid_spec(*triangle),
    {
        let side1 = triangle.a.distance(&triangle.b);
        let side2 = triangle.b.distance(&triangle.c);
        let side3 = triangle.c.distance(&triangle.a);
        proof {
            crate::dec::lemma_floor_sqrt_unique(
                dist2(triangle.a, triangle.b), side1.m as int);
            crate::dec::lemma_floor_sqrt_unique(
                dist2(triangle.b, triangle.c), side2.m as int);
            crate::dec::lemma_floor_sqrt_unique(
                dist2(triangle.c, triangle.a), side3.m as int);
        }
        let d12 = side1.m - side2.m;
        let d23 = side2.m - side3.m;
        let is_equilateral = -SIDE_TOLERANCE < d12 && d12 < SIDE_TOLERANCE
            && -SIDE_TOLERANCE < d23 && d23 < SIDE_TOLERANCE;
        let area = triangle.area();
        let da = area.m - UNIT_AREA_MANTISSA;
        let is_perfect_area = -AREA_TOLERANCE < da && da < AREA_TOLERANCE;
        is_equilateral && is_perfect_area
    }
}

/// Concrete powers of ten used to evaluate the genesis coordinates.
proof fn lemma_p10_concrete()
    ensures
        crate::dec::p10(16) == 0x2386f26fc10000,
        crate::dec::p10(15) == 0x38d7ea4c68000,
        crate::dec::p10(4) == 10000,
{
    vstd::arithmetic::power::lemma_pow0(10);
    lemma_p10_step(0);
    lemma_p10_step(1);
    lemma_p10_step(2);
    lemma_p10_step(3);
    lemma_p10_step(4);
    lemma_p10_step(5);
    lemma_p10_step(6);
    lemma_p10_step(7);
    lemma_p10_step(8);
    lemma_p10_step(9);
    lemma_p10_step(10);
    lemma_p10_step(11);
    lemma_p10_step(12);
    lemma_p10_step(13);
    lemma_p10_step(14);
    lemma_p10_step(15);
}

proof fn lemma_p10_step(e: nat)
    ensures
        crate::dec::p10(e + 1) == 10 * crate::dec::p10(e),
{
    vstd::arithmetic::power::lemma_pow1(10);
    vstd::arithmetic::power::lemma_pow_adds(10, 1nat, e);
}

} // verus!
