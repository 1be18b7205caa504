//! Points in the plane, with exact decimal coordinates.

use vstd::prelude::*;
use crate::dec::{Dec, p10, lemma_p10_pos, lemma_p10_adds, lemma_at_scale_compose, isqrt};

verus! {

/// The finest scale a coordinate may carry (decimal fraction digits).
pub const SCALE_MAX: u32 = 16;

/// Bound on a coordinate's mantissa once rewritten at `SCALE_MAX`;
/// keeps every intermediate of the area formula inside `i128`.
pub const COORD_LIMIT: i128 = 500000000000000000;

/// A coordinate rewritten at the reference scale `SCALE_MAX`.
pub open spec fn v16(d: Dec) -> int {
    d.at_scale(SCALE_MAX as int)
}

/// What a coordinate must satisfy: scale within range, magnitude bounded.
pub open spec fn coord_ok(d: Dec) -> bool {
    &&& d.s <= SCALE_MAX
    &&& -COORD_LIMIT <= v16(d) <= COORD_LIMIT
}

/// A point of the plane.
#[derive(Clone, Copy, Debug)]
pub struct Point {
    pub x: Dec,
    pub y: Dec,
}

impl Point {
    /// Both coordinates within the representable range.
    pub open spec fn wf(self) -> bool {
        coord_ok(self.x) && coord_ok(self.y)
    }

    /// Neither coordinate is at the finest scale yet, so a midpoint
    /// with this point as an endpoint is still representable.
    pub open spec fn has_headroom(self) -> bool {
        self.x.s < SCALE_MAX && self.y.s < SCALE_MAX
    }

    pub fn new(x: Dec, y: Dec) -> (r: Point)
        ensures
            r == (Point { x, y }),
    {
        Point { x, y }
    }

    /// The midpoint of the segment from `self` to `other`; exact.
    pub fn midpoint(&self, other: &Point) -> (r: Point)
        requires
            self.wf(),
            other.wf(),
            self.has_headroom(),
            other.has_headroom(),
        ensures
            r.wf(),
            2 * v16(r.x) == v16(self.x) + v16(other.x),
            2 * v16(r.y) == v16(self.y) + v16(other.y),
            r.x.s <= if self.x.s >= other.x.s { self.x.s + 1 } else { other.x.s + 1 },
            r.y.s <= if self.y.s >= other.y.s { self.y.s + 1 } else { other.y.s + 1 },
    {
        let x = mid_coord(self.x, other.x);
        let y = mid_coord(self.y, other.y);
        Point { x, y }
    }
}

/// One coordinate of a midpoint: `(a + b) / 2`, computed exactly as
/// `5 * (a + b)` one scale finer.
fn mid_coord(a: Dec, b: Dec) -> (r: Dec)
    requires
        coord_ok(a),
        coord_ok(b),
        a.s < SCALE_MAX,
        b.s < SCALE_MAX,
    ensures
        coord_ok(r),
        2 * v16(r) == v16(a) + v16(b),
        r.s <= if a.s >= b.s { a.s + 1 } else { b.s + 1 },
{
    let s: u32 = if a.s >= b.s { a.s } else { b.s };
    proof {
        lemma_rescale_bound(a, s as int);
        lemma_rescale_bound(b, s as int);
    }
    let sum = a.add(b);
    let r = sum.half();
    proof {
        // v16(r) = 5 * (a@s + b@s) * 10^(16-s-1); v16(a)+v16(b) = (a@s + b@s) * 10^(16-s)
        let k = (SCALE_MAX - s - 1) as nat;
        let asum = a.at_scale(s as int) + b.at_scale(s as int);
        lemma_p10_pos(k);
        assert(v16(r) == (5 * asum) * p10(k));
        assert(v16(a) == a.at_scale(s as int) * (10 * p10(k))) by {
            lemma_at_scale_compose(a, s as int, SCALE_MAX as int);
            lemma_p10_adds(1, k);
            vstd::arithmetic::power::lemma_pow1(10);
        }
        assert(v16(b) == b.at_scale(s as int) * (10 * p10(k))) by {
            lemma_at_scale_compose(b, s as int, SCALE_MAX as int);
            lemma_p10_adds(1, k);
            vstd::arithmetic::power::lemma_pow1(10);
        }
        assert(2 * ((5 * asum) * p10(k)) == a.at_scale(s as int) * (10 * p10(k))
            + b.at_scale(s as int) * (10 * p10(k))) by (nonlinear_arith)
            requires
                asum == a.at_scale(s as int) + b.at_scale(s as int);
        // magnitude: |v16(r)| is the average of two bounded values
        assert(-COORD_LIMIT <= v16(r) <= COORD_LIMIT) by (nonlinear_arith)
            requires
                2 * v16(r) == v16(a) + v16(b),
                -COORD_LIMIT <= v16(a) <= COORD_LIMIT,
                -COORD_LIMIT <= v16(b) <= COORD_LIMIT;
    }
    r
}

/// A coordinate rewritten at any scale between its own and `SCALE_MAX`
/// keeps a mantissa no larger than its `v16` magnitude.
pub proof fn lemma_rescale_bound(d: Dec, s: int)
    requires
        coord_ok(d),
        d.s <= s <= SCALE_MAX,
    ensures
        vstd::math::abs(d.m as int) * p10((s - d.s) as nat) <= COORD_LIMIT,
        -COORD_LIMIT <= d.at_scale(s) <= COORD_LIMIT,
{
    let k = (s - d.s) as nat;
    let j = (SCALE_MAX - s) as nat;
    lemma_p10_pos(k);
    lemma_p10_pos(j);
    lemma_at_scale_compose(d, s, SCALE_MAX as int);
    assert(vstd::math::abs(d.at_scale(s)) * 1 <= vstd::math::abs(d.at_scale(s)) * p10(j))
        by (nonlinear_arith)
        requires
            p10(j) >= 1;
    assert(vstd::math::abs(d.at_scale(s) * p10(j)) == vstd::math::abs(d.at_scale(s)) * p10(j))
        by (nonlinear_arith)
        requires
            p10(j) >= 1;
    assert(vstd::math::abs(d.m * p10(k)) == vstd::math::abs(d.m as int) * p10(k))
        by (nonlinear_arith)
        requires
            p10(k) >= 1;
}

impl PartialEq for Point {
    /// Coordinate-wise value equality.
    fn eq(&self, other: &Point) -> (r: bool) {
        self.x == other.x && self.y == other.y
    }
}

impl Eq for Point {}

impl vstd::std_specs::cmp::PartialEqSpecImpl for Point {
    open spec fn obeys_eq_spec() -> bool {
        true
    }

    open spec fn eq_spec(&self, other: &Point) -> bool {
        self.x.same_value(other.x) && self.y.same_value(other.y)
    }
}

impl Point {
    /// Euclidean distance, rounded down at scale `SCALE_MAX`.
    /// The result `r` satisfies `r^2 <= dx^2 + dy^2 < (r + ulp)^2`
    /// where all quantities are mantissas at the reference scale.
    pub fn distance(&self, other: &Point) -> (r: Dec)
        requires
            self.wf(),
            other.wf(),
        ensures
            r.s == SCALE_MAX,
            r.m >= 0,
            r.m * r.m <= dist2(*self, *other),
            (r.m + 1) * (r.m + 1) > dist2(*self, *other),
    {
        proof {
            lemma_rescale_bound(self.x, SCALE_MAX as int);
            lemma_rescale_bound(self.y, SCALE_MAX as int);
            lemma_rescale_bound(other.x, SCALE_MAX as int);
            lemma_rescale_bound(other.y, SCALE_MAX as int);
        }
        let ax = self.x.rescale(SCALE_MAX).m;
        let ay = self.y.rescale(SCALE_MAX).m;
        let bx = other.x.rescale(SCALE_MAX).m;
        let by = other.y.rescale(SCALE_MAX).m;
        let dx = ax - bx;
        let dy = ay - by;
        proof {
            assert(dx * dx <= 1000000000000000000000000000000000000i128
                && dx * dx >= 0) by (nonlinear_arith)
                requires
                    -1000000000000000000 <= dx <= 1000000000000000000;
            assert(dy * dy <= 1000000000000000000000000000000000000i128
                && dy * dy >= 0) by (nonlinear_arith)
                requires
                    -1000000000000000000 <= dy <= 1000000000000000000;
        }
        let d2: u128 = (dx * dx + dy * dy) as u128;
        let root = isqrt(d2);
        proof {
            assert(root * root <= d2);
            assert(root <= 2000000000000000000) by (nonlinear_arith)
                requires
                    root * root <= d2,
                    d2 <= 2000000000000000000000000000000000000u128;
        }
        Dec { m: root as i128, s: SCALE_MAX }
    }
}

/// Decide `coord_ok` at run time.
pub fn coord_ok_check(d: Dec) -> (r: bool)
    ensures
        r == coord_ok(d),
{
    if d.s > SCALE_MAX {
        return false;
    }
    let k = SCALE_MAX - d.s;
    let um: u128 = if d.m < 0 {
        (-(d.m + 1)) as u128 + 1
    } else {
        d.m as u128
    };
    proof {
        lemma_p10_pos(k as nat);
        crate::dec::lemma_p10_16();
        assert(vstd::math::abs(d.m * p10(k as nat))
            == vstd::math::abs(d.m as int) * p10(k as nat)) by (nonlinear_arith)
            requires
                p10(k as nat) >= 1;
    }
    if um > COORD_LIMIT as u128 {
        // |v16(d)| >= |m| > the limit
        proof {
            assert(vstd::math::abs(d.m as int) * 1
                <= vstd::math::abs(d.m as int) * p10(k as nat)) by (nonlinear_arith)
                requires
                    p10(k as nat) >= 1;
        }
        return false;
    }
    let p = pow10_u128(k);
    proof {
        assert(p10(k as nat) <= p10(16)) by {
            if k < 16 {
                vstd::arithmetic::power::lemma_pow_increases(10, k as nat, 16);
            }
        }
        assert(um * p <= 500000000000000000u128 * 10000000000000000u128)
            by (nonlinear_arith)
            requires
                um <= 500000000000000000u128,
                p <= 10000000000000000u128,
                p >= 0;
    }
    let prod = um * p;
    prod <= COORD_LIMIT as u128
}

/// 10^k for small `k`, executable.
fn pow10_u128(k: u32) -> (r: u128)
    requires
        k <= 16,
    ensures
        r == p10(k as nat),
        r >= 1,
{
    proof {
        crate::dec::lemma_p10_16();
    }
    let mut r: u128 = 1;
    let mut i: u32 = 0;
    proof {
        vstd::arithmetic::power::lemma_pow0(10);
    }
    while i < k
        invariant
            0 <= i <= k <= 16,
            r == p10(i as nat),
        decreases k - i,
    {
        proof {
            crate::dec::lemma_p10_16();
            crate::dec::lemma_p10_step(i as nat);
            assert(p10((i + 1) as nat) <= p10(16)) by {
                if i + 1 < 16 {
                    vstd::arithmetic::power::lemma_pow_increases(10, (i + 1) as nat, 16);
                }
            }
            crate::dec::lemma_p10_pos(i as nat);
            assert(10 * r == p10((i + 1) as nat));
            assert(r * 10 <= 10000000000000000);
        }
        r = r * 10;
        i = i + 1;
    }
    proof {
        crate::dec::lemma_p10_pos(k as nat);
    }
    r
}

/// Decide a point's well-formedness at run time.
pub fn point_wf_check(p: &Point) -> (r: bool)
    ensures
        r == p.wf(),
{
    coord_ok_check(p.x) && coord_ok_check(p.y)
}

/// Squared distance between two points, over reference-scale mantissas.
pub open spec fn dist2(p: Point, q: Point) -> int {
    (v16(p.x) - v16(q.x)) * (v16(p.x) - v16(q.x))
        + (v16(p.y) - v16(q.y)) * (v16(p.y) - v16(q.y))
}

} // verus!
