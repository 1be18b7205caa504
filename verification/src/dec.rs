//! Exact decimal fixed-point numbers.
//!
//! A `Dec` is the rational number `m / 10^s`.  All consensus-critical
//! geometry (areas, midpoints, tolerance checks) is computed on this type
//! with exact integer arithmetic, so two nodes always agree on the result.

use vstd::prelude::*;
use vstd::arithmetic::power::{pow, lemma_pow_adds, lemma_pow_positive};
use vstd::arithmetic::mul::lemma_mul_equality_converse;

verus! {

/// 10^e as a mathematical integer.
pub open spec fn p10(e: nat) -> int {
    pow(10, e)
}

pub proof fn lemma_p10_pos(e: nat)
    ensures
        p10(e) >= 1,
    decreases e,
{
    lemma_pow_positive(10, e);
    if e > 0 {
        lemma_p10_pos((e - 1) as nat);
        assert(p10(e) == 10 * p10((e - 1) as nat)) by {
            lemma_pow_adds(10, 1nat, (e - 1) as nat);
            vstd::arithmetic::power::lemma_pow1(10);
        }
    }
}

pub proof fn lemma_p10_adds(a: nat, b: nat)
    ensures
        p10(a + b) == p10(a) * p10(b),
{
    lemma_pow_adds(10, a, b);
}

/// One multiplicative step of `p10`.
pub proof fn lemma_p10_step(e: nat)
    ensures
        p10(e + 1) == 10 * p10(e),
{
    vstd::arithmetic::power::lemma_pow1(10);
    lemma_pow_adds(10, 1nat, e);
}

/// The concrete value of 10^16.
pub proof fn lemma_p10_16()
    ensures
        p10(16) == 10000000000000000,
{
    vstd::arithmetic::power::lemma_pow0(10);
    lemma_p10_step(0);
    lemma_p10_step(1);
    lemma_p10_step(2);
    lemma_p10_step(3);
    lemma_p10_step(4);
    lemma_p10_step(5);
    lemma_p10_step(6);
    lemma_p10_step(7);
    lemma_p10_step(8);
    lemma_p10_step(9);
    lemma_p10_step(10);
    lemma_p10_step(11);
    lemma_p10_step(12);
    lemma_p10_step(13);
    lemma_p10_step(14);
    lemma_p10_step(15);
}

/// A decimal number: the value `m / 10^s`.
#[derive(Clone, Copy, Debug)]
pub struct Dec {
    /// Mantissa.
    pub m: i128,
    /// Scale: the number of decimal fraction digits.
    pub s: u32,
}

impl Dec {
    /// Two decimals denote the same rational number
    /// (cross-multiplied so that only integers appear).
    pub open spec fn same_value(self, other: Dec) -> bool {
        self.m * p10(other.s as nat) == other.m * p10(self.s as nat)
    }

    /// The mantissa of `self` when rewritten at the (coarser-or-equal) scale `s`.
    pub open spec fn at_scale(self, s: int) -> int {
        self.m * p10((s - self.s) as nat)
    }

    /// No trailing zero can be stripped from the mantissa: the unique
    /// smallest representation of the value.
    pub open spec fn is_canonical(self) -> bool {
        self.s == 0 || self.m % 10 != 0
    }

    /// Construct the decimal `m / 10^s`.
    pub fn new(m: i128, s: u32) -> (r: Dec)
        ensures
            r == (Dec { m, s }),
    {
        Dec { m, s }
    }

    /// The value is zero exactly when the mantissa is.
    pub fn is_zero(&self) -> (r: bool)
        ensures
            r == (self.m == 0),
    {
        self.m == 0
    }
}

/// Strip factors of ten shared by the mantissa and the scale.
/// The result denotes the same value in canonical form.
pub fn canon(d: Dec) -> (r: Dec)
    ensures
        r.is_canonical(),
        r.same_value(d),
        r.s <= d.s,
        r == canon_spec(d),
{
    if d.m == i128::MIN {
        // this mantissa is not divisible by ten, so `d` is already canonical
        proof {
            lemma_p10_pos(d.s as nat);
            assert(d.m % 10 != 0) by {
                vstd::arithmetic::div_mod::lemma_fundamental_div_mod_converse(
                    i128::MIN as int, 10, -17014118346046923173168730371588410573int, 2);
            }
        }
        return d;
    }
    let neg: bool = d.m < 0;
    let mut um: u128 = if neg {
        (-(d.m + 1)) as u128 + 1
    } else {
        d.m as u128
    };
    let mut s: u32 = d.s;
    let ghost mag0: int = um as int;
    proof {
        vstd::arithmetic::power::lemma_pow0(10);
        assert(um * p10(0) == mag0);
    }
    while s > 0 && um % 10 == 0
        invariant
            um * p10((d.s - s) as nat) == mag0,
            s <= d.s,
            um <= mag0,
            mag0 <= i128::MAX,
        decreases s,
    {
        proof {
            let k = (d.s - s) as nat;
            lemma_p10_pos(k);
            lemma_p10_adds(1, k);
            assert(p10(1) == 10) by {
                vstd::arithmetic::power::lemma_pow1(10);
            }
            assert((um / 10) * 10 == um) by {
                vstd::arithmetic::div_mod::lemma_fundamental_div_mod(um as int, 10);
            }
            assert((um / 10) * p10((d.s - (s - 1)) as nat) == mag0) by {
                assert((um / 10) * (10 * p10(k)) == ((um / 10) * 10) * p10(k))
                    by (nonlinear_arith);
            }
            assert(um / 10 <= um) by {
                vstd::arithmetic::div_mod::lemma_div_is_ordered_by_denominator(
                    um as int, 1, 10);
            }
        }
        um = um / 10;
        s = s - 1;
    }
    let rm: i128 = if neg {
        -(um as i128)
    } else {
        um as i128
    };
    let r = Dec { m: rm, s };
    proof {
        let k = (d.s - s) as nat;
        lemma_p10_pos(k);
        lemma_p10_pos(s as nat);
        lemma_p10_pos(d.s as nat);
        // mantissa relation: d.m == rm * 10^k, exactly
        assert(d.m == rm * p10(k)) by {
            if neg {
                assert(um * p10(k) == mag0);
                assert((-(um as int)) * p10(k) == -(mag0 as int)) by (nonlinear_arith)
                    requires um * p10(k) == mag0;
            }
        }
        // same_value follows
        assert(rm * p10(k) * p10(s as nat) == rm * p10((d.s) as nat)) by {
            lemma_p10_adds(k, s as nat);
            assert(rm * (p10(k) * p10(s as nat)) == (rm * p10(k)) * p10(s as nat))
                by (nonlinear_arith);
        }
        // canonical: if s > 0 then um % 10 != 0, hence rm % 10 != 0
        if s > 0 {
            assert(um % 10 != 0);
            if neg {
                assert(rm == -(um as int));
                if rm % 10 == 0 {
                    vstd::arithmetic::div_mod::lemma_fundamental_div_mod(rm as int, 10);
                    assert(rm == 10 * (rm as int / 10));
                    assert(um as int == (-(rm as int / 10)) * 10) by (nonlinear_arith)
                        requires rm == 10 * (rm as int / 10), um as int == -(rm as int);
                    vstd::arithmetic::div_mod::lemma_mod_multiples_basic(
                        -(rm as int / 10), 10);
                    assert(false);
                }
            }
        }
        lemma_canon_spec_props(d);
        lemma_same_value_sym(canon_spec(d), d);
        lemma_same_value_trans(r, d, canon_spec(d));
        lemma_canonical_unique(r, canon_spec(d));
    }
    r
}

/// The canonical form of a decimal, as a recursive definition.
pub open spec fn canon_spec(d: Dec) -> Dec
    decreases d.s,
{
    if d.s == 0 || d.m % 10 != 0 {
        d
    } else {
        canon_spec(Dec { m: (d.m / 10) as i128, s: (d.s - 1) as u32 })
    }
}

pub proof fn lemma_canon_spec_props(d: Dec)
    ensures
        canon_spec(d).is_canonical(),
        canon_spec(d).same_value(d),
        canon_spec(d).s <= d.s,
    decreases d.s,
{
    lemma_p10_pos(d.s as nat);
    if !(d.s == 0 || d.m % 10 != 0) {
        vstd::arithmetic::div_mod::lemma_fundamental_div_mod(d.m as int, 10);
        assert(d.m == 10 * (d.m / 10));
        assert(i128::MIN <= d.m / 10 <= i128::MAX);
        let e = Dec { m: (d.m / 10) as i128, s: (d.s - 1) as u32 };
        lemma_canon_spec_props(e);
        lemma_p10_pos(e.s as nat);
        assert(p10(d.s as nat) == 10 * p10(e.s as nat)) by {
            lemma_p10_adds(1, e.s as nat);
            vstd::arithmetic::power::lemma_pow1(10);
        }
        assert(e.m * p10(d.s as nat) == d.m * p10(e.s as nat)) by (nonlinear_arith)
            requires
                d.m == 10 * e.m,
                p10(d.s as nat) == 10 * p10(e.s as nat);
        lemma_same_value_trans(canon_spec(e), e, d);
    }
}

/// `same_value` is transitive.
pub proof fn lemma_same_value_trans(a: Dec, b: Dec, c: Dec)
    requires
        a.same_value(b),
        b.same_value(c),
    ensures
        a.same_value(c),
{
    let pa = p10(a.s as nat);
    let pb = p10(b.s as nat);
    let pc = p10(c.s as nat);
    lemma_p10_pos(a.s as nat);
    lemma_p10_pos(b.s as nat);
    lemma_p10_pos(c.s as nat);
    assert(pb * (a.m * pc) == pb * (c.m * pa)) by (nonlinear_arith)
        requires
            a.m * pb == b.m * pa,
            b.m * pc == c.m * pb;
    lemma_mul_equality_converse(pb, a.m * pc, c.m * pa);
}

/// Two canonical decimals with the same value are identical.
pub proof fn lemma_canonical_unique(a: Dec, b: Dec)
    requires
        a.is_canonical(),
        b.is_canonical(),
        a.same_value(b),
    ensures
        a == b,
{
    if a.s == b.s {
        lemma_p10_pos(a.s as nat);
        assert(p10(a.s as nat) * a.m == p10(a.s as nat) * b.m) by (nonlinear_arith)
            requires
                a.m * p10(b.s as nat) == b.m * p10(a.s as nat),
                a.s == b.s;
        lemma_mul_equality_converse(p10(a.s as nat), a.m as int, b.m as int);
    } else if a.s < b.s {
        lemma_canonical_scales_agree(a, b);
    } else {
        lemma_same_value_sym(a, b);
        lemma_canonical_scales_agree(b, a);
    }
}

/// Helper: a canonical pair with the same value and `a.s < b.s` forces the
/// coarser scale to be zero, which contradicts `a.s < b.s` at the call site.
proof fn lemma_canonical_scales_agree(a: Dec, b: Dec)
    requires
        a.is_canonical(),
        b.is_canonical(),
        a.same_value(b),
        a.s < b.s,
    ensures
        b.s == 0,
{
    let k = (b.s - a.s) as nat;
    let pa = p10(a.s as nat);
    lemma_p10_pos(a.s as nat);
    lemma_p10_pos(k);
    // a.m * 10^(b.s) == b.m * 10^(a.s), and 10^(b.s) == 10^k * 10^(a.s)
    lemma_p10_adds(k, a.s as nat);
    assert((a.m * p10(k)) * pa == b.m * pa) by (nonlinear_arith)
        requires
            a.m * (p10(k) * pa) == b.m * pa;
    assert(pa * (a.m * p10(k)) == pa * b.m) by (nonlinear_arith)
        requires
            (a.m * p10(k)) * pa == b.m * pa;
    lemma_mul_equality_converse(pa, a.m * p10(k), b.m as int);
    // so b.m is a multiple of 10, which canonicity forbids unless b.m == 0
    assert(p10(k) == 10 * p10((k - 1) as nat)) by {
        lemma_p10_adds(1, (k - 1) as nat);
        vstd::arithmetic::power::lemma_pow1(10);
    }
    assert(b.m == (a.m * p10((k - 1) as nat)) * 10) by (nonlinear_arith)
        requires
            b.m == a.m * (10 * p10((k - 1) as nat));
    vstd::arithmetic::div_mod::lemma_mod_multiples_basic(a.m * p10((k - 1) as nat), 10);
    assert(b.m % 10 == 0);
    // b canonical and b.s > a.s >= 0, so b.m % 10 != 0: thus b.m == 0, a.m == 0
    assert(b.s == 0);
}

impl PartialEq for Dec {
    /// Value equality: `1.0 == 1.00`.
    fn eq(&self, other: &Dec) -> (r: bool) {
        let a = canon(*self);
        let b = canon(*other);
        let r = a.m == b.m && a.s == b.s;
        proof {
            if r {
                lemma_same_value_sym(a, *self);
                lemma_same_value_trans(*self, a, *other);
            } else {
                if self.same_value(*other) {
                    lemma_same_value_trans(a, *self, *other);
                    lemma_same_value_trans(a, *other, b);
                    lemma_canonical_unique(a, b);
                }
            }
        }
        r
    }
}

impl Eq for Dec {}

pub proof fn lemma_same_value_sym(a: Dec, b: Dec)
    requires
        a.same_value(b),
    ensures
        b.same_value(a),
{
}

impl vstd::std_specs::cmp::PartialEqSpecImpl for Dec {
    open spec fn obeys_eq_spec() -> bool {
        true
    }

    open spec fn eq_spec(&self, other: &Dec) -> bool {
        self.same_value(*other)
    }
}

/// Rewriting at a coarser scale factors through any intermediate scale.
pub proof fn lemma_at_scale_compose(d: Dec, s1: int, s2: int)
    requires
        d.s <= s1 <= s2,
    ensures
        d.at_scale(s2) == d.at_scale(s1) * p10((s2 - s1) as nat),
{
    lemma_p10_adds((s1 - d.s) as nat, (s2 - s1) as nat);
    assert(d.m * (p10((s1 - d.s) as nat) * p10((s2 - s1) as nat))
        == (d.m * p10((s1 - d.s) as nat)) * p10((s2 - s1) as nat)) by (nonlinear_arith);
}

/// The magnitude of a mantissa, exactly (also for `i128::MIN`).
fn uabs(m: i128) -> (r: u128)
    ensures
        r == vstd::math::abs(m as int),
{
    if m < 0 {
        (-(m + 1)) as u128 + 1
    } else {
        m as u128
    }
}

/// `m * 10^k`, exactly; the caller guarantees the product fits.
fn mul_p10(m: i128, k: u32) -> (r: i128)
    requires
        vstd::math::abs(m as int) * p10(k as nat) <= i128::MAX,
    ensures
        r == m * p10(k as nat),
{
    let mut r: i128 = m;
    let mut j: u32 = 0;
    proof {
        vstd::arithmetic::power::lemma_pow0(10);
    }
    while j < k
        invariant
            0 <= j <= k,
            r == m * p10(j as nat),
            vstd::math::abs(m as int) * p10(k as nat) <= i128::MAX,
        decreases k - j,
    {
        proof {
            let a = vstd::math::abs(m as int);
            lemma_p10_pos(j as nat);
            lemma_p10_pos((k - j) as nat);
            lemma_p10_pos((k - j - 1) as nat);
            assert(p10((j + 1) as nat) == p10(j as nat) * 10) by {
                lemma_p10_adds(j as nat, 1);
                vstd::arithmetic::power::lemma_pow1(10);
            }
            // |r * 10| is still within |m| * 10^k
            assert(p10(k as nat) == p10((j + 1) as nat) * p10((k - j - 1) as nat)) by {
                lemma_p10_adds((j + 1) as nat, (k - j - 1) as nat);
            }
            assert(a * p10((j + 1) as nat) <= a * p10(k as nat)) by (nonlinear_arith)
                requires
                    a >= 0,
                    p10((k - j - 1) as nat) >= 1,
                    p10((j + 1) as nat) >= 1,
                    p10(k as nat) == p10((j + 1) as nat) * p10((k - j - 1) as nat);
            assert(vstd::math::abs(r * 10) == a * p10((j + 1) as nat)) by (nonlinear_arith)
                requires
                    r == m * p10(j as nat),
                    p10(j as nat) >= 1,
                    p10((j + 1) as nat) == p10(j as nat) * 10,
                    a == vstd::math::abs(m as int);
            assert(r * 10 == m * p10((j + 1) as nat)) by (nonlinear_arith)
                requires
                    r == m * p10(j as nat),
                    p10((j + 1) as nat) == p10(j as nat) * 10;
        }
        r = r * 10;
        j = j + 1;
    }
    r
}

impl Dec {
    /// The same value rewritten at scale `s2`; exact.
    pub fn rescale(self, s2: u32) -> (r: Dec)
        requires
            self.s <= s2,
            vstd::math::abs(self.m as int) * p10((s2 - self.s) as nat) <= i128::MAX,
        ensures
            r.s == s2,
            r.m == self.at_scale(s2 as int),
            r.same_value(self),
    {
        let m = mul_p10(self.m, s2 - self.s);
        let r = Dec { m, s: s2 };
        proof {
            let k = (s2 - self.s) as nat;
            lemma_p10_pos(k);
            lemma_p10_pos(self.s as nat);
            lemma_p10_adds(k, self.s as nat);
            assert((self.m * p10(k)) * p10(self.s as nat) == self.m * p10(k + self.s as nat))
                by (nonlinear_arith)
                requires
                    p10(k + self.s as nat) == p10(k) * p10(self.s as nat);
        }
        r
    }

    /// Exact sum.  The result carries the finer of the two scales.
    pub fn add(self, other: Dec) -> (r: Dec)
        requires
            vstd::math::abs(self.m as int) * p10((max_scale(self, other) - self.s) as nat)
                <= i128::MAX,
            vstd::math::abs(other.m as int) * p10((max_scale(self, other) - other.s) as nat)
                <= i128::MAX,
            i128::MIN <= self.at_scale(max_scale(self, other))
                + other.at_scale(max_scale(self, other)) <= i128::MAX,
        ensures
            r.s == max_scale(self, other),
            r.m == self.at_scale(max_scale(self, other))
                + other.at_scale(max_scale(self, other)),
    {
        let s = if self.s >= other.s { self.s } else { other.s };
        let a = self.rescale(s);
        let b = other.rescale(s);
        Dec { m: a.m + b.m, s }
    }

    /// Exact difference.  The result carries the finer of the two scales.
    pub fn sub(self, other: Dec) -> (r: Dec)
        requires
            vstd::math::abs(self.m as int) * p10((max_scale(self, other) - self.s) as nat)
                <= i128::MAX,
            vstd::math::abs(other.m as int) * p10((max_scale(self, other) - other.s) as nat)
                <= i128::MAX,
            i128::MIN <= self.at_scale(max_scale(self, other))
                - other.at_scale(max_scale(self, other)) <= i128::MAX,
        ensures
            r.s == max_scale(self, other),
            r.m == self.at_scale(max_scale(self, other))
                - other.at_scale(max_scale(self, other)),
    {
        let s = if self.s >= other.s { self.s } else { other.s };
        let a = self.rescale(s);
        let b = other.rescale(s);
        Dec { m: a.m - b.m, s }
    }

    /// Exact product; scales add.
    pub fn mul(self, other: Dec) -> (r: Dec)
        requires
            self.s + other.s <= u32::MAX,
            i128::MIN <= self.m * other.m <= i128::MAX,
        ensures
            r.s == self.s + other.s,
            r.m == self.m * other.m,
    {
        Dec { m: self.m * other.m, s: self.s + other.s }
    }

    /// Exact half: `m/10^s / 2 == 5m / 10^(s+1)`.
    pub fn half(self) -> (r: Dec)
        requires
            self.s < u32::MAX,
            i128::MIN <= 5 * self.m <= i128::MAX,
        ensures
            r.s == self.s + 1,
            r.m == 5 * self.m,
    {
        Dec { m: 5 * self.m, s: self.s + 1 }
    }

    /// Absolute value.
    pub fn abs(self) -> (r: Dec)
        requires
            self.m != i128::MIN,
        ensures
            r.s == self.s,
            r.m == vstd::math::abs(self.m as int),
    {
        if self.m < 0 {
            Dec { m: -self.m, s: self.s }
        } else {
            self
        }
    }

    /// Strictly less, by value.
    pub fn lt(self, other: Dec) -> (r: bool)
        requires
            vstd::math::abs(self.m as int) * p10((max_scale(self, other) - self.s) as nat)
                <= i128::MAX,
            vstd::math::abs(other.m as int) * p10((max_scale(self, other) - other.s) as nat)
                <= i128::MAX,
        ensures
            r == (self.at_scale(max_scale(self, other))
                < other.at_scale(max_scale(self, other))),
    {
        let s = if self.s >= other.s { self.s } else { other.s };
        let a = self.rescale(s);
        let b = other.rescale(s);
        a.m < b.m
    }

    /// Less or equal, by value.
    pub fn le(self, other: Dec) -> (r: bool)
        requires
            vstd::math::abs(self.m as int) * p10((max_scale(self, other) - self.s) as nat)
                <= i128::MAX,
            vstd::math::abs(other.m as int) * p10((max_scale(self, other) - other.s) as nat)
                <= i128::MAX,
        ensures
            r == (self.at_scale(max_scale(self, other))
                <= other.at_scale(max_scale(self, other))),
    {
        let s = if self.s >= other.s { self.s } else { other.s };
        let a = self.rescale(s);
        let b = other.rescale(s);
        a.m <= b.m
    }
}

/// The finer (larger) of the two scales.
pub open spec fn max_scale(a: Dec, b: Dec) -> int {
    if a.s >= b.s {
        a.s as int
    } else {
        b.s as int
    }
}

/// The reference scale for token amounts.
pub const AMOUNT_SCALE: u32 = 12;

/// Bound on an amount's mantissa at the reference scale.
pub const AMOUNT_LIMIT: i128 = 1000000000000000000;

/// A token amount within the representable range: scale at most 12 and
/// magnitude at most 10^6 (10^18 at the reference scale).
pub open spec fn amount_ok(d: Dec) -> bool {
    &&& d.s <= AMOUNT_SCALE
    &&& -AMOUNT_LIMIT <= d.at_scale(AMOUNT_SCALE as int) <= AMOUNT_LIMIT
}

/// The value of an amount at the reference scale.
pub open spec fn amt(d: Dec) -> int {
    d.at_scale(AMOUNT_SCALE as int)
}

/// Rescaling a bounded amount stays within `i128`.
pub proof fn lemma_amount_rescale(d: Dec)
    requires
        amount_ok(d),
    ensures
        vstd::math::abs(d.m as int) * p10((AMOUNT_SCALE - d.s) as nat) <= AMOUNT_LIMIT,
{
    let k = (AMOUNT_SCALE - d.s) as nat;
    lemma_p10_pos(k);
    assert(vstd::math::abs(d.m * p10(k)) == vstd::math::abs(d.m as int) * p10(k))
        by (nonlinear_arith)
        requires
            p10(k) >= 1;
}

/// Decide `amount_ok` at run time.
pub fn amount_ok_check(d: Dec) -> (r: bool)
    ensures
        r == amount_ok(d),
{
    if d.s > AMOUNT_SCALE {
        return false;
    }
    proof {
        lemma_p10_pos((AMOUNT_SCALE - d.s) as nat);
        lemma_p10_16();
        assert(vstd::math::abs(d.m * p10((AMOUNT_SCALE - d.s) as nat))
            == vstd::math::abs(d.m as int) * p10((AMOUNT_SCALE - d.s) as nat))
            by (nonlinear_arith)
            requires
                p10((AMOUNT_SCALE - d.s) as nat) >= 1;
        assert(vstd::math::abs(d.m as int) * 1
            <= vstd::math::abs(d.m as int) * p10((AMOUNT_SCALE - d.s) as nat))
            by (nonlinear_arith)
            requires
                p10((AMOUNT_SCALE - d.s) as nat) >= 1;
        assert(p10((AMOUNT_SCALE - d.s) as nat) <= p10(16)) by {
            vstd::arithmetic::power::lemma_pow_increases(
                10, (AMOUNT_SCALE - d.s) as nat, 16);
        }
    }
    let um: u128 = if d.m < 0 {
        (-(d.m + 1)) as u128 + 1
    } else {
        d.m as u128
    };
    if um > AMOUNT_LIMIT as u128 {
        return false;
    }
    let p = amount_pow10(AMOUNT_SCALE - d.s);
    proof {
        assert(um * p <= 1000000000000000000u128 * 10000000000000000u128)
            by (nonlinear_arith)
            requires
                um <= 1000000000000000000u128,
                0 <= p <= 10000000000000000u128;
    }
    let prod = um * p;
    prod <= AMOUNT_LIMIT as u128
}

/// 10^k for `k` at most 16.
fn amount_pow10(k: u32) -> (r: u128)
    requires
        k <= 16,
    ensures
        r == p10(k as nat),
        1 <= r <= 10000000000000000,
{
    proof {
        lemma_p10_16();
    }
    let mut r: u128 = 1;
    let mut i: u32 = 0;
    proof {
        vstd::arithmetic::power::lemma_pow0(10);
    }
    while i < k
        invariant
            0 <= i <= k <= 16,
            r == p10(i as nat),
        decreases k - i,
    {
        proof {
            lemma_p10_16();
            lemma_p10_step(i as nat);
            assert(p10((i + 1) as nat) <= p10(16)) by {
                if i + 1 < 16 {
                    vstd::arithmetic::power::lemma_pow_increases(10, (i + 1) as nat, 16);
                }
            }
            lemma_p10_pos(i as nat);
            assert(10 * r == p10((i + 1) as nat));
        }
        r = r * 10;
        i = i + 1;
    }
    proof {
        lemma_p10_pos(k as nat);
        if k < 16 {
            vstd::arithmetic::power::lemma_pow_increases(10, k as nat, 16);
        }
    }
    r
}

/// Truncating (toward zero) division.
pub open spec fn tdiv(a: int, b: int) -> int {
    if (a >= 0) == (b >= 0) {
        vstd::math::abs(a) as int / vstd::math::abs(b) as int
    } else {
        -(vstd::math::abs(a) as int / vstd::math::abs(b) as int)
    }
}

/// The magnitude of a mantissa, as an unsigned 128-bit value.
fn magnitude(m: i128) -> (r: u128)
    ensures
        r == vstd::math::abs(m as int),
{
    if m < 0 {
        (-(m + 1)) as u128 + 1
    } else {
        m as u128
    }
}

impl Dec {
    /// The exact value of `self` at the amount reference scale.
    pub fn to_amount_scale(self) -> (r: Dec)
        requires
            amount_ok(self),
        ensures
            r.s == AMOUNT_SCALE,
            r.m == amt(self),
            amount_ok(r),
    {
        proof {
            lemma_amount_rescale(self);
            vstd::arithmetic::power::lemma_pow0(10);
        }
        self.rescale(AMOUNT_SCALE)
    }

    /// Strictly less, for bounded amounts.
    pub fn amount_lt(self, other: Dec) -> (r: bool)
        requires
            amount_ok(self),
            amount_ok(other),
        ensures
            r == (amt(self) < amt(other)),
    {
        let a = self.to_amount_scale();
        let b = other.to_amount_scale();
        a.m < b.m
    }

    /// `(self * other) / div`, truncated toward zero, at the amount scale.
    pub fn mul_div(self, other: Dec, div: Dec) -> (r: Dec)
        requires
            amount_ok(self),
            amount_ok(other),
            amount_ok(div),
            div.m != 0,
        ensures
            r.s == AMOUNT_SCALE,
            r.m == tdiv(amt(self) * amt(other), amt(div)),
    {
        let a = self.to_amount_scale().m;
        let b = other.to_amount_scale().m;
        let c = div.to_amount_scale().m;
        proof {
            lemma_p10_pos((AMOUNT_SCALE - div.s) as nat);
            assert(c != 0) by (nonlinear_arith)
                requires
                    div.m != 0,
                    c == div.m * p10((AMOUNT_SCALE - div.s) as nat),
                    p10((AMOUNT_SCALE - div.s) as nat) >= 1;
        }
        let ua = magnitude(a);
        let ub = magnitude(b);
        let uc = magnitude(c);
        proof {
            assert(ua * ub <= 1000000000000000000u128 * 1000000000000000000u128)
                by (nonlinear_arith)
                requires
                    ua <= 1000000000000000000u128,
                    ub <= 1000000000000000000u128;
            assert(ua as int * ub as int == vstd::math::abs((a * b) as int))
                by (nonlinear_arith)
                requires
                    ua == vstd::math::abs(a as int),
                    ub == vstd::math::abs(b as int);
        }
        let prod: u128 = ua * ub;
        let q: u128 = prod / uc;
        proof {
            vstd::arithmetic::div_mod::lemma_div_is_ordered_by_denominator(
                prod as int, 1, uc as int);
            assert(q <= prod);
            assert(q == vstd::math::abs((a * b) as int) as int
                / vstd::math::abs(c as int) as int);
        }
        let neg = ((a < 0) != (b < 0)) != (c < 0);
        let m: i128 = if neg {
            -(q as i128)
        } else {
            q as i128
        };
        proof {
            if a * b == 0 {
                assert(vstd::math::abs((a * b) as int) == 0);
                vstd::arithmetic::div_mod::lemma_div_of0(uc as int);
                assert(q == 0);
                assert(tdiv(a as int * b as int, c as int) == 0) by {
                    vstd::arithmetic::div_mod::lemma_div_of0(
                        vstd::math::abs(c as int) as int);
                }
            } else {
                assert(((a >= 0) == (b >= 0)) == (a * b >= 0)) by (nonlinear_arith)
                    requires
                        a * b != 0;
            }
        }
        Dec { m, s: AMOUNT_SCALE }
    }
}

/// `r` is the integer square root of `n`, rounded down.
pub open spec fn is_floor_sqrt(n: int, r: int) -> bool {
    0 <= r && r * r <= n && (r + 1) * (r + 1) > n
}

/// The integer square root, rounded down.
pub open spec fn floor_sqrt(n: int) -> int {
    choose|r: int| is_floor_sqrt(n, r)
}

/// The rounded square root is unique, so any witness is `floor_sqrt`.
pub proof fn lemma_floor_sqrt_unique(n: int, r: int)
    requires
        is_floor_sqrt(n, r),
    ensures
        floor_sqrt(n) == r,
{
    let r2 = floor_sqrt(n);
    assert(is_floor_sqrt(n, r2)) by {
        assert(exists|x: int| is_floor_sqrt(n, x));
    }
    if r2 < r {
        assert((r2 + 1) * (r2 + 1) <= r * r) by (nonlinear_arith)
            requires
                0 <= r2 + 1 <= r;
        assert(false);
    }
    if r < r2 {
        assert((r + 1) * (r + 1) <= r2 * r2) by (nonlinear_arith)
            requires
                0 <= r + 1 <= r2;
        assert(false);
    }
}

/// Floor of the square root of `n`.
pub fn isqrt(n: u128) -> (r: u128)
    ensures
        r * r <= n,
        (r + 1) * (r + 1) > n,
{
    let mut lo: u128 = 0;
    let mut hi: u128 = 18446744073709551615;  // 2^64 - 1; (hi+1)^2 > u128::MAX >= n
    proof {
        assert((18446744073709551615u128 + 1) * (18446744073709551615u128 + 1) > u128::MAX)
            by (nonlinear_arith);
    }
    while lo < hi
        invariant
            lo <= hi,
            lo * lo <= n,
            (hi + 1) * (hi + 1) > n,
            hi <= 18446744073709551615,
        decreases hi - lo,
    {
        let mid = lo + (hi - lo + 1) / 2;
        proof {
            assert(lo < mid <= hi);
            assert(mid * mid <= u128::MAX) by (nonlinear_arith)
                requires mid <= 18446744073709551615u128;
        }
        if mid * mid <= n {
            lo = mid;
        } else {
            hi = mid - 1;
        }
    }
    lo
}

} // verus!
