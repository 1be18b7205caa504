//! Token-economic formulas: rewards and burns, computed exactly.

use vstd::prelude::*;
use vstd::arithmetic::power::pow;
use crate::dec::Dec;

verus! {

/// 5^e as a mathematical integer.
pub open spec fn p5(e: nat) -> int {
    pow(5, e)
}

proof fn lemma_p5_step(e: nat)
    ensures
        p5(e + 1) == 5 * p5(e),
{
    vstd::arithmetic::power::lemma_pow1(5);
    vstd::arithmetic::power::lemma_pow_adds(5, 1nat, e);
}

/// The concrete value of 5^26, the deepest reward divisor supported.
proof fn lemma_p5_26()
    ensures
        p5(26) == 1490116119384765625,
{
    vstd::arithmetic::power::lemma_pow0(5);
    lemma_p5_step(0);
    lemma_p5_step(1);
    lemma_p5_step(2);
    lemma_p5_step(3);
    lemma_p5_step(4);
    lemma_p5_step(5);
    lemma_p5_step(6);
    lemma_p5_step(7);
    lemma_p5_step(8);
    lemma_p5_step(9);
    lemma_p5_step(10);
    lemma_p5_step(11);
    lemma_p5_step(12);
    lemma_p5_step(13);
    lemma_p5_step(14);
    lemma_p5_step(15);
    lemma_p5_step(16);
    lemma_p5_step(17);
    lemma_p5_step(18);
    lemma_p5_step(19);
    lemma_p5_step(20);
    lemma_p5_step(21);
    lemma_p5_step(22);
    lemma_p5_step(23);
    lemma_p5_step(24);
    lemma_p5_step(25);
}

/// The reward for a subdivision: one percent of the subdivided area.
/// Exact: dividing by 100 adds two decimal places.
pub fn calculate_subdivision_reward(triangle_area: Dec) -> (r: Dec)
    requires
        triangle_area.s + 2 <= u32::MAX,
    ensures
        r.m == triangle_area.m,
        r.s == triangle_area.s + 2,
{
    Dec { m: triangle_area.m, s: triangle_area.s + 2 }
}

/// The burned part of a fee: ten percent.  Exact: one more decimal place.
pub fn calculate_fee_burn(fee: Dec) -> (r: Dec)
    requires
        fee.s + 1 <= u32::MAX,
    ensures
        r.m == fee.m,
        r.s == fee.s + 1,
{
    Dec { m: fee.m, s: fee.s + 1 }
}

/// The mining reward at a subdivision depth: `100 / 2^depth`, exact:
/// `100 * 5^depth` at scale `depth`.
pub fn calculate_mining_reward(depth: u32) -> (r: Dec)
    requires
        depth <= 26,
    ensures
        r.s == depth,
        r.m == 100 * p5(depth as nat),
{
    proof {
        lemma_p5_26();
    }
    let mut m: i128 = 100;
    let mut i: u32 = 0;
    proof {
        vstd::arithmetic::power::lemma_pow0(5);
    }
    while i < depth
        invariant
            0 <= i <= depth <= 26,
            m == 100 * p5(i as nat),
        decreases depth - i,
    {
        proof {
            lemma_p5_26();
            lemma_p5_step(i as nat);
            assert(p5((i + 1) as nat) <= p5(26)) by {
                if i + 1 < 26 {
                    vstd::arithmetic::power::lemma_pow_increases(5, (i + 1) as nat, 26);
                }
            }
            vstd::arithmetic::power::lemma_pow_positive(5, i as nat);
            assert(5 * m == 100 * p5((i + 1) as nat)) by (nonlinear_arith)
                requires
                    m == 100 * p5(i as nat),
                    p5((i + 1) as nat) == 5 * p5(i as nat);
            assert(m * 5 <= 100 * 1490116119384765625);
        }
        m = m * 5;
        i = i + 1;
    }
    Dec { m, s: depth }
}

} // verus!
