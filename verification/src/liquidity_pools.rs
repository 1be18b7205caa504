//! Liquidity pools pairing the native token with triangle assets.

use vstd::prelude::*;
use crate::codec::{enc_triangle, triangle_hash};
use crate::dec::{Dec, amt, amount_ok, tdiv, AMOUNT_SCALE};
use crate::hash::{H256, blake3_of};
use crate::triangle::Triangle;

verus! {

/// A pool for one region: the token and asset reserves.
pub struct LiquidityPool {
    pub triangle: Triangle,
    pub token_reserve: Dec,
    pub asset_reserve: Dec,
}

impl LiquidityPool {
    /// Both reserves are representable amounts.
    pub open spec fn wf(self) -> bool {
        amount_ok(self.token_reserve) && amount_ok(self.asset_reserve)
    }

    pub fn new(triangle: Triangle, token_reserve: Dec, asset_reserve: Dec) -> (r:
        LiquidityPool)
        ensures
            r.triangle == triangle,
            r.token_reserve == token_reserve,
            r.asset_reserve == asset_reserve,
    {
        LiquidityPool { triangle, token_reserve, asset_reserve }
    }

    /// Tokens received for an asset amount:
    /// `token_reserve * asset_amount / asset_reserve`, truncated;
    /// zero when either reserve is empty.
    pub fn get_token_amount(&self, asset_amount: Dec) -> (r: Dec)
        requires
            self.wf(),
            amount_ok(asset_amount),
        ensures
            r.s == AMOUNT_SCALE,
            self.asset_reserve.m == 0 || self.token_reserve.m == 0 ==> r.m == 0,
            self.asset_reserve.m != 0 && self.token_reserve.m != 0
                ==> r.m == tdiv(amt(self.token_reserve) * amt(asset_amount),
                    amt(self.asset_reserve)),
    {
        if self.asset_reserve.is_zero() || self.token_reserve.is_zero() {
            return Dec { m: 0, s: AMOUNT_SCALE };
        }
        self.token_reserve.mul_div(asset_amount, self.asset_reserve)
    }

    /// Assets received for a token amount; the mirror image.
    pub fn get_asset_amount(&self, token_amount: Dec) -> (r: Dec)
        requires
            self.wf(),
            amount_ok(token_amount),
        ensures
            r.s == AMOUNT_SCALE,
            self.asset_reserve.m == 0 || self.token_reserve.m == 0 ==> r.m == 0,
            self.asset_reserve.m != 0 && self.token_reserve.m != 0
                ==> r.m == tdiv(amt(self.asset_reserve) * amt(token_amount),
                    amt(self.token_reserve)),
    {
        if self.token_reserve.is_zero() || self.asset_reserve.is_zero() {
            return Dec { m: 0, s: AMOUNT_SCALE };
        }
        self.asset_reserve.mul_div(token_amount, self.token_reserve)
    }
}

/// Whether a pool exists under the given region hash.
pub open spec fn has_pool(pools: Seq<(H256, LiquidityPool)>, k: Seq<u8>) -> bool {
    exists|i: int| 0 <= i < pools.len() && (#[trigger] pools[i]).0@ == k
}

/// All pools, keyed by region hash.
pub struct LiquidityPoolManager {
    pools: Vec<(H256, LiquidityPool)>,
}

impl LiquidityPoolManager {
    pub closed spec fn spec_pools(self) -> Seq<(H256, LiquidityPool)> {
        self.pools@
    }

    /// Every stored pool has representable reserves.
    pub open spec fn wf(self) -> bool {
        forall|i: int| 0 <= i < self.spec_pools().len()
            ==> (#[trigger] self.spec_pools()[i]).1.wf()
    }

    pub fn new() -> (r: LiquidityPoolManager)
        ensures
            r.wf(),
            r.spec_pools().len() == 0,
    {
        LiquidityPoolManager { pools: Vec::new() }
    }

    /// Open a pool for a region (appending; an existing pool for the same
    /// region shadows it for lookups).
    pub fn create_pool(&mut self, triangle: Triangle, token_reserve: Dec, asset_reserve: Dec)
        requires
            old(self).wf(),
            amount_ok(token_reserve),
            amount_ok(asset_reserve),
        ensures
            final(self).wf(),
            final(self).spec_pools().len() == old(self).spec_pools().len() + 1,
            has_pool(final(self).spec_pools(), blake3_of(enc_triangle(triangle))),
    {
        let triangle_id = triangle_hash(&triangle);
        let pool = LiquidityPool::new(triangle, token_reserve, asset_reserve);
        self.pools.push((triangle_id, pool));
        proof {
            let n = self.spec_pools().len();
            assert(self.spec_pools()[n - 1].0@ == blake3_of(enc_triangle(triangle)));
            assert forall|k: int| 0 <= k < n
                implies (#[trigger] self.spec_pools()[k]).1.wf() by {
                if k < n - 1 {
                    assert(self.spec_pools()[k] == old(self).spec_pools()[k]);
                }
            }
        }
    }

    /// Add to both reserves of the pool under `triangle_id`.  The pool is
    /// left unchanged when no pool exists or a new reserve would leave the
    /// representable range.
    pub fn add_liquidity(&mut self, triangle_id: &H256, token_amount: Dec, asset_amount: Dec)
        requires
            old(self).wf(),
            amount_ok(token_amount),
            amount_ok(asset_amount),
        ensures
            final(self).wf(),
            final(self).spec_pools().len() == old(self).spec_pools().len(),
    {
        let mut i: usize = 0;
        while i < self.pools.len()
            invariant
                0 <= i <= self.spec_pools().len(),
                *self == *old(self),
                old(self).wf(),
                amount_ok(token_amount),
                amount_ok(asset_amount),
            decreases self.spec_pools().len() - i,
        {
            let found = self.pools[i].0 == *triangle_id;
            if found {
                let (id, pool) = self.pools.remove(i);
                let new_token = add_amount(pool.token_reserve, token_amount);
                let new_asset = add_amount(pool.asset_reserve, asset_amount);
                let updated = match (new_token, new_asset) {
                    (Some(t), Some(a)) => LiquidityPool {
                        triangle: pool.triangle,
                        token_reserve: t,
                        asset_reserve: a,
                    },
                    _ => pool,
                };
                self.pools.insert(i, (id, updated));
                proof {
                    assert forall|k: int| 0 <= k < self.spec_pools().len()
                        implies (#[trigger] self.spec_pools()[k]).1.wf() by {
                        if k != i {
                            assert(self.spec_pools()[k] == old(self).spec_pools()[k]);
                        }
                    }
                }
                return;
            }
            i = i + 1;
        }
    }
}

/// The exact sum of two amounts, or `None` when it leaves the range.
fn add_amount(a: Dec, b: Dec) -> (r: Option<Dec>)
    requires
        amount_ok(a),
        amount_ok(b),
    ensures
        r matches Some(c) ==> amount_ok(c) && c.s == AMOUNT_SCALE
            && c.m == amt(a) + amt(b),
{
    let ra = a.to_amount_scale();
    let rb = b.to_amount_scale();
    let sum = ra.m + rb.m;
    if -crate::dec::AMOUNT_LIMIT <= sum && sum <= crate::dec::AMOUNT_LIMIT {
        proof {
            vstd::arithmetic::power::lemma_pow0(10);
        }
        Some(Dec { m: sum, s: AMOUNT_SCALE })
    } else {
        None
    }
}

} // verus!
