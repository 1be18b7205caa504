//! Stakes on triangular regions and the split of subdivision rewards.

use vstd::prelude::*;
use crate::codec::triangle_hash;
use crate::dec::{Dec, amount_ok, AMOUNT_SCALE, AMOUNT_LIMIT};
use crate::hash::H256;
use crate::triangle::Triangle;
use crate::wallet::Address;

verus! {

/// One stake on one region.
pub struct Stake {
    pub staker: Address,
    pub triangle: Triangle,
    pub amount: Dec,
}

/// All stakes, grouped by region hash.
pub struct StakingManager {
    stakes: Vec<(H256, Vec<Stake>)>,
}

/// Every stake in a group is a representable amount.
pub open spec fn stakes_ok(list: Seq<Stake>) -> bool {
    forall|i: int| 0 <= i < list.len() ==> amount_ok((#[trigger] list[i]).amount)
}

impl StakingManager {
    pub closed spec fn spec_stakes(self) -> Seq<(H256, Vec<Stake>)> {
        self.stakes@
    }

    /// Every stored stake is a representable amount.
    pub open spec fn wf(self) -> bool {
        forall|i: int| 0 <= i < self.spec_stakes().len()
            ==> stakes_ok((#[trigger] self.spec_stakes()[i]).1@)
    }

    pub fn new() -> (r: StakingManager)
        ensures
            r.wf(),
            r.spec_stakes().len() == 0,
    {
        StakingManager { stakes: Vec::new() }
    }

    /// Record a stake under its region.
    pub fn add_stake(&mut self, stake: Stake)
        requires
            old(self).wf(),
            amount_ok(stake.amount),
        ensures
            final(self).wf(),
    {
        let triangle_id = triangle_hash(&stake.triangle);
        let mut i: usize = 0;
        while i < self.stakes.len()
            invariant
                0 <= i <= self.spec_stakes().len(),
                *self == *old(self),
                old(self).wf(),
                amount_ok(stake.amount),
            decreases self.spec_stakes().len() - i,
        {
            let found = self.stakes[i].0 == triangle_id;
            if found {
                let (id, mut list) = self.stakes.remove(i);
                list.push(stake);
                self.stakes.insert(i, (id, list));
                proof {
                    assert forall|k: int| 0 <= k < self.spec_stakes().len()
                        implies stakes_ok((#[trigger] self.spec_stakes()[k]).1@) by {
                        if k != i {
                            assert(self.spec_stakes()[k] == old(self).spec_stakes()[k]);
                        }
                    }
                }
                return;
            }
            i = i + 1;
        }
        let mut list: Vec<Stake> = Vec::new();
        list.push(stake);
        self.stakes.push((triangle_id, list));
        proof {
            let n = self.spec_stakes().len();
            assert forall|k: int| 0 <= k < n
                implies stakes_ok((#[trigger] self.spec_stakes()[k]).1@) by {
                if k < n - 1 {
                    assert(self.spec_stakes()[k] == old(self).spec_stakes()[k]);
                }
            }
        }
    }

    /// The rewards owed to each staker of a region, in proportion to the
    /// staked amounts: each staker gets `stake / total * reward`,
    /// truncated.  Empty when the region has no stakes, the total is zero
    /// or not representable, or the total overflows.
    pub fn distribute_rewards(&self, triangle_id: &H256, subdivision_reward: Dec) -> (r: Vec<
        (Address, Dec),
    >)
        requires
            self.wf(),
            amount_ok(subdivision_reward),
        ensures
            forall|k: int| 0 <= k < r@.len()
                ==> (#[trigger] r@[k]).1.s == AMOUNT_SCALE,
    {
        let mut i: usize = 0;
        while i < self.stakes.len()
            invariant
                0 <= i <= self.spec_stakes().len(),
                self.wf(),
                amount_ok(subdivision_reward),
            decreases self.spec_stakes().len() - i,
        {
            let found = self.stakes[i].0 == *triangle_id;
            if found {
                let list = &self.stakes[i].1;
                // total staked, at the reference scale
                let mut total: i128 = 0;
                let mut j: usize = 0;
                while j < list.len()
                    invariant
                        0 <= j <= list@.len(),
                        stakes_ok(list@),
                        -AMOUNT_LIMIT <= total <= AMOUNT_LIMIT,
                        amount_ok(subdivision_reward),
                    decreases list@.len() - j,
                {
                    let a = list[j].amount.to_amount_scale();
                    let next = total + a.m;
                    if next < -AMOUNT_LIMIT || next > AMOUNT_LIMIT {
                        // the total cannot be represented; no distribution
                        return Vec::new();
                    }
                    total = next;
                    j = j + 1;
                }
                if total <= 0 {
                    return Vec::new();
                }
                let total_dec = Dec { m: total, s: AMOUNT_SCALE };
                proof {
                    vstd::arithmetic::power::lemma_pow0(10);
                }
                let mut out: Vec<(Address, Dec)> = Vec::new();
                let mut j: usize = 0;
                while j < list.len()
                    invariant
                        0 <= j <= list@.len(),
                        stakes_ok(list@),
                        amount_ok(subdivision_reward),
                        amount_ok(total_dec),
                        total_dec.m > 0,
                        forall|k: int| 0 <= k < out@.len()
                            ==> (#[trigger] out@[k]).1.s == AMOUNT_SCALE,
                    decreases list@.len() - j,
                {
                    let reward = list[j].amount.mul_div(subdivision_reward, total_dec);
                    out.push((list[j].staker, reward));
                    j = j + 1;
                }
                return out;
            }
            i = i + 1;
        }
        Vec::new()
    }
}

} // verus!
