//! Insurance policies over triangular regions.

use vstd::prelude::*;
use crate::codec::triangle_hash;
use crate::dec::Dec;
use crate::hash::H256;
use crate::triangle::Triangle;
use crate::wallet::Address;

verus! {

/// One policy on one region.
pub struct InsurancePolicy {
    pub policyholder: Address,
    pub insured_triangle: Triangle,
    pub insured_value: Dec,
    pub premium: Dec,
    /// The block at which the policy lapses.
    pub expiration_block: u64,
}

/// All policies, grouped by region hash.
pub struct InsuranceManager {
    policies: Vec<(H256, Vec<InsurancePolicy>)>,
}

impl InsuranceManager {
    pub closed spec fn spec_policies(self) -> Seq<(H256, Vec<InsurancePolicy>)> {
        self.policies@
    }

    pub fn new() -> (r: InsuranceManager)
        ensures
            r.spec_policies().len() == 0,
    {
        InsuranceManager { policies: Vec::new() }
    }

    /// File a policy under its region.
    pub fn create_policy(
        &mut self,
        policyholder: Address,
        insured_triangle: Triangle,
        insured_value: Dec,
        premium: Dec,
        expiration_block: u64,
    ) {
        let triangle_id = triangle_hash(&insured_triangle);
        let policy = InsurancePolicy {
            policyholder,
            insured_triangle,
            insured_value,
            premium,
            expiration_block,
        };
        let mut i: usize = 0;
        while i < self.policies.len()
            invariant
                0 <= i <= self.spec_policies().len(),
            decreases self.spec_policies().len() - i,
        {
            let found = self.policies[i].0 == triangle_id;
            if found {
                let (id, mut list) = self.policies.remove(i);
                list.push(policy);
                self.policies.insert(i, (id, list));
                return;
            }
            i = i + 1;
        }
        let mut list: Vec<InsurancePolicy> = Vec::new();
        list.push(policy);
        self.policies.push((triangle_id, list));
    }

    /// Pay out and retire every policy on the region that is still in
    /// force at `current_block`; expired policies stay on file.  Returns
    /// the paid-out policies so the caller can settle them.
    pub fn process_claim(&mut self, triangle_id: &H256, current_block: u64) -> (r: Vec<
        InsurancePolicy,
    >)
        ensures
            forall|k: int| 0 <= k < r@.len()
                ==> (#[trigger] r@[k]).expiration_block >= current_block,
    {
        let mut i: usize = 0;
        while i < self.policies.len()
            invariant
                0 <= i <= self.spec_policies().len(),
            decreases self.spec_policies().len() - i,
        {
            let found = self.policies[i].0 == *triangle_id;
            if found {
                let (id, mut list) = self.policies.remove(i);
                let mut kept: Vec<InsurancePolicy> = Vec::new();
                let mut paid: Vec<InsurancePolicy> = Vec::new();
                while list.len() > 0
                    invariant
                        forall|k: int| 0 <= k < paid@.len()
                            ==> (#[trigger] paid@[k]).expiration_block >= current_block,
                        forall|k: int| 0 <= k < kept@.len()
                            ==> (#[trigger] kept@[k]).expiration_block < current_block,
                    decreases list@.len(),
                {
                    let policy = list.remove(0);
                    if policy.expiration_block >= current_block {
                        paid.push(policy);
                    } else {
                        kept.push(policy);
                    }
                }
                self.policies.insert(i, (id, kept));
                return paid;
            }
            i = i + 1;
        }
        Vec::new()
    }
}

} // verus!
