//! Atomic swaps between triangular regions.

use vstd::prelude::*;
use crate::dec::Dec;
use crate::hash::H256;
use crate::triangle::Triangle;
use crate::wallet::Address;

verus! {

/// Where a swap stands.
#[derive(Debug, Clone, Copy, PartialEq, Eq, Structural)]
pub enum SwapState {
    /// Opened by the initiator, waiting for the counterparty.
    Initiated,
    /// Completed by the counterparty.
    Confirmed,
    /// Returned to the initiator.
    Refunded,
}

/// One swap agreement, locked under a secret hash.
pub struct AtomicSwap {
    pub initiator: Address,
    pub participant: Address,
    pub from_triangle: Triangle,
    pub to_triangle: Triangle,
    pub from_amount: Dec,
    pub to_amount: Dec,
    pub secret_hash: H256,
    pub state: SwapState,
}

/// Whether a swap exists under the given secret hash.
pub open spec fn has_swap(swaps: Seq<(H256, AtomicSwap)>, k: Seq<u8>) -> bool {
    exists|i: int| 0 <= i < swaps.len() && (#[trigger] swaps[i]).0@ == k
}

/// All open and settled swaps, keyed by secret hash.
pub struct SwapManager {
    swaps: Vec<(H256, AtomicSwap)>,
}

impl SwapManager {
    pub closed spec fn spec_swaps(self) -> Seq<(H256, AtomicSwap)> {
        self.swaps@
    }

    pub fn new() -> (r: SwapManager)
        ensures
            r.spec_swaps().len() == 0,
    {
        SwapManager { swaps: Vec::new() }
    }

    /// Open a swap under its secret hash, in the `Initiated` state.
    pub fn initiate_swap(
        &mut self,
        initiator: Address,
        participant: Address,
        from_triangle: Triangle,
        to_triangle: Triangle,
        from_amount: Dec,
        to_amount: Dec,
        secret_hash: H256,
    )
        ensures
            has_swap(final(self).spec_swaps(), secret_hash@),
            final(self).spec_swaps().len() == old(self).spec_swaps().len() + 1,
            final(self).spec_swaps().last().1.state == SwapState::Initiated,
    {
        let key = H256::from_array(secret_hash.to_bytes());
        let swap = AtomicSwap {
            initiator,
            participant,
            from_triangle,
            to_triangle,
            from_amount,
            to_amount,
            secret_hash,
            state: SwapState::Initiated,
        };
        self.swaps.push((key, swap));
        proof {
            let n = self.spec_swaps().len();
            assert(self.spec_swaps()[n - 1].0@ == secret_hash@);
        }
    }

    /// Mark the swap under the secret hash as confirmed.
    pub fn confirm_swap(&mut self, secret_hash: &H256, _secret: &[u8])
        ensures
            final(self).spec_swaps().len() == old(self).spec_swaps().len(),
            has_swap(old(self).spec_swaps(), secret_hash@)
                ==> exists|i: int| 0 <= i < final(self).spec_swaps().len()
                    && (#[trigger] final(self).spec_swaps()[i]).0@ == secret_hash@
                    && final(self).spec_swaps()[i].1.state == SwapState::Confirmed,
    {
        self.set_state(secret_hash, SwapState::Confirmed);
    }

    /// Mark the swap under the secret hash as refunded.
    pub fn refund_swap(&mut self, secret_hash: &H256)
        ensures
            final(self).spec_swaps().len() == old(self).spec_swaps().len(),
            has_swap(old(self).spec_swaps(), secret_hash@)
                ==> exists|i: int| 0 <= i < final(self).spec_swaps().len()
                    && (#[trigger] final(self).spec_swaps()[i]).0@ == secret_hash@
                    && final(self).spec_swaps()[i].1.state == SwapState::Refunded,
    {
        self.set_state(secret_hash, SwapState::Refunded);
    }

    /// Set the state of the first swap under the key, if any.
    fn set_state(&mut self, secret_hash: &H256, state: SwapState)
        ensures
            final(self).spec_swaps().len() == old(self).spec_swaps().len(),
            has_swap(old(self).spec_swaps(), secret_hash@)
                ==> exists|i: int| 0 <= i < final(self).spec_swaps().len()
                    && (#[trigger] final(self).spec_swaps()[i]).0@ == secret_hash@
                    && final(self).spec_swaps()[i].1.state == state,
    {
        let mut i: usize = 0;
        while i < self.swaps.len()
            invariant
                0 <= i <= self.spec_swaps().len(),
                *self == *old(self),
                forall|k: int| 0 <= k < i
                    ==> (#[trigger] self.spec_swaps()[k]).0@ != secret_hash@,
            decreases self.spec_swaps().len() - i,
        {
            let found = self.swaps[i].0 == *secret_hash;
            if found {
                let (id, swap) = self.swaps.remove(i);
                let updated = AtomicSwap {
                    initiator: swap.initiator,
                    participant: swap.participant,
                    from_triangle: swap.from_triangle,
                    to_triangle: swap.to_triangle,
                    from_amount: swap.from_amount,
                    to_amount: swap.to_amount,
                    secret_hash: swap.secret_hash,
                    state,
                };
                self.swaps.insert(i, (id, updated));
                proof {
                    assert(self.spec_swaps()[i as int].0@ == secret_hash@);
                }
                return;
            }
            i = i + 1;
        }
    }
}

} // verus!
