//! Rental agreements over triangular regions.

use vstd::prelude::*;
use crate::codec::{enc_triangle, triangle_hash};
use crate::dec::Dec;
use crate::hash::{H256, blake3_of};
use crate::triangle::Triangle;
use crate::wallet::Address;

verus! {

/// One rental of one region.
pub struct RentalAgreement {
    pub renter: Address,
    pub triangle: Triangle,
    pub price: Dec,
    /// Rental period, in blocks.
    pub duration: u64,
    /// The block at which the rental lapses.
    pub expiration_block: u64,
}

/// Whether any agreement under the key is still running at `now`.
pub open spec fn rented_at(
    rentals: Seq<(H256, Vec<RentalAgreement>)>,
    k: Seq<u8>,
    now: u64,
) -> bool {
    exists|i: int, j: int| 0 <= i < rentals.len() && (#[trigger] rentals[i]).0@ == k
        && 0 <= j < rentals[i].1@.len()
        && (#[trigger] rentals[i].1@[j]).expiration_block > now
}

/// All rentals, grouped by region hash.
pub struct RentalManager {
    rentals: Vec<(H256, Vec<RentalAgreement>)>,
}

impl RentalManager {
    pub closed spec fn spec_rentals(self) -> Seq<(H256, Vec<RentalAgreement>)> {
        self.rentals@
    }

    pub fn new() -> (r: RentalManager)
        ensures
            r.spec_rentals().len() == 0,
    {
        RentalManager { rentals: Vec::new() }
    }

    /// File a rental for a region: the expiration is the current block
    /// plus the duration (saturated at the largest block number).
    pub fn rent_triangle(
        &mut self,
        renter: Address,
        triangle: Triangle,
        price: Dec,
        duration: u64,
        current_block: u64,
    )
        ensures
            rented_at(final(self).spec_rentals(), blake3_of(enc_triangle(triangle)),
                current_block) || duration == 0 || current_block == u64::MAX,
    {
        let triangle_id = triangle_hash(&triangle);
        let expiration_block = if current_block > u64::MAX - duration {
            u64::MAX
        } else {
            current_block + duration
        };
        let agreement = RentalAgreement {
            renter,
            triangle,
            price,
            duration,
            expiration_block,
        };
        let mut i: usize = 0;
        while i < self.rentals.len()
            invariant
                0 <= i <= self.spec_rentals().len(),
                *self == *old(self),
                triangle_id@ == blake3_of(enc_triangle(triangle)),
                agreement.expiration_block
                    == if current_block > u64::MAX - duration { u64::MAX }
                        else { (current_block + duration) as u64 },
            decreases self.spec_rentals().len() - i,
        {
            let found = self.rentals[i].0 == triangle_id;
            if found {
                let (id, mut list) = self.rentals.remove(i);
                list.push(agreement);
                let ghost lst = list@;
                self.rentals.insert(i, (id, list));
                proof {
                    if duration > 0 && current_block < u64::MAX {
                        assert(self.spec_rentals()[i as int].1@[lst.len() - 1]
                            .expiration_block > current_block);
                    }
                }
                return;
            }
            i = i + 1;
        }
        let mut list: Vec<RentalAgreement> = Vec::new();
        list.push(agreement);
        let ghost lst = list@;
        self.rentals.push((triangle_id, list));
        proof {
            let n = self.spec_rentals().len();
            if duration > 0 && current_block < u64::MAX {
                assert(self.spec_rentals()[n - 1].0@
                    == blake3_of(enc_triangle(triangle)));
                assert(self.spec_rentals()[n - 1].1@[0].expiration_block
                    > current_block);
            }
        }
    }

    /// Whether the region is rented out at the given block.
    pub fn is_rented(&self, triangle_id: &H256, current_block: u64) -> (r: bool)
        ensures
            r == rented_at(self.spec_rentals(), triangle_id@, current_block),
    {
        let mut i: usize = 0;
        while i < self.rentals.len()
            invariant
                0 <= i <= self.spec_rentals().len(),
                forall|a: int, b: int|
                    0 <= a < i && (#[trigger] self.spec_rentals()[a]).0@ == triangle_id@
                        && 0 <= b < self.spec_rentals()[a].1@.len()
                    ==> (#[trigger] self.spec_rentals()[a].1@[b]).expiration_block
                        <= current_block,
            decreases self.spec_rentals().len() - i,
        {
            let found = self.rentals[i].0 == *triangle_id;
            if found {
                let list = &self.rentals[i].1;
                let mut j: usize = 0;
                while j < list.len()
                    invariant
                        0 <= j <= list@.len(),
                        list@ == self.spec_rentals()[i as int].1@,
                        0 <= i < self.spec_rentals().len(),
                        self.spec_rentals()[i as int].0@ == triangle_id@,
                        forall|b: int| 0 <= b < j
                            ==> (#[trigger] list@[b]).expiration_block <= current_block,
                    decreases list@.len() - j,
                {
                    if list[j].expiration_block > current_block {
                        return true;
                    }
                    j = j + 1;
                }
            }
            i = i + 1;
        }
        proof {
            if rented_at(self.spec_rentals(), triangle_id@, current_block) {
                let (a, b): (int, int) = choose|a: int, b: int|
                    0 <= a < self.spec_rentals().len()
                        && (#[trigger] self.spec_rentals()[a]).0@ == triangle_id@
                        && 0 <= b < self.spec_rentals()[a].1@.len()
                        && (#[trigger] self.spec_rentals()[a].1@[b]).expiration_block
                            > current_block;
                assert(false);
            }
        }
        false
    }
}

} // verus!
