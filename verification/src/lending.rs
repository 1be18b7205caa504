//! Loans collateralised by triangular regions.

use vstd::prelude::*;
use crate::dec::{Dec, amt, amount_ok, AMOUNT_SCALE, AMOUNT_LIMIT};
use crate::triangle::Triangle;
use crate::wallet::Address;

verus! {

/// One loan against one collateral region.
pub struct Loan {
    pub borrower: Address,
    pub collateral_triangle: Triangle,
    pub loan_amount: Dec,
    pub collateral_value: Dec,
    pub start_block: u64,
    pub interest_rate: Dec,
}

/// The lending book: loans grouped by borrower.
pub struct LendingPlatform {
    loans: Vec<(Address, Vec<Loan>)>,
}

/// The loans recorded under a borrower, or the empty sequence.
pub open spec fn loans_of(book: Seq<(Address, Vec<Loan>)>, who: Seq<u8>) -> bool {
    exists|i: int| 0 <= i < book.len() && (#[trigger] book[i]).0@ == who
}

impl LendingPlatform {
    pub closed spec fn spec_book(self) -> Seq<(Address, Vec<Loan>)> {
        self.loans@
    }

    pub fn new() -> (r: LendingPlatform)
        ensures
            r.spec_book().len() == 0,
    {
        LendingPlatform { loans: Vec::new() }
    }

    /// Record a loan under the borrower.
    pub fn create_loan(
        &mut self,
        borrower: Address,
        collateral_triangle: Triangle,
        loan_amount: Dec,
        collateral_value: Dec,
        start_block: u64,
        interest_rate: Dec,
    )
        ensures
            loans_of(final(self).spec_book(), borrower@),
    {
        let loan = Loan {
            borrower,
            collateral_triangle,
            loan_amount,
            collateral_value,
            start_block,
            interest_rate,
        };
        let mut i: usize = 0;
        while i < self.loans.len()
            invariant
                0 <= i <= self.spec_book().len(),
                *self == *old(self),
            decreases self.spec_book().len() - i,
        {
            let found = self.loans[i].0 == borrower;
            if found {
                let (who, mut list) = self.loans.remove(i);
                list.push(loan);
                self.loans.insert(i, (who, list));
                proof {
                    assert(self.spec_book()[i as int].0@ == borrower@);
                }
                return;
            }
            i = i + 1;
        }
        let mut list: Vec<Loan> = Vec::new();
        list.push(loan);
        self.loans.push((borrower, list));
        proof {
            let n = self.spec_book().len();
            assert(self.spec_book()[n - 1].0@ == borrower@);
        }
    }

    /// Pay `amount` off the given loan.  Nothing changes when the borrower
    /// or index is unknown, or when a balance would leave the range.
    pub fn repay_loan(&mut self, borrower: &Address, loan_index: usize, amount: Dec)
        requires
            amount_ok(amount),
        ensures
            final(self).spec_book().len() == old(self).spec_book().len(),
    {
        let mut i: usize = 0;
        while i < self.loans.len()
            invariant
                0 <= i <= self.spec_book().len(),
                *self == *old(self),
                amount_ok(amount),
            decreases self.spec_book().len() - i,
        {
            let found = self.loans[i].0 == *borrower;
            if found {
                let (who, mut list) = self.loans.remove(i);
                if loan_index < list.len() {
                    let loan = list.remove(loan_index);
                    let new_amount = sub_amount(loan.loan_amount, amount);
                    let updated = match new_amount {
                        Some(a) => Loan {
                            borrower: loan.borrower,
                            collateral_triangle: loan.collateral_triangle,
                            loan_amount: a,
                            collateral_value: loan.collateral_value,
                            start_block: loan.start_block,
                            interest_rate: loan.interest_rate,
                        },
                        None => loan,
                    };
                    list.insert(loan_index, updated);
                }
                self.loans.insert(i, (who, list));
                return;
            }
            i = i + 1;
        }
    }

    /// Remove a loan outright (its collateral covers it).
    pub fn liquidate_loan(&mut self, borrower: &Address, loan_index: usize)
        ensures
            final(self).spec_book().len() == old(self).spec_book().len(),
    {
        let mut i: usize = 0;
        while i < self.loans.len()
            invariant
                0 <= i <= self.spec_book().len(),
                *self == *old(self),
            decreases self.spec_book().len() - i,
        {
            let found = self.loans[i].0 == *borrower;
            if found {
                let (who, mut list) = self.loans.remove(i);
                if loan_index < list.len() {
                    let _ = list.remove(loan_index);
                }
                self.loans.insert(i, (who, list));
                return;
            }
            i = i + 1;
        }
    }
}

/// The exact difference of two amounts, or `None` when either side is not
/// a representable amount or the result leaves the range.
fn sub_amount(a: Dec, b: Dec) -> (r: Option<Dec>)
    requires
        amount_ok(b),
    ensures
        r matches Some(c) ==> amount_ok(a) && c.s == AMOUNT_SCALE
            && c.m == amt(a) - amt(b),
{
    if !crate::dec::amount_ok_check(a) {
        return None;
    }
    let ra = a.to_amount_scale();
    let rb = b.to_amount_scale();
    let diff = ra.m - rb.m;
    if -AMOUNT_LIMIT <= diff && diff <= AMOUNT_LIMIT {
        Some(Dec { m: diff, s: AMOUNT_SCALE })
    } else {
        None
    }
}

} // verus!
