//! The pool of transactions waiting for inclusion in a block.

use vstd::prelude::*;
use crate::transaction::Transaction;

verus! {

/// Whether a pool entry carries the key `k`.
pub open spec fn pool_has(entries: Seq<([u8; 32], Transaction)>, k: Seq<u8>) -> bool {
    exists|i: int| 0 <= i < entries.len() && (#[trigger] entries[i]).0@ == k
}

/// Pending transactions, keyed by identity hash.
pub struct Mempool {
    transactions: Vec<([u8; 32], Transaction)>,
}

impl Mempool {
    pub closed spec fn spec_entries(self) -> Seq<([u8; 32], Transaction)> {
        self.transactions@
    }

    pub fn new() -> (r: Mempool)
        ensures
            r.spec_entries().len() == 0,
    {
        Mempool { transactions: Vec::new() }
    }

    /// Add a transaction under its identity hash; an entry with the same
    /// hash is replaced.
    pub fn add_transaction(&mut self, tx: Transaction)
        requires
            tx.wf(),
        ensures
            final(self).spec_entries().last().0@ == tx.id_hash(),
            final(self).spec_entries().last().1 == tx,
            pool_has(final(self).spec_entries(), tx.id_hash()),
    {
        let key = tx.hash().to_bytes();
        let mut i: usize = 0;
        while i < self.transactions.len()
            invariant
                0 <= i <= self.spec_entries().len(),
                key@ == tx.id_hash(),
            decreases self.spec_entries().len() - i,
        {
            let hit = key_eq(&self.transactions[i].0, &key);
            if hit {
                let _ = self.transactions.remove(i);
                self.transactions.push((key, tx));
                proof {
                    let e = self.spec_entries();
                    assert(e[e.len() - 1].0@ == tx.id_hash());
                }
                return;
            }
            i = i + 1;
        }
        self.transactions.push((key, tx));
        proof {
            let e = self.spec_entries();
            assert(e[e.len() - 1].0@ == tx.id_hash());
        }
    }

    /// The transaction stored under a hash, if any.
    pub fn get_transaction(&self, hash: &[u8; 32]) -> (r: Option<&Transaction>)
        ensures
            r is Some <==> pool_has(self.spec_entries(), hash@),
    {
        let mut i: usize = 0;
        while i < self.transactions.len()
            invariant
                0 <= i <= self.spec_entries().len(),
                forall|k: int| 0 <= k < i
                    ==> (#[trigger] self.spec_entries()[k]).0@ != hash@,
            decreases self.spec_entries().len() - i,
        {
            let hit = key_eq(&self.transactions[i].0, hash);
            if hit {
                return Some(&self.transactions[i].1);
            }
            i = i + 1;
        }
        None
    }

    /// All pending transactions, in insertion order, content for content.
    pub fn get_pending_transactions(&self) -> (r: Vec<Transaction>)
        ensures
            r@.len() == self.spec_entries().len(),
            forall|i: int| 0 <= i < r@.len() ==> crate::transaction::same_tx(
                #[trigger] r@[i], self.spec_entries()[i].1),
    {
        let mut out: Vec<Transaction> = Vec::new();
        let mut i: usize = 0;
        while i < self.transactions.len()
            invariant
                0 <= i <= self.spec_entries().len(),
                out@.len() == i,
                forall|k: int| 0 <= k < i ==> crate::transaction::same_tx(
                    #[trigger] out@[k], self.spec_entries()[k].1),
            decreases self.spec_entries().len() - i,
        {
            out.push(crate::transaction::copy_tx(&self.transactions[i].1));
            i = i + 1;
        }
        out
    }
}

/// Byte-wise equality of 32-byte keys.
fn key_eq(a: &[u8; 32], b: &[u8; 32]) -> (r: bool)
    ensures
        r == (a@ == b@),
{
    let mut i: usize = 0;
    while i < 32
        invariant
            0 <= i <= 32,
            forall|k: int| 0 <= k < i ==> a@[k] == b@[k],
        decreases 32 - i,
    {
        if a[i] != b[i] {
            return false;
        }
        i = i + 1;
    }
    proof {
        assert(a@ =~= b@);
    }
    true
}

} // verus!
