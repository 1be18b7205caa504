//! The storage contract the core consumes: block and transaction lookup
//! by content hash, with an in-memory reference implementation.

use vstd::prelude::*;
use crate::block::{Block, block_hash_spec, copy_block, same_block};
use crate::hash::H256;
use crate::transaction::{Transaction, copy_tx, same_tx, enc_operation};
use crate::hash::blake3_of;

verus! {

/// What a block store must offer: a keyed sequence of stored blocks,
/// `put` appending under the block's header hash, `get` returning the
/// content of the first block stored under the key.
pub trait BlockStorage {
    spec fn stored_blocks(&self) -> Seq<(Seq<u8>, Block)>;

    fn get_block(&self, hash: &H256) -> (r: Option<Block>)
        ensures
            r is None ==> forall|i: int| 0 <= i < self.stored_blocks().len()
                ==> (#[trigger] self.stored_blocks()[i]).0 != hash@,
            r matches Some(b) ==> exists|i: int| 0 <= i < self.stored_blocks().len()
                && (#[trigger] self.stored_blocks()[i]).0 == hash@
                && same_block(b, self.stored_blocks()[i].1),
    ;

    fn put_block(&mut self, block: &Block)
        ensures
            final(self).stored_blocks().len() == old(self).stored_blocks().len() + 1,
            forall|i: int| 0 <= i < old(self).stored_blocks().len()
                ==> #[trigger] final(self).stored_blocks()[i]
                    == old(self).stored_blocks()[i],
            final(self).stored_blocks().last().0 == block_hash_spec(block.header),
            same_block(final(self).stored_blocks().last().1, *block),
    ;
}

/// What a transaction store must offer: `put` appends under the identity
/// hash of the transaction's operation bytes, `get` returns the content
/// of the first transaction stored under the key.
pub trait TransactionStorage {
    spec fn stored_txs(&self) -> Seq<(Seq<u8>, Transaction)>;

    fn get_transaction(&self, hash: &H256) -> (r: Option<Transaction>)
        ensures
            r is None ==> forall|i: int| 0 <= i < self.stored_txs().len()
                ==> (#[trigger] self.stored_txs()[i]).0 != hash@,
            r matches Some(t) ==> exists|i: int| 0 <= i < self.stored_txs().len()
                && (#[trigger] self.stored_txs()[i]).0 == hash@
                && same_tx(t, self.stored_txs()[i].1),
    ;

    fn put_transaction(&mut self, tx: &Transaction)
        ensures
            final(self).stored_txs().len() == old(self).stored_txs().len() + 1,
            forall|i: int| 0 <= i < old(self).stored_txs().len()
                ==> #[trigger] final(self).stored_txs()[i] == old(self).stored_txs()[i],
            final(self).stored_txs().last().0 == blake3_of(enc_operation(tx.operation)),
            same_tx(final(self).stored_txs().last().1, *tx),
    ;
}

/// A store backed by plain vectors.
pub struct InMemoryStorage {
    blocks: Vec<(H256, Block)>,
    transactions: Vec<(H256, Transaction)>,
}

impl InMemoryStorage {
    pub fn new() -> (r: InMemoryStorage)
        ensures
            r.stored_blocks().len() == 0,
            r.stored_txs().len() == 0,
    {
        let r = InMemoryStorage { blocks: Vec::new(), transactions: Vec::new() };
        proof {
            assert(r.stored_blocks() =~= Seq::<(Seq<u8>, Block)>::empty());
            assert(r.stored_txs() =~= Seq::<(Seq<u8>, Transaction)>::empty());
        }
        r
    }
}

impl BlockStorage for InMemoryStorage {
    closed spec fn stored_blocks(&self) -> Seq<(Seq<u8>, Block)> {
        self.blocks@.map_values(|p: (H256, Block)| (p.0@, p.1))
    }

    fn get_block(&self, hash: &H256) -> (r: Option<Block>) {
        let mut i: usize = 0;
        while i < self.blocks.len()
            invariant
                0 <= i <= self.blocks@.len(),
                forall|k: int| 0 <= k < i
                    ==> (#[trigger] self.stored_blocks()[k]).0 != hash@,
            decreases self.blocks@.len() - i,
        {
            let hit = self.blocks[i].0 == *hash;
            if hit {
                let b = copy_block(&self.blocks[i].1);
                proof {
                    assert(self.stored_blocks()[i as int].0 == hash@);
                    assert(same_block(b, self.stored_blocks()[i as int].1));
                }
                return Some(b);
            }
            i = i + 1;
        }
        None
    }

    fn put_block(&mut self, block: &Block) {
        let h = block.hash();
        let ghost pre = self.stored_blocks();
        self.blocks.push((h, copy_block(block)));
        proof {
            assert(self.stored_blocks() =~= pre.push(
                (self.blocks@.last().0@, self.blocks@.last().1)));
        }
    }
}

impl TransactionStorage for InMemoryStorage {
    closed spec fn stored_txs(&self) -> Seq<(Seq<u8>, Transaction)> {
        self.transactions@.map_values(|p: (H256, Transaction)| (p.0@, p.1))
    }

    fn get_transaction(&self, hash: &H256) -> (r: Option<Transaction>) {
        let mut i: usize = 0;
        while i < self.transactions.len()
            invariant
                0 <= i <= self.transactions@.len(),
                forall|k: int| 0 <= k < i
                    ==> (#[trigger] self.stored_txs()[k]).0 != hash@,
            decreases self.transactions@.len() - i,
        {
            let hit = self.transactions[i].0 == *hash;
            if hit {
                let t = copy_tx(&self.transactions[i].1);
                proof {
                    assert(self.stored_txs()[i as int].0 == hash@);
                    assert(same_tx(t, self.stored_txs()[i as int].1));
                }
                return Some(t);
            }
            i = i + 1;
        }
        None
    }

    fn put_transaction(&mut self, tx: &Transaction) {
        let h = tx.computed_hash();
        let ghost pre = self.stored_txs();
        self.transactions.push((h, copy_tx(tx)));
        proof {
            assert(self.stored_txs() =~= pre.push(
                (self.transactions@.last().0@, self.transactions@.last().1)));
        }
    }
}

} // verus!
