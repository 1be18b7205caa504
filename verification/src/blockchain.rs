//! The ledger: an append-only, hash-linked chain of blocks that owns the
//! current difficulty.

use vstd::prelude::*;
use crate::block::{Block, BlockHeader, block_hash_spec};
use crate::consensus::{meets_pow, retarget, retarget_spec, is_valid_proof_of_work,
    DIFFICULTY_CEILING, RETARGET_INTERVAL};
use crate::fractal::{FractalTriangle, TriangleState};
use crate::genesis::{GenesisTriangle, genesis_triangle_spec};
use crate::hash::{H256, zero_hash};
use crate::merkle::{MerkleTree, merkle_root_spec};
use crate::transaction::{Transaction, TriangleOperation, op_regions, region_match,
    regions_match};
use crate::triangle::Triangle;

verus! {

/// The region descriptors that a transaction sequence brings into being,
/// in order.
pub open spec fn txs_regions(txs: Seq<Transaction>) -> Seq<(Triangle, TriangleState, Seq<u8>)>
    decreases txs.len(),
{
    if txs.len() == 0 {
        Seq::empty()
    } else {
        txs_regions(txs.drop_last()) + op_regions(txs.last().operation)
    }
}

/// The region descriptors of a whole chain: blocks in chain order,
/// transactions in block order.
pub open spec fn chain_regions(blocks: Seq<Block>) -> Seq<(Triangle, TriangleState, Seq<u8>)>
    decreases blocks.len(),
{
    if blocks.len() == 0 {
        Seq::empty()
    } else {
        chain_regions(blocks.drop_last())
            + txs_regions(blocks.last().triangle_transactions@)
    }
}

/// The ordered, hash-linked chain.
pub struct Blockchain {
    blocks: Vec<Block>,
    difficulty: u64,
}

/// The index of the first block whose header hashes to `h`, or the
/// length if there is none.
pub open spec fn first_match(blocks: Seq<Block>, h: Seq<u8>) -> int
    decreases blocks.len(),
{
    if blocks.len() == 0 {
        0
    } else if block_hash_spec(blocks[0].header) == h {
        0
    } else {
        1 + first_match(blocks.drop_first(), h)
    }
}

/// `first_match` is determined by any witness position.
pub proof fn lemma_first_match_at(blocks: Seq<Block>, h: Seq<u8>, k: int)
    requires
        0 <= k <= blocks.len(),
        forall|i: int| 0 <= i < k
            ==> block_hash_spec((#[trigger] blocks[i]).header) != h,
        k < blocks.len() ==> block_hash_spec(blocks[k].header) == h,
    ensures
        first_match(blocks, h) == k,
    decreases blocks.len(),
{
    if blocks.len() == 0 {
    } else if block_hash_spec(blocks[0].header) == h {
        assert(k == 0);
    } else {
        let t = blocks.drop_first();
        assert forall|i: int| 0 <= i < k - 1
            implies block_hash_spec((#[trigger] t[i]).header) != h by {
            assert(t[i] == blocks[i + 1]);
        }
        lemma_first_match_at(t, h, k - 1);
    }
}

impl Blockchain {
    /// The blocks, in order of appending.
    pub closed spec fn spec_blocks(self) -> Seq<Block> {
        self.blocks@
    }

    /// The difficulty currently in force.
    pub closed spec fn spec_difficulty(self) -> u64 {
        self.difficulty
    }

    /// The ledger invariant: the chain starts at a genesis block whose
    /// previous hash is the zero hash, heights count up from zero, every
    /// block points at the hash of its predecessor, every cached
    /// transaction hash is consistent, and the difficulty is within
    /// `[1, u64::MAX/1000]`.
    pub open spec fn wf(self) -> bool {
        &&& 1 <= self.spec_blocks().len() <= usize::MAX
        &&& self.spec_blocks()[0].header.previous_hash@ == zero_hash()
        &&& forall|i: int| 0 <= i < self.spec_blocks().len()
            ==> (#[trigger] self.spec_blocks()[i]).header.height == i
        &&& forall|i: int| 1 <= i < self.spec_blocks().len()
            ==> (#[trigger] self.spec_blocks()[i]).header.previous_hash@
                == block_hash_spec(self.spec_blocks()[i - 1].header)
        &&& forall|i: int| 0 <= i < self.spec_blocks().len()
            ==> (#[trigger] self.spec_blocks()[i]).txs_wf()
        &&& 1 <= self.spec_difficulty() <= DIFFICULTY_CEILING
    }

    /// A fresh chain: one mined genesis block at the initial difficulty.
    /// The genesis block carries exactly one transaction, which creates
    /// the genesis triangle, commits to it through its merkle root, and
    /// its nonce was ground against the work predicate.
    pub fn new() -> (r: Blockchain)
        ensures
            r.wf(),
            r.spec_blocks().len() == 1,
            r.spec_difficulty() == 1000000,
            r.spec_blocks()[0].triangle_transactions@.len() == 1,
            r.spec_blocks()[0].triangle_transactions@[0].operation
                == TriangleOperation::Create(genesis_triangle_spec()),
            r.spec_blocks()[0].header.merkle_root@
                == merkle_root_spec(r.spec_blocks()[0].triangle_transactions@),
            meets_pow(block_hash_spec(r.spec_blocks()[0].header), 1000000)
                || all_nonces_fail(r.spec_blocks()[0].header, 1000000),
    {
        let difficulty: u64 = 1000000;
        let genesis_block = Self::create_genesis_block(difficulty);
        let mut blocks: Vec<Block> = Vec::new();
        blocks.push(genesis_block);
        Blockchain { blocks, difficulty }
    }

    /// Build and mine the genesis block: the genesis triangle in one
    /// transaction, a zero previous hash, height zero, the nonce ground
    /// against the work predicate.
    fn create_genesis_block(difficulty: u64) -> (r: Block)
        requires
            1 <= difficulty <= DIFFICULTY_CEILING,
        ensures
            r.header.previous_hash@ == zero_hash(),
            r.header.height == 0,
            r.header.difficulty == difficulty,
            r.txs_wf(),
            r.triangle_transactions@.len() == 1,
            r.triangle_transactions@[0].operation
                == TriangleOperation::Create(genesis_triangle_spec()),
            r.header.merkle_root@ == merkle_root_spec(r.triangle_transactions@),
            meets_pow(block_hash_spec(r.header), difficulty)
                || all_nonces_fail(r.header, difficulty),
    {
        let genesis_triangle = GenesisTriangle::new();
        let genesis_tx = Transaction::new_genesis(genesis_triangle);
        let mut transactions: Vec<Transaction> = Vec::new();
        transactions.push(genesis_tx);
        let merkle_root = MerkleTree::new(&transactions).get_root();
        let mut genesis_block = Block::new(
            H256::default(), merkle_root, difficulty, 0, transactions);
        let ghost pre_header = genesis_block.header;
        find_nonce(&mut genesis_block, difficulty);
        proof {
            if all_nonces_fail(pre_header, difficulty) {
                assert forall|n: u64| !meets_pow(
                    block_hash_spec(with_nonce(genesis_block.header, n)), difficulty) by {
                    assert(with_nonce(genesis_block.header, n)
                        == with_nonce(pre_header, n));
                }
            }
        }
        genesis_block
    }

    /// Validate, mine and append a block; reject it whole on any failure.
    ///
    /// A block is accepted exactly when it points at the hash of the
    /// current tip and carries the next height.  On acceptance its nonce
    /// is ground until the work predicate holds (or the nonce space is
    /// exhausted), the block is appended, and whenever the new tip's
    /// height is a positive multiple of the retarget interval the
    /// difficulty is retargeted from the time since the block that many
    /// heights back.
    #[verifier::rlimit(60)]
    pub fn add_block(&mut self, block: Block) -> (r: Result<(), &'static str>)
        requires
            old(self).wf(),
            block.txs_wf(),
        ensures
            final(self).wf(),
            r is Ok <==> block.header.previous_hash@
                    == block_hash_spec(old(self).spec_blocks().last().header)
                && block.header.height == old(self).spec_blocks().len()
                && old(self).spec_blocks().len() < usize::MAX,
            r is Err ==> *final(self) == *old(self),
            r is Ok ==> {
                let appended = final(self).spec_blocks().last();
                &&& final(self).spec_blocks().len() == old(self).spec_blocks().len() + 1
                &&& final(self).spec_blocks()
                    == old(self).spec_blocks().push(appended)
                &&& appended.header.previous_hash@ == block.header.previous_hash@
                &&& appended.header.merkle_root@ == block.header.merkle_root@
                &&& appended.header.timestamp == block.header.timestamp
                &&& appended.header.difficulty == block.header.difficulty
                &&& appended.header.height == block.header.height
                &&& appended.header.geometric_proof@ == block.header.geometric_proof@
                &&& appended.triangle_transactions == block.triangle_transactions
                &&& (meets_pow(block_hash_spec(appended.header), old(self).spec_difficulty())
                    || all_nonces_fail(block.header, old(self).spec_difficulty()))
                &&& final(self).spec_difficulty() == if appended.header.height
                        % RETARGET_INTERVAL == 0 && appended.header.height > 0 {
                        retarget_spec(old(self).spec_difficulty(),
                            appended.header.timestamp - final(self).spec_blocks()[
                                appended.header.height - RETARGET_INTERVAL
                            ].header.timestamp)
                    } else {
                        old(self).spec_difficulty()
                    }
            },
    {
        if !self.is_valid_block(&block) {
            return Err("Invalid block");
        }
        if self.blocks.len() == usize::MAX {
            // the chain can hold no further block
            return Err("Invalid block");
        }

        let ghost pre = self.spec_blocks();
        let ghost d0 = self.spec_difficulty();
        let mut block = block;
        find_nonce(&mut block, self.difficulty);
        let ghost mined = block;
        let tip_height = block.header.height;
        self.blocks.push(block);
        proof {
            assert(self.spec_blocks() =~= pre.push(mined));
            assert forall|i: int| 0 <= i < self.spec_blocks().len()
                implies (#[trigger] self.spec_blocks()[i]).header.height == i by {
                if i < pre.len() {
                    assert(self.spec_blocks()[i] == pre[i]);
                }
            }
            assert forall|i: int| 1 <= i < self.spec_blocks().len()
                implies (#[trigger] self.spec_blocks()[i]).header.previous_hash@
                    == block_hash_spec(self.spec_blocks()[i - 1].header) by {
                if i < pre.len() {
                    assert(self.spec_blocks()[i] == pre[i]);
                    assert(self.spec_blocks()[i - 1] == pre[i - 1]);
                } else {
                    assert(self.spec_blocks()[i - 1] == pre.last());
                }
            }
            assert forall|i: int| 0 <= i < self.spec_blocks().len()
                implies (#[trigger] self.spec_blocks()[i]).txs_wf() by {
                if i < pre.len() {
                    assert(self.spec_blocks()[i] == pre[i]);
                }
            }
            assert(self.wf());
        }

        // retarget whenever the tip height is a positive interval multiple
        if tip_height % RETARGET_INTERVAL == 0 && tip_height > 0 {
            proof {
                assert(self.spec_blocks().last().header.height == tip_height);
            }
            self.adjust_difficulty();
        }
        Ok(())
    }

    /// The tip must be the parent: matching hash and next height.
    fn is_valid_block(&self, block: &Block) -> (r: bool)
        requires
            self.wf(),
        ensures
            r == (block.header.previous_hash@
                    == block_hash_spec(self.spec_blocks().last().header)
                && block.header.height == self.spec_blocks().len()),
    {
        let last_block = self.latest_block();
        let last_hash = last_block.hash();
        let prev = H256::from_array(block.header.previous_hash.to_bytes());
        if !(prev == last_hash) {
            return false;
        }
        if self.blocks.len() as u64 != block.header.height {
            proof {
                if block.header.height == self.spec_blocks().len() {
                    assert(self.spec_blocks().len() <= usize::MAX);
                }
            }
            return false;
        }
        true
    }

    /// Double or halve the difficulty from the time the last ten blocks
    /// took — the tip against the block ten heights back — clamped to
    /// `[1, u64::MAX/1000]`.
    fn adjust_difficulty(&mut self)
        requires
            old(self).wf(),
            old(self).spec_blocks().last().header.height % RETARGET_INTERVAL == 0,
            old(self).spec_blocks().last().header.height > 0,
        ensures
            final(self).spec_blocks() == old(self).spec_blocks(),
            1 <= final(self).spec_difficulty() <= DIFFICULTY_CEILING,
            final(self).spec_difficulty() == retarget_spec(
                old(self).spec_difficulty(),
                old(self).spec_blocks().last().header.timestamp
                    - old(self).spec_blocks()[old(self).spec_blocks().last().header.height
                        - RETARGET_INTERVAL].header.timestamp),
    {
        let n = self.blocks.len();
        proof {
            assert(self.spec_blocks()[n - 1].header.height == n - 1);
            assert(n - 1 >= RETARGET_INTERVAL);
        }
        let last_adjustment_block = &self.blocks[n - 11];
        let latest = &self.blocks[n - 1];
        let time_taken_wide: i128 = latest.header.timestamp as i128
            - last_adjustment_block.header.timestamp as i128;
        let time_taken: i64 = clamp_to_i64(time_taken_wide);
        proof {
            lemma_clamp_keeps_retarget(self.difficulty, time_taken_wide as int);
        }
        self.difficulty = retarget(self.difficulty, time_taken);
    }

    /// Look a block up by its header hash (the first match, scanning
    /// from the genesis block).
    pub fn get_block(&self, hash: &H256) -> (r: Option<&Block>)
        ensures
            match r {
                Some(b) => first_match(self.spec_blocks(), hash@)
                        < self.spec_blocks().len()
                    && *b == self.spec_blocks()[first_match(self.spec_blocks(), hash@)]
                    && block_hash_spec(b.header) == hash@,
                None => first_match(self.spec_blocks(), hash@)
                    == self.spec_blocks().len(),
            },
    {
        let mut i: usize = 0;
        while i < self.blocks.len()
            invariant
                0 <= i <= self.spec_blocks().len(),
                forall|k: int| 0 <= k < i ==> block_hash_spec(
                    (#[trigger] self.spec_blocks()[k]).header) != hash@,
            decreases self.spec_blocks().len() - i,
        {
            let h = self.blocks[i].hash();
            if h == *hash {
                proof {
                    lemma_first_match_at(self.spec_blocks(), hash@, i as int);
                }
                return Some(&self.blocks[i]);
            }
            i = i + 1;
        }
        proof {
            lemma_first_match_at(self.spec_blocks(), hash@,
                self.spec_blocks().len() as int);
        }
        None
    }

    pub fn get_difficulty(&self) -> (r: u64)
        ensures
            r == self.spec_difficulty(),
    {
        self.difficulty
    }

    /// The chain tip.
    pub fn latest_block(&self) -> (r: &Block)
        requires
            self.wf(),
        ensures
            *r == self.spec_blocks().last(),
    {
        &self.blocks[self.blocks.len() - 1]
    }

    /// The block at the given height, if the chain is that long.
    pub fn get_block_by_height(&self, height: u64) -> (r: Option<&Block>)
        ensures
            height < self.spec_blocks().len()
                ==> (r matches Some(b) && *b == self.spec_blocks()[height as int]),
            height >= self.spec_blocks().len() ==> r is None,
    {
        if height < self.blocks.len() as u64 {
            Some(&self.blocks[height as usize])
        } else {
            None
        }
    }

    /// Every region that the chain's transaction history brings into
    /// being, derived on demand: blocks in chain order, transactions in
    /// block order, each transaction's regions in order.  Everything but
    /// the machine-chosen ids is a function of the chain.
    pub fn get_active_triangles(&self) -> (r: Vec<FractalTriangle>)
        ensures
            regions_match(r@, chain_regions(self.spec_blocks())),
    {
        let mut active_triangles: Vec<FractalTriangle> = Vec::new();
        let ghost all = self.spec_blocks();
        proof {
            assert(all.subrange(0, 0) =~= Seq::<Block>::empty());
            assert(active_triangles@ =~= Seq::<FractalTriangle>::empty());
        }
        let mut i: usize = 0;
        while i < self.blocks.len()
            invariant
                0 <= i <= all.len(),
                all == self.spec_blocks(),
                regions_match(active_triangles@,
                    chain_regions(all.subrange(0, i as int))),
            decreases all.len() - i,
        {
            let block = &self.blocks[i];
            let ghost cpre = chain_regions(all.subrange(0, i as int));
            let ghost txs = block.triangle_transactions@;
            proof {
                assert(txs.subrange(0, 0) =~= Seq::<Transaction>::empty());
                assert(cpre + txs_regions(txs.subrange(0, 0)) =~= cpre);
            }
            let mut j: usize = 0;
            while j < block.triangle_transactions.len()
                invariant
                    0 <= j <= txs.len(),
                    txs == block.triangle_transactions@,
                    regions_match(active_triangles@,
                        cpre + txs_regions(txs.subrange(0, j as int))),
                decreases txs.len() - j,
            {
                let mut fts = block.triangle_transactions[j].get_fractal_triangles();
                let ghost op = txs[j as int].operation;
                let ghost fts_full = fts@;
                let ghost tpre = cpre + txs_regions(txs.subrange(0, j as int));
                proof {
                    assert(fts_full.subrange(0, fts_full.len() as int) =~= fts_full);
                    assert(tpre + op_regions(op).subrange(0, 0) =~= tpre);
                }
                while fts.len() > 0
                    invariant
                        fts@.len() <= fts_full.len(),
                        regions_match(fts_full, op_regions(op)),
                        fts@ == fts_full.subrange(
                            fts_full.len() - fts@.len(), fts_full.len() as int),
                        regions_match(active_triangles@, tpre + op_regions(op)
                            .subrange(0, fts_full.len() - fts@.len())),
                    decreases fts@.len(),
                {
                    let ghost done = fts_full.len() - fts@.len();
                    let ft = fts.remove(0);
                    proof {
                        assert(ft == fts_full[done as int]);
                        assert(fts@ =~= fts_full.subrange(
                            fts_full.len() - fts@.len(), fts_full.len() as int));
                        assert((tpre + op_regions(op).subrange(0, done as int))
                            .push(op_regions(op)[done as int])
                            =~= tpre + op_regions(op).subrange(0, done + 1));
                    }
                    active_triangles.push(ft);
                }
                proof {
                    assert(op_regions(op).subrange(0, op_regions(op).len() as int)
                        =~= op_regions(op));
                    let nxt = txs.subrange(0, j + 1);
                    assert(nxt.drop_last() =~= txs.subrange(0, j as int));
                    assert(nxt.last() == txs[j as int]);
                    assert(txs_regions(nxt) == txs_regions(txs.subrange(0, j as int))
                        + op_regions(op));
                    assert(tpre + op_regions(op)
                        =~= cpre + txs_regions(txs.subrange(0, j + 1)));
                }
                j = j + 1;
            }
            proof {
                assert(txs.subrange(0, txs.len() as int) =~= txs);
                let nxt = all.subrange(0, i + 1);
                assert(nxt.drop_last() =~= all.subrange(0, i as int));
                assert(nxt.last() == all[i as int]);
                assert(chain_regions(nxt) == cpre + txs_regions(txs));
            }
            i = i + 1;
        }
        proof {
            assert(all.subrange(0, all.len() as int) =~= all);
        }
        active_triangles
    }
}

/// No nonce at all makes this header meet the work predicate.
pub open spec fn all_nonces_fail(h: BlockHeader, difficulty: u64) -> bool {
    forall|n: u64| !meets_pow(block_hash_spec(with_nonce(h, n)), difficulty)
}

/// The same header with another nonce.
pub open spec fn with_nonce(h: BlockHeader, n: u64) -> BlockHeader {
    BlockHeader { nonce: n, ..h }
}

/// Grind the nonce until the work predicate holds, or the nonce space is
/// exhausted (then the header keeps the last nonce tried).
pub fn find_nonce(block: &mut Block, difficulty: u64)
    requires
        difficulty >= 1,
    ensures
        final(block).header.previous_hash@ == old(block).header.previous_hash@,
        final(block).header.merkle_root@ == old(block).header.merkle_root@,
        final(block).header.timestamp == old(block).header.timestamp,
        final(block).header.difficulty == old(block).header.difficulty,
        final(block).header.height == old(block).header.height,
        final(block).header.geometric_proof@ == old(block).header.geometric_proof@,
        final(block).header.geometric_proof == old(block).header.geometric_proof,
        final(block).triangle_transactions == old(block).triangle_transactions,
        final(block).header == with_nonce(old(block).header, final(block).header.nonce),
        meets_pow(block_hash_spec(final(block).header), difficulty)
            || all_nonces_fail(old(block).header, difficulty),
{
    block.header.nonce = 0;
    loop
        invariant
            difficulty >= 1,
            block.header.previous_hash@ == old(block).header.previous_hash@,
            block.header.merkle_root@ == old(block).header.merkle_root@,
            block.header.timestamp == old(block).header.timestamp,
            block.header.difficulty == old(block).header.difficulty,
            block.header.height == old(block).header.height,
            block.header.geometric_proof == old(block).header.geometric_proof,
            block.triangle_transactions == old(block).triangle_transactions,
            forall|n: u64| n < block.header.nonce
                ==> !meets_pow(block_hash_spec(with_nonce(old(block).header, n)),
                    difficulty),
            block.header == with_nonce(old(block).header, block.header.nonce),
        ensures
            block.header.previous_hash@ == old(block).header.previous_hash@,
            block.header.merkle_root@ == old(block).header.merkle_root@,
            block.header.timestamp == old(block).header.timestamp,
            block.header.difficulty == old(block).header.difficulty,
            block.header.height == old(block).header.height,
            block.header.geometric_proof == old(block).header.geometric_proof,
            block.triangle_transactions == old(block).triangle_transactions,
            meets_pow(block_hash_spec(block.header), difficulty)
                || all_nonces_fail(old(block).header, difficulty),
        decreases u64::MAX - block.header.nonce,
    {
        if is_valid_proof_of_work(block, difficulty) {
            break;
        }
        if block.header.nonce == u64::MAX {
            proof {
                assert forall|n: u64| !meets_pow(
                    block_hash_spec(with_nonce(old(block).header, n)), difficulty) by {
                    if n < u64::MAX {
                    } else {
                        assert(with_nonce(old(block).header, n) == block.header);
                    }
                }
            }
            break;
        }
        block.header.nonce = block.header.nonce + 1;
    }
}

/// Saturate a 128-bit time difference into 64 bits (only absurd clock
/// values are affected, and only their comparison outcome matters).
fn clamp_to_i64(x: i128) -> (r: i64)
    ensures
        x < i64::MIN ==> r == i64::MIN,
        x > i64::MAX ==> r == i64::MAX,
        i64::MIN <= x <= i64::MAX ==> r == x,
{
    if x < i64::MIN as i128 {
        i64::MIN
    } else if x > i64::MAX as i128 {
        i64::MAX
    } else {
        x as i64
    }
}

/// Clamping the time difference into 64 bits never changes what the
/// retarget decides: the clamped value falls on the same side of both
/// comparison bounds.
proof fn lemma_clamp_keeps_retarget(d: u64, t: int)
    ensures
        retarget_spec(d, t) == retarget_spec(d,
            if t < i64::MIN as int { i64::MIN as int }
            else if t > i64::MAX as int { i64::MAX as int }
            else { t }),
{
}

} // verus!
