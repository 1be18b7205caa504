//! The merkle commitment: folds a sequence of transaction hashes into one
//! root.  Pairs are concatenated (left then right, 32 + 32 bytes) and
//! hashed; an odd hash out is paired with itself; the empty sequence
//! commits to the zero hash.

use vstd::prelude::*;
use crate::hash::{H256, blake3_of, blake3_hash, zero_hash};
use crate::transaction::Transaction;

verus! {

/// The hash of a pair of hashes.
pub open spec fn combine(a: Seq<u8>, b: Seq<u8>) -> Seq<u8> {
    blake3_of(a + b)
}

/// One folding step: adjacent hashes pairwise, the odd last one with itself.
pub open spec fn level_up(level: Seq<Seq<u8>>) -> Seq<Seq<u8>>
    decreases level.len(),
{
    if level.len() == 0 {
        Seq::empty()
    } else if level.len() == 1 {
        seq![combine(level[0], level[0])]
    } else {
        seq![combine(level[0], level[1])] + level_up(level.skip(2))
    }
}

pub proof fn lemma_level_up_len(level: Seq<Seq<u8>>)
    ensures
        level.len() == 0 ==> level_up(level).len() == 0,
        level.len() > 0 ==> level_up(level).len() == (level.len() + 1) / 2,
    decreases level.len(),
{
    if level.len() > 1 {
        lemma_level_up_len(level.skip(2));
    }
}

/// Fold levels until one hash remains.
pub open spec fn root_of(level: Seq<Seq<u8>>) -> Seq<u8>
    decreases level.len(),
    via root_of_terminates
{
    if level.len() == 0 {
        zero_hash()
    } else if level.len() == 1 {
        level[0]
    } else {
        root_of(level_up(level))
    }
}

#[via_fn]
proof fn root_of_terminates(level: Seq<Seq<u8>>) {
    lemma_level_up_len(level);
}

/// The identity hashes of a sequence of transactions.
pub open spec fn leaf_hashes(txs: Seq<Transaction>) -> Seq<Seq<u8>> {
    txs.map_values(|tx: Transaction| tx.id_hash())
}

/// What the merkle commitment of a transaction sequence is.
pub open spec fn merkle_root_spec(txs: Seq<Transaction>) -> Seq<u8> {
    root_of(leaf_hashes(txs))
}

/// A merkle tree, reduced to its root.
pub struct MerkleTree {
    root: H256,
}

impl MerkleTree {
    /// The committed root, as bytes.
    pub closed spec fn spec_root(self) -> Seq<u8> {
        self.root@
    }
}

/// Concatenate two 32-byte hashes and hash the 64-byte buffer.
fn combine_hashes(left: &H256, right: &H256) -> (r: H256)
    ensures
        r@ == combine(left@, right@),
{
    let mut combined: Vec<u8> = Vec::new();
    let lb = left.to_bytes();
    let rb = right.to_bytes();
    let mut i: usize = 0;
    while i < 32
        invariant
            0 <= i <= 32,
            lb@.len() == 32,
            combined@ == lb@.subrange(0, i as int),
        decreases 32 - i,
    {
        proof {
            assert(lb@.subrange(0, i as int).push(lb@[i as int])
                =~= lb@.subrange(0, i + 1));
        }
        combined.push(lb[i]);
        i = i + 1;
    }
    let mut j: usize = 0;
    while j < 32
        invariant
            0 <= j <= 32,
            lb@.len() == 32,
            rb@.len() == 32,
            combined@ == lb@ + rb@.subrange(0, j as int),
        decreases 32 - j,
    {
        proof {
            assert((lb@ + rb@.subrange(0, j as int)).push(rb@[j as int])
                =~= lb@ + rb@.subrange(0, j + 1));
        }
        combined.push(rb[j]);
        j = j + 1;
    }
    proof {
        assert(lb@.subrange(0, 32) =~= lb@);
        assert(rb@.subrange(0, 32) =~= rb@);
        assert(combined@ =~= left@ + right@);
    }
    H256::from_array(blake3_hash(combined.as_slice()))
}

/// `level_up` distributes over appending one full pair.
proof fn lemma_level_up_snoc2(x: Seq<Seq<u8>>, a: Seq<u8>, b: Seq<u8>)
    requires
        x.len() % 2 == 0,
    ensures
        level_up(x + seq![a, b]) == level_up(x).push(combine(a, b)),
    decreases x.len(),
{
    let y = x + seq![a, b];
    reveal_with_fuel(level_up, 4);
    if x.len() == 0 {
        assert(y.len() == 2);
        assert(y[0] == a && y[1] == b);
        assert(y.skip(2) =~= Seq::<Seq<u8>>::empty());
        assert(level_up(y) =~= level_up(x).push(combine(a, b)));
    } else {
        assert(x.len() >= 2);
        assert(y[0] == x[0] && y[1] == x[1]);
        assert(y.skip(2) =~= x.skip(2) + seq![a, b]);
        lemma_level_up_snoc2(x.skip(2), a, b);
        assert(level_up(y) =~= level_up(x).push(combine(a, b)));
    }
}

/// `level_up` pairs an odd last element with itself.
proof fn lemma_level_up_snoc1(x: Seq<Seq<u8>>, a: Seq<u8>)
    requires
        x.len() % 2 == 0,
    ensures
        level_up(x + seq![a]) == level_up(x).push(combine(a, a)),
    decreases x.len(),
{
    let y = x + seq![a];
    reveal_with_fuel(level_up, 4);
    if x.len() == 0 {
        assert(y.len() == 1);
        assert(y[0] == a);
        assert(level_up(y) =~= level_up(x).push(combine(a, a)));
    } else {
        assert(y[0] == x[0] && y[1] == x[1]);
        assert(y.skip(2) =~= x.skip(2) + seq![a]);
        lemma_level_up_snoc1(x.skip(2), a);
        assert(level_up(y) =~= level_up(x).push(combine(a, a)));
    }
}

/// One folding pass over a vector of hashes.
fn fold_level(level: &Vec<H256>) -> (r: Vec<H256>)
    requires
        level@.len() >= 2,
    ensures
        r@.map_values(|h: H256| h@)
            == level_up(level@.map_values(|h: H256| h@)),
{
    let ghost lv = level@.map_values(|h: H256| h@);
    let mut next: Vec<H256> = Vec::new();
    let mut i: usize = 0;
    while i + 1 < level.len()
        invariant
            0 <= i <= level@.len(),
            i % 2 == 0,
            next@.map_values(|h: H256| h@)
                == level_up(level@.subrange(0, i as int).map_values(|h: H256| h@)),
            lv == level@.map_values(|h: H256| h@),
        decreases level@.len() - i,
    {
        let c = combine_hashes(&level[i], &level[i + 1]);
        proof {
            let pre = level@.subrange(0, i as int).map_values(|h: H256| h@);
            let pre2 = level@.subrange(0, i + 2).map_values(|h: H256| h@);
            assert(pre2 =~= pre + seq![level@[i as int]@, level@[i + 1]@]);
            assert(pre.len() % 2 == 0);
            lemma_level_up_snoc2(pre, level@[i as int]@, level@[i + 1]@);
            assert(next@.push(c).map_values(|h: H256| h@)
                =~= next@.map_values(|h: H256| h@).push(c@));
        }
        next.push(c);
        i = i + 2;
    }
    if i < level.len() {
        // odd element out: pair the last hash with itself
        let c = combine_hashes(&level[i], &level[i]);
        proof {
            let pre = level@.subrange(0, i as int).map_values(|h: H256| h@);
            let pre2 = level@.subrange(0, i + 1).map_values(|h: H256| h@);
            assert(pre2 =~= pre + seq![level@[i as int]@]);
            lemma_level_up_snoc1(pre, level@[i as int]@);
            assert(next@.push(c).map_values(|h: H256| h@)
                =~= next@.map_values(|h: H256| h@).push(c@));
        }
        next.push(c);
        i = i + 1;
    }
    proof {
        assert(level@.subrange(0, level@.len() as int) =~= level@);
    }
    next
}

/// Fold a non-empty vector of leaf hashes down to the root.
pub fn merkle_root_hashes(leaves: Vec<H256>) -> (r: H256)
    requires
        leaves@.len() >= 1,
    ensures
        r@ == root_of(leaves@.map_values(|h: H256| h@)),
{
    let mut level = leaves;
    let ghost target = root_of(level@.map_values(|h: H256| h@));
    while level.len() > 1
        invariant
            level@.len() >= 1,
            root_of(level@.map_values(|h: H256| h@)) == target,
        decreases level@.len(),
    {
        proof {
            lemma_level_up_len(level@.map_values(|h: H256| h@));
        }
        let next = fold_level(&level);
        level = next;
    }
    let root = H256::from_array(level[0].to_bytes());
    proof {
        assert(level@.map_values(|h: H256| h@)[0] == level@[0]@);
    }
    root
}

impl MerkleTree {
    /// Commit to a sequence of transactions.
    pub fn new(transactions: &Vec<Transaction>) -> (r: MerkleTree)
        requires
            forall|i: int| 0 <= i < transactions@.len()
                ==> (#[trigger] transactions@[i]).wf(),
        ensures
            r.spec_root() == merkle_root_spec(transactions@),
    {
        if transactions.len() == 0 {
            proof {
                assert(leaf_hashes(transactions@) =~= Seq::<Seq<u8>>::empty());
            }
            return MerkleTree { root: H256::default() };
        }
        let mut level: Vec<H256> = Vec::new();
        let mut i: usize = 0;
        while i < transactions.len()
            invariant
                0 <= i <= transactions@.len(),
                forall|k: int| 0 <= k < transactions@.len()
                    ==> (#[trigger] transactions@[k]).wf(),
                level@.map_values(|h: H256| h@)
                    == leaf_hashes(transactions@.subrange(0, i as int)),
            decreases transactions@.len() - i,
        {
            let h = transactions[i].hash();
            let hc = H256::from_array(h.to_bytes());
            proof {
                assert(level@.push(hc).map_values(|h2: H256| h2@)
                    =~= level@.map_values(|h2: H256| h2@).push(hc@));
                assert(leaf_hashes(transactions@.subrange(0, i + 1))
                    =~= leaf_hashes(transactions@.subrange(0, i as int))
                        .push(transactions@[i as int].id_hash()));
            }
            level.push(hc);
            i = i + 1;
        }
        proof {
            assert(transactions@.subrange(0, transactions@.len() as int)
                =~= transactions@);
        }
        let root = merkle_root_hashes(level);
        MerkleTree { root }
    }

    /// The committed root.
    pub fn get_root(&self) -> (r: H256)
        ensures
            r@ == self.spec_root(),
    {
        H256::from_array(self.root.to_bytes())
    }
}

/// The odd-leaf rule, for three transactions: the root pairs the third
/// leaf with itself at the last combination step.
pub proof fn lemma_merkle_three_leaves(txs: Seq<Transaction>)
    requires
        txs.len() == 3,
    ensures
        merkle_root_spec(txs) == combine(
            combine(txs[0].id_hash(), txs[1].id_hash()),
            combine(txs[2].id_hash(), txs[2].id_hash()),
        ),
{
    reveal_with_fuel(level_up, 4);
    reveal_with_fuel(root_of, 4);
    let leaves = leaf_hashes(txs);
    let h0 = txs[0].id_hash();
    let h1 = txs[1].id_hash();
    let h2 = txs[2].id_hash();
    assert(leaves.len() == 3);
    assert(leaves[0] == h0 && leaves[1] == h1 && leaves[2] == h2);
    let l1 = level_up(leaves);
    assert(leaves.skip(2) =~= seq![h2]);
    assert(l1 =~= seq![combine(h0, h1), combine(h2, h2)]);
    let l2 = level_up(l1);
    assert(l1.skip(2) =~= Seq::<Seq<u8>>::empty());
    assert(l2 =~= seq![combine(combine(h0, h1), combine(h2, h2))]);
    assert(root_of(leaves) == root_of(l1));
    assert(root_of(l1) == root_of(l2));
    assert(root_of(l2) == l2[0]);
}

} // verus!
