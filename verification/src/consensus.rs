//! Pure consensus rules: the work predicate, block validation, the
//! subdivision area check, and the difficulty retarget.

use vstd::prelude::*;
use crate::block::{Block, block_hash_spec};
use crate::blockchain::Blockchain;
use crate::codec::{from_le, p256, lemma_from_le_bound, lemma_p256_8};
use crate::hash::H256;
use crate::merkle::{merkle_root_spec, merkle_root_hashes};
use crate::transaction::{Transaction, ed25519_valid, enc_operation};
use crate::triangle::{Triangle, area_mantissa};

verus! {

/// Every ten blocks the elapsed time is compared against this many seconds.
pub const EXPECTED_INTERVAL: i64 = 600;

/// Difficulty is clamped to this ceiling (`u64::MAX / 1000`).
pub const DIFFICULTY_CEILING: u64 = 18446744073709551;

/// Blocks between retarget evaluations.
pub const RETARGET_INTERVAL: u64 = 10;

/// The low 8 bytes of a hash, read as a little-endian 64-bit number.
pub open spec fn low64(h: Seq<u8>) -> nat {
    from_le(h.subrange(0, 8))
}

/// The acceptance threshold for a difficulty.
pub open spec fn pow_target(difficulty: u64) -> int {
    u64::MAX as int / difficulty as int
}

/// The work predicate: the hash's low 64 bits fall under the target.
pub open spec fn meets_pow(h: Seq<u8>, difficulty: u64) -> bool {
    low64(h) < pow_target(difficulty)
}

/// Read the low 8 bytes of a hash as a little-endian 64-bit number.
pub fn hash_low64(h: &H256) -> (r: u64)
    ensures
        r as nat == low64(h@),
{
    proof {
        crate::hash::lemma_h256_len(*h);
    }
    let ghost lo = h@.subrange(0, 8);
    let mut v: u64 = 0;
    let mut i: usize = 8;
    while i > 0
        invariant
            0 <= i <= 8,
            lo == h@.subrange(0, 8),
            h@.len() == 32,
            v as nat == from_le(lo.subrange(i as int, 8)),
        decreases i,
    {
        proof {
            lemma_from_le_bound(lo.subrange(i as int, 8));
            assert(p256((8 - i) as nat) <= p256(7)) by {
                if i >= 1 {
                    vstd::arithmetic::power::lemma_pow_increases(
                        256, (8 - i) as nat, 7);
                }
            }
            assert(p256(7) == 0x100000000000000) by {
                lemma_p256_8();
                vstd::arithmetic::power::lemma_pow1(256);
                vstd::arithmetic::power::lemma_pow_adds(256, 7, 1nat);
            }
            let next = lo.subrange(i - 1, 8);
            assert(next.drop_first() =~= lo.subrange(i as int, 8));
            assert(next[0] == lo[i - 1]);
            assert(lo[i - 1] == h@[i - 1]);
        }
        i = i - 1;
        v = v * 256 + (h.byte_at(i) as u64);
    }
    proof {
        assert(lo.subrange(0, 8) =~= lo);
    }
    v
}

/// The work predicate for a block under the given difficulty.
pub fn is_valid_proof_of_work(block: &Block, difficulty: u64) -> (r: bool)
    requires
        difficulty >= 1,
    ensures
        r == meets_pow(block_hash_spec(block.header), difficulty),
{
    let target = u64::MAX / difficulty;
    let h = block.hash();
    let hash_value = hash_low64(&h);
    hash_value < target
}

/// Lowering the difficulty never shrinks the accepting range: a hash
/// accepted at difficulty `d1` is accepted at any difficulty `d2 <= d1`.
pub proof fn lemma_pow_monotonic(h: Seq<u8>, d1: u64, d2: u64)
    requires
        1 <= d2 <= d1,
        meets_pow(h, d1),
    ensures
        meets_pow(h, d2),
{
    vstd::arithmetic::div_mod::lemma_div_is_ordered_by_denominator(
        u64::MAX as int, d2 as int, d1 as int);
}

/// Strictly decreasing the difficulty strictly enlarges the accepting
/// range, for difficulties up to 2^32 (for larger ones two consecutive
/// targets can round to the same value).
pub proof fn lemma_pow_target_strict(d1: u64, d2: u64)
    requires
        1 <= d2 < d1,
        d1 <= 0x100000000,
    ensures
        pow_target(d2) > pow_target(d1),
{
    let m = u64::MAX as int;
    let q1 = m / d1 as int;
    vstd::arithmetic::div_mod::lemma_fundamental_div_mod(m, d1 as int);
    vstd::arithmetic::div_mod::lemma_div_pos_is_pos(m, d1 as int);
    // q1 >= m / 2^32 = 2^32 - 1 >= d2
    vstd::arithmetic::div_mod::lemma_div_is_ordered_by_denominator(
        m, d1 as int, 0x100000000);
    assert(m / 0x100000000 == 0xffffffff) by {
        vstd::arithmetic::div_mod::lemma_fundamental_div_mod_converse(
            m, 0x100000000, 0xffffffff, 0xffffffff);
    }
    // m >= d2 * (q1 + 1)
    let r1 = m - d1 as int * q1;
    assert(d2 as int * (q1 + 1) <= m) by (nonlinear_arith)
        requires
            m == d1 as int * q1 + r1,
            0 <= r1,
            1 <= d2 < d1,
            d2 <= 0xffffffff,
            q1 >= 0xffffffff;
    assert(m / d2 as int >= q1 + 1) by {
        vstd::arithmetic::div_mod::lemma_div_is_ordered(
            d2 as int * (q1 + 1), m, d2 as int);
        vstd::arithmetic::div_mod::lemma_div_multiples_vanish(q1 + 1, d2 as int);
        assert(d2 as int * (q1 + 1) == (q1 + 1) * d2 as int) by (nonlinear_arith);
    }
}

/// What one retarget evaluation does to the difficulty: double it if the
/// interval ran at least twice as fast as expected, halve it if at least
/// twice as slow, else keep it; clamp to `[1, u64::MAX / 1000]`.
pub open spec fn retarget_spec(d: u64, time_taken: int) -> u64 {
    let raw: int = if time_taken < EXPECTED_INTERVAL as int / 2 {
        2 * d as int
    } else if time_taken > 2 * EXPECTED_INTERVAL as int {
        d as int / 2
    } else {
        d as int
    };
    if raw < 1 {
        1u64
    } else if raw > DIFFICULTY_CEILING as int {
        DIFFICULTY_CEILING
    } else {
        raw as u64
    }
}

/// After a retarget the difficulty always lies in `[1, u64::MAX/1000]`;
/// an interval twice as fast as the target doubles the difficulty, one
/// twice as slow halves it, and anything in between leaves it unchanged
/// (up to the clamp).
pub proof fn lemma_retarget_bounds(d: u64, time_taken: int)
    requires
        1 <= d <= DIFFICULTY_CEILING,
    ensures
        1 <= retarget_spec(d, time_taken) <= DIFFICULTY_CEILING,
        time_taken < EXPECTED_INTERVAL as int / 2 && 2 * d <= DIFFICULTY_CEILING
            ==> retarget_spec(d, time_taken) == 2 * d,
        time_taken > 2 * EXPECTED_INTERVAL as int
            ==> retarget_spec(d, time_taken) == if d / 2 >= 1 { d / 2 } else { 1u64 },
        EXPECTED_INTERVAL as int / 2 <= time_taken <= 2 * EXPECTED_INTERVAL as int
            ==> retarget_spec(d, time_taken) == d,
{
}

/// One retarget evaluation, executable.
pub fn retarget(d: u64, time_taken: i64) -> (r: u64)
    requires
        1 <= d <= DIFFICULTY_CEILING,
    ensures
        r == retarget_spec(d, time_taken as int),
        1 <= r <= DIFFICULTY_CEILING,
{
    let raw: u64 = if time_taken < EXPECTED_INTERVAL / 2 {
        2 * d
    } else if time_taken > 2 * EXPECTED_INTERVAL {
        d / 2
    } else {
        d
    };
    if raw < 1 {
        1
    } else if raw > DIFFICULTY_CEILING {
        DIFFICULTY_CEILING
    } else {
        raw
    }
}

/// What the standalone retarget returns: at a retarget height (a positive
/// multiple of the interval), the retargeted difficulty from the time the
/// last ten blocks took; elsewhere, the difficulty unchanged.
pub open spec fn adjust_difficulty_spec(chain: Blockchain) -> u64 {
    let blocks = chain.spec_blocks();
    let latest = blocks.last();
    if latest.header.height % RETARGET_INTERVAL == 0 && latest.header.height > 0 {
        retarget_spec(chain.spec_difficulty(), latest.header.timestamp
            - blocks[latest.header.height - RETARGET_INTERVAL].header.timestamp)
    } else {
        chain.spec_difficulty()
    }
}

/// Evaluate the difficulty retarget at the chain tip: every tenth block,
/// double the difficulty if the last ten blocks took less than half the
/// expected time, halve it if more than twice, clamp to
/// `[1, u64::MAX/1000]`; at any other height keep the current difficulty.
pub fn adjust_difficulty(blockchain: &Blockchain) -> (r: u64)
    requires
        blockchain.wf(),
    ensures
        r == adjust_difficulty_spec(*blockchain),
        1 <= r <= DIFFICULTY_CEILING,
{
    let latest_block = blockchain.latest_block();
    let height = latest_block.header.height;
    if height % RETARGET_INTERVAL != 0 || height == 0 {
        return blockchain.get_difficulty();
    }
    proof {
        let blocks = blockchain.spec_blocks();
        assert(blocks[blocks.len() - 1].header.height == blocks.len() - 1);
        assert(height - RETARGET_INTERVAL < blocks.len());
    }
    let previous_adjustment_block = match blockchain.get_block_by_height(
        height - RETARGET_INTERVAL) {
        Some(b) => b,
        None => {
            proof {
                assert(false);
            }
            return blockchain.get_difficulty();
        },
    };
    let wide: i128 = latest_block.header.timestamp as i128
        - previous_adjustment_block.header.timestamp as i128;
    let time_taken: i64 = if wide < i64::MIN as i128 {
        i64::MIN
    } else if wide > i64::MAX as i128 {
        i64::MAX
    } else {
        wide as i64
    };
    proof {
        lemma_clamp_keeps_retarget_choice(blockchain.spec_difficulty(), wide as int);
    }
    retarget(blockchain.get_difficulty(), time_taken)
}

/// Clamping a wide time difference into 64 bits never changes what the
/// retarget decides.
proof fn lemma_clamp_keeps_retarget_choice(d: u64, t: int)
    ensures
        retarget_spec(d, t) == retarget_spec(d,
            if t < i64::MIN as int { i64::MIN as int }
            else if t > i64::MAX as int { i64::MAX as int }
            else { t }),
{
}

/// The area check for one child of a subdivision: accept exactly when the
/// child's area is within 1e-9 of a quarter of the parent's.  Both areas
/// are mantissas at the fixed area scale, so the tolerance is `4e-9`
/// scaled up, compared against `|parent - 4 * child|`.
pub open spec fn subdivision_area_ok(parent: Triangle, child: Triangle) -> bool {
    -4000000000000000000000000 < area_mantissa(parent) - 4 * area_mantissa(child)
        < 4000000000000000000000000
}

/// The geometric acceptance rule for a subdivision: a necessary area-only
/// check (it does not verify the child's vertex positions).
pub fn validate_triangle_subdivision(parent: &Triangle, child: &Triangle) -> (r: bool)
    requires
        parent.wf(),
        child.wf(),
    ensures
        r == subdivision_area_ok(*parent, *child),
{
    let pa = parent.area();
    let ca = child.area();
    let diff = pa.m - 4 * ca.m;
    -4000000000000000000000000 < diff && diff < 4000000000000000000000000
}

/// The children made by the subdivision algorithm always pass the area
/// check: their areas are exactly a quarter of the parent's.
pub proof fn lemma_medial_children_pass_area_check(parent: Triangle, child: Triangle)
    requires
        area_mantissa(parent) == 4 * area_mantissa(child),
    ensures
        subdivision_area_ok(parent, child),
{
}

/// What `validate_block` accepts: the parent exists in the chain (looked
/// up by hash), the timestamp advances past the parent's, the work
/// predicate holds under the chain's current difficulty, the merkle root
/// matches the included transactions, and every transaction's signature
/// verifies.
pub open spec fn valid_block_spec(block: Block, chain: Blockchain) -> bool {
    let i = crate::blockchain::first_match(chain.spec_blocks(),
        block.header.previous_hash@);
    &&& i < chain.spec_blocks().len()
    &&& block.header.timestamp > chain.spec_blocks()[i].header.timestamp
    &&& meets_pow(block_hash_spec(block.header), chain.spec_difficulty())
    &&& block.header.merkle_root@ == merkle_root_spec(block.triangle_transactions@)
    &&& forall|i: int| 0 <= i < block.triangle_transactions@.len()
        ==> ed25519_valid(
            (#[trigger] block.triangle_transactions@[i]).public_key@,
            enc_operation(block.triangle_transactions@[i].operation),
            block.triangle_transactions@[i].signature@)
}

/// Validate a candidate block against the chain.  All checks must pass;
/// a failing block is rejected as a whole.
pub fn validate_block(block: &Block, blockchain: &Blockchain) -> (r: bool)
    requires
        blockchain.wf(),
    ensures
        r == valid_block_spec(*block, *blockchain),
{
    // 1. the previous block must exist
    let prev_block = match blockchain.get_block(&block.header.previous_hash) {
        Some(b) => b,
        None => {
            proof {
                assert(!valid_block_spec(*block, *blockchain));
            }
            return false;
        },
    };

    // 2. the timestamp must advance past the previous block's
    if block.header.timestamp <= prev_block.header.timestamp {
        return false;
    }

    // 3. proof-of-work under the chain's current difficulty
    if !is_valid_proof_of_work(block, blockchain.get_difficulty()) {
        return false;
    }

    // 4. the merkle root must match the included transactions
    let root = recompute_merkle_root(&block.triangle_transactions);
    let expected = H256::from_array(block.header.merkle_root.to_bytes());
    if !(root == expected) {
        return false;
    }

    // 5. every included transaction must validate on its own
    let mut i: usize = 0;
    while i < block.triangle_transactions.len()
        invariant
            0 <= i <= block.triangle_transactions@.len(),
            forall|k: int| 0 <= k < i ==> ed25519_valid(
                (#[trigger] block.triangle_transactions@[k]).public_key@,
                enc_operation(block.triangle_transactions@[k].operation),
                block.triangle_transactions@[k].signature@),
        decreases block.triangle_transactions@.len() - i,
    {
        if !block.triangle_transactions[i].validate() {
            return false;
        }
        i = i + 1;
    }

    true
}

/// Recompute the merkle root from the operation bytes alone, ignoring
/// the cached hashes.
fn recompute_merkle_root(transactions: &Vec<Transaction>) -> (r: H256)
    ensures
        r@ == merkle_root_spec(transactions@),
{
    if transactions.len() == 0 {
        proof {
            assert(crate::merkle::leaf_hashes(transactions@)
                =~= Seq::<Seq<u8>>::empty());
        }
        return H256::default();
    }
    let mut level: Vec<H256> = Vec::new();
    let mut i: usize = 0;
    while i < transactions.len()
        invariant
            0 <= i <= transactions@.len(),
            level@.map_values(|h: H256| h@)
                == crate::merkle::leaf_hashes(transactions@.subrange(0, i as int)),
        decreases transactions@.len() - i,
    {
        let hc = transactions[i].computed_hash();
        proof {
            assert(level@.push(hc).map_values(|h2: H256| h2@)
                =~= level@.map_values(|h2: H256| h2@).push(hc@));
            assert(crate::merkle::leaf_hashes(transactions@.subrange(0, i + 1))
                =~= crate::merkle::leaf_hashes(transactions@.subrange(0, i as int))
                    .push(transactions@[i as int].id_hash()));
        }
        level.push(hc);
        i = i + 1;
    }
    proof {
        assert(transactions@.subrange(0, transactions@.len() as int) =~= transactions@);
    }
    merkle_root_hashes(level)
}

} // verus!
