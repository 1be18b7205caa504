//! Mining: build a candidate block on the chain tip and search for a
//! (nonce, geometric-proof-address) pair that satisfies the work target.

use vstd::prelude::*;
use crate::block::{Block, BlockHeader, block_hash_spec, enc_header, encode_header};
use crate::blockchain::{Blockchain, chain_regions, find_nonce, all_nonces_fail};
use crate::codec::{enc_bytes, enc_i64, enc_u64};
use crate::consensus::meets_pow;
use crate::fractal::TriangleState;
use crate::geometry::point_wf_check;
use crate::hash::{H256, blake3_hash, blake3_of};
use crate::merkle::{MerkleTree, merkle_root_spec};
use crate::transaction::{Transaction, region_depth, region_match, regions_match};
use crate::triangle::{Triangle, is_nondegenerate};

verus! {

/// A region on which `FractalTriangle::subdivide` succeeds: an Active,
/// well-formed, non-degenerate triangle with scale headroom, below the
/// depth ceiling.
pub open spec fn subdividable(rg: (Triangle, TriangleState, Seq<u8>)) -> bool {
    &&& rg.0.wf()
    &&& region_depth(rg.2) < u32::MAX
    &&& rg.1 == TriangleState::Active
    &&& is_nondegenerate(rg.0)
    &&& rg.0.has_headroom()
}

/// The child addresses the geometric search tries below one region.
pub open spec fn region_cands(rg: (Triangle, TriangleState, Seq<u8>)) -> Seq<Seq<u8>> {
    if subdividable(rg) {
        seq![rg.2.push(0u8), rg.2.push(1u8), rg.2.push(2u8)]
    } else {
        Seq::empty()
    }
}

/// Every candidate geometric-proof address over a region sequence, in
/// search order.
pub open spec fn cand_addrs(rs: Seq<(Triangle, TriangleState, Seq<u8>)>) -> Seq<Seq<u8>>
    decreases rs.len(),
{
    if rs.len() == 0 {
        Seq::empty()
    } else {
        region_cands(rs[0]) + cand_addrs(rs.drop_first())
    }
}

/// Candidate addresses distribute over concatenation.
pub proof fn lemma_cand_addrs_concat(
    a: Seq<(Triangle, TriangleState, Seq<u8>)>,
    b: Seq<(Triangle, TriangleState, Seq<u8>)>,
)
    ensures
        cand_addrs(a + b) == cand_addrs(a) + cand_addrs(b),
    decreases a.len(),
{
    if a.len() == 0 {
        assert(a + b =~= b);
        assert(cand_addrs(a) + cand_addrs(b) =~= cand_addrs(b));
    } else {
        assert((a + b).drop_first() =~= a.drop_first() + b);
        assert((a + b)[0] == a[0]);
        lemma_cand_addrs_concat(a.drop_first(), b);
        assert(region_cands(a[0]) + (cand_addrs(a.drop_first()) + cand_addrs(b))
            =~= (region_cands(a[0]) + cand_addrs(a.drop_first())) + cand_addrs(b));
    }
}

/// Extending a prefix by one region appends that region's candidates.
pub proof fn lemma_cand_addrs_snoc(rs: Seq<(Triangle, TriangleState, Seq<u8>)>, i: int)
    requires
        0 <= i < rs.len(),
    ensures
        cand_addrs(rs.subrange(0, i + 1))
            == cand_addrs(rs.subrange(0, i)) + region_cands(rs[i]),
{
    let pre = rs.subrange(0, i);
    let one = seq![rs[i]];
    assert(rs.subrange(0, i + 1) =~= pre + one);
    lemma_cand_addrs_concat(pre, one);
    assert(one.drop_first() =~= Seq::<(Triangle, TriangleState, Seq<u8>)>::empty());
    assert(one[0] == rs[i]);
    assert(cand_addrs(one) == region_cands(one[0]) + cand_addrs(one.drop_first()));
    assert(cand_addrs(one.drop_first()) =~~= Seq::<Seq<u8>>::empty());
    assert(cand_addrs(one) =~~= region_cands(rs[i]));
}

/// The candidates of a whole region sequence split at any position.
pub proof fn lemma_cand_addrs_split(rs: Seq<(Triangle, TriangleState, Seq<u8>)>, i: int)
    requires
        0 <= i < rs.len(),
    ensures
        cand_addrs(rs) == cand_addrs(rs.subrange(0, i)) + region_cands(rs[i])
            + cand_addrs(rs.subrange(i + 1, rs.len() as int)),
{
    assert(rs =~= rs.subrange(0, i + 1) + rs.subrange(i + 1, rs.len() as int));
    lemma_cand_addrs_concat(rs.subrange(0, i + 1), rs.subrange(i + 1, rs.len() as int));
    lemma_cand_addrs_snoc(rs, i);
}

/// The running nonce the search uses for the `j`-th candidate: the try
/// count, wrapped to 64 bits.
pub open spec fn nonce_at(j: int) -> u64 {
    (j % 0x10000000000000000) as u64
}

/// The canonical header bytes of `h0` with nonce `n` and geometric-proof
/// address `addr`: what any header variant agreeing with these values
/// hashes over.
pub open spec fn geo_header_bytes(h0: BlockHeader, n: u64, addr: Seq<u8>) -> Seq<u8> {
    h0.previous_hash@ + (h0.merkle_root@ + (enc_i64(h0.timestamp) + (enc_u64(n)
        + (enc_u64(h0.difficulty) + (enc_u64(h0.height) + enc_bytes(addr))))))
}

/// A header whose fields agree with the variant hashes over exactly the
/// variant's bytes.
pub proof fn lemma_geo_variant_bytes(h0: BlockHeader, h: BlockHeader, n: u64, addr: Seq<u8>)
    requires
        h.previous_hash@ == h0.previous_hash@,
        h.merkle_root@ == h0.merkle_root@,
        h.timestamp == h0.timestamp,
        h.nonce == n,
        h.difficulty == h0.difficulty,
        h.height == h0.height,
        h.geometric_proof@ == addr,
    ensures
        enc_header(h) == geo_header_bytes(h0, n, addr),
        block_hash_spec(h) == blake3_of(geo_header_bytes(h0, n, addr)),
{
    reveal(enc_header);
}

/// Every candidate header variant of `h0` — the `j`-th candidate address
/// with the `j`-th running nonce — fails the work predicate.
pub open spec fn all_geo_fail(h0: BlockHeader, cands: Seq<Seq<u8>>, d: u64) -> bool {
    forall|j: int| 0 <= j < cands.len() ==> !meets_pow(
        blake3_of(geo_header_bytes(h0, nonce_at(j), #[trigger] cands[j])), d)
}

/// The kinds of mining hardware the system knows about.
pub enum Hardware {
    Cpu,
    Gpu,
    Fpga,
}

/// Probe the machine for usable mining hardware.
pub fn detect_hardware() -> (r: Vec<Hardware>)
    ensures
        r@.len() == 1,
        r@[0] is Cpu,
{
    let mut v: Vec<Hardware> = Vec::new();
    v.push(Hardware::Cpu);
    v
}

/// The hardware a configuration selects.
#[derive(Debug, Clone, Copy)]
pub enum HardwareSelection {
    Cpu,
    Gpu,
}

/// Mining configuration, as read from the configuration surface.
#[derive(Debug, Clone, Copy)]
pub struct MiningConfig {
    pub difficulty_target: u64,
    pub target_triangle_depth: u32,
    pub mining_reward: u64,
    pub hardware: HardwareSelection,
}

/// A handle on a mining accelerator; none is ever detected here.
pub struct GpuContext {}

impl GpuContext {
    pub fn new() -> (r: Option<GpuContext>)
        ensures
            r is None,
    {
        None
    }
}

/// A share of work submitted to a mining pool.
pub struct Share {}

/// The coordinating side of a mining pool.
pub struct PoolServer {}

impl PoolServer {
    pub fn new() -> PoolServer {
        PoolServer {}
    }
}

/// The worker side of a mining pool.
pub struct PoolClient {}

impl PoolClient {
    pub fn new() -> PoolClient {
        PoolClient {}
    }
}

/// Builds candidate blocks on the chain tip and searches for proofs.
pub struct Miner {
    config: MiningConfig,
    blockchain: Blockchain,
}

impl Miner {
    pub closed spec fn spec_config(self) -> MiningConfig {
        self.config
    }

    pub closed spec fn spec_blockchain(self) -> Blockchain {
        self.blockchain
    }

    pub fn new(config: MiningConfig, blockchain: Blockchain) -> (r: Miner)
        ensures
            r.spec_config() == config,
            r.spec_blockchain() == blockchain,
    {
        Miner { config, blockchain }
    }

    /// Mine one block on the current tip: first search for a geometric
    /// proof (a nonce together with a fresh subdivision address), then
    /// fall back to the plain header-nonce search.  The result extends
    /// the tip; either its geometric-proof field carries one of the
    /// candidate child addresses and meets the work target, or every
    /// candidate variant failed, the proof field is the root address,
    /// and the plain nonce search ran (meeting the target unless the
    /// whole nonce space fails).
    pub fn mine(&mut self) -> (r: Block)
        requires
            old(self).spec_blockchain().wf(),
            old(self).spec_config().difficulty_target >= 1,
        ensures
            final(self).spec_blockchain() == old(self).spec_blockchain(),
            final(self).spec_config() == old(self).spec_config(),
            r.header.previous_hash@ == block_hash_spec(
                old(self).spec_blockchain().spec_blocks().last().header),
            r.header.height
                == old(self).spec_blockchain().spec_blocks().last().header.height + 1,
            r.header.difficulty == old(self).spec_blockchain().spec_difficulty(),
            r.triangle_transactions@.len() == 0,
            r.header.merkle_root@ == merkle_root_spec(Seq::<Transaction>::empty()),
            meets_pow(block_hash_spec(r.header), old(self).spec_config().difficulty_target)
                || all_nonces_fail(r.header, old(self).spec_config().difficulty_target),
            ({
                let cands = cand_addrs(chain_regions(
                    old(self).spec_blockchain().spec_blocks()));
                let d = old(self).spec_config().difficulty_target;
                ||| (exists|j: int| 0 <= j < cands.len()
                        && r.header.nonce == #[trigger] nonce_at(j)
                        && r.header.geometric_proof@ == cands[j])
                    && meets_pow(block_hash_spec(r.header), d)
                ||| all_geo_fail(r.header, cands, d)
                    && r.header.geometric_proof@ == Seq::<u8>::empty()
            }),
    {
        let candidate_block = self.generate_candidate_block();
        let ghost cand = candidate_block;
        let (mut candidate_block, found) = self.find_geometric_proof(candidate_block);
        if !found {
            proof {
                assert(candidate_block == cand);
            }
            find_nonce(&mut candidate_block, self.config.difficulty_target);
            proof {
                let d = self.spec_config().difficulty_target;
                if all_nonces_fail(cand.header, d) {
                    assert forall|n: u64| !meets_pow(block_hash_spec(
                        crate::blockchain::with_nonce(candidate_block.header, n)), d) by {
                        assert(crate::blockchain::with_nonce(candidate_block.header, n)
                            == crate::blockchain::with_nonce(cand.header, n));
                    }
                }
                let cands = cand_addrs(chain_regions(
                    self.spec_blockchain().spec_blocks()));
                assert forall|j: int| 0 <= j < cands.len() implies !meets_pow(
                    blake3_of(geo_header_bytes(candidate_block.header, nonce_at(j),
                        #[trigger] cands[j])), d) by {
                    assert(geo_header_bytes(candidate_block.header, nonce_at(j),
                        cands[j]) == geo_header_bytes(cand.header, nonce_at(j),
                        cands[j]));
                }
            }
        }
        candidate_block
    }

    /// An empty candidate on the tip: no transactions, the tip's hash as
    /// previous hash, the next height, the chain's difficulty.
    #[verifier::rlimit(100)]
    #[verifier::spinoff_prover]
    fn generate_candidate_block(&self) -> (r: Block)
        requires
            self.spec_blockchain().wf(),
        ensures
            r.header.previous_hash@ == block_hash_spec(
                self.spec_blockchain().spec_blocks().last().header),
            r.header.height
                == self.spec_blockchain().spec_blocks().last().header.height + 1,
            r.header.difficulty == self.spec_blockchain().spec_difficulty(),
            r.triangle_transactions@.len() == 0,
            r.header.merkle_root@ == merkle_root_spec(Seq::<Transaction>::empty()),
            r.header.geometric_proof@ == Seq::<u8>::empty(),
    {
        let triangle_transactions: Vec<Transaction> = Vec::new();
        proof {
            assert(triangle_transactions@ =~= Seq::<Transaction>::empty());
        }
        let merkle_root = empty_merkle_root();
        let (last_hash, last_height) = self.tip_info();
        let height = last_height + 1;
        Block::new(
            last_hash,
            merkle_root,
            self.blockchain.get_difficulty(),
            height,
            triangle_transactions,
        )
    }

    }

impl Miner {
    /// The tip's hash and height.
    fn tip_info(&self) -> (r: (H256, u64))
        requires
            self.spec_blockchain().wf(),
        ensures
            r.0@ == block_hash_spec(
                self.spec_blockchain().spec_blocks().last().header),
            r.1 == self.spec_blockchain().spec_blocks().last().header.height,
            r.1 < u64::MAX,
    {
        let last_block = self.blockchain.latest_block();
        proof {
            let n = self.spec_blockchain().spec_blocks().len();
            assert(self.spec_blockchain().spec_blocks()[n - 1].header.height == n - 1);
        }
        let h = last_block.hash();
        (h, last_block.header.height)
    }
}

/// The merkle commitment of the empty transaction sequence: the zero hash.
fn empty_merkle_root() -> (r: H256)
    ensures
        r@ == merkle_root_spec(Seq::<Transaction>::empty()),
{
    let v: Vec<Transaction> = Vec::new();
    proof {
        assert(v@ =~= Seq::<Transaction>::empty());
    }
    MerkleTree::new(&v).get_root()
}

impl Miner {
    /// Enumerate the chain's subdividable regions; for every child address
    /// of every fresh subdivision, try header variants carrying that
    /// address and a running nonce until the work target is met.  Returns
    /// the block (solved or untouched) and whether a proof was found: on
    /// success the header is the given one with the winning nonce and
    /// candidate address, on failure every candidate variant misses the
    /// target.
    fn find_geometric_proof(&self, block: Block) -> (r: (Block, bool))
        requires
            self.spec_blockchain().wf(),
            self.spec_config().difficulty_target >= 1,
        ensures
            r.1 ==> meets_pow(block_hash_spec(r.0.header),
                self.spec_config().difficulty_target),
            r.0.header.previous_hash@ == block.header.previous_hash@,
            r.0.header.merkle_root@ == block.header.merkle_root@,
            r.0.header.timestamp == block.header.timestamp,
            r.0.header.difficulty == block.header.difficulty,
            r.0.header.height == block.header.height,
            r.0.triangle_transactions == block.triangle_transactions,
            !r.1 ==> r.0 == block,
            !r.1 ==> all_geo_fail(block.header,
                cand_addrs(chain_regions(self.spec_blockchain().spec_blocks())),
                self.spec_config().difficulty_target),
            r.1 ==> exists|j: int| {
                let cands = cand_addrs(chain_regions(
                    self.spec_blockchain().spec_blocks()));
                &&& 0 <= j < cands.len()
                &&& r.0.header.nonce == #[trigger] nonce_at(j)
                &&& r.0.header.geometric_proof@ == cands[j]
            },
    {
        let difficulty = self.config.difficulty_target;
        let mut nonce: u64 = 0;
        let mut active_triangles = self.blockchain.get_active_triangles();
        let ghost regs = chain_regions(self.spec_blockchain().spec_blocks());
        let ghost fts0 = active_triangles@;
        proof {
            assert(regs.subrange(0, 0) =~= Seq::<(Triangle, TriangleState, Seq<u8>)>::empty());
            assert(fts0.subrange(0, fts0.len() as int) =~= fts0);
        }

        while active_triangles.len() > 0
            invariant
                difficulty >= 1,
                difficulty == self.spec_config().difficulty_target,
                regs == chain_regions(self.spec_blockchain().spec_blocks()),
                regions_match(fts0, regs),
                active_triangles@.len() <= fts0.len(),
                active_triangles@ == fts0.subrange(
                    fts0.len() - active_triangles@.len(), fts0.len() as int),
                nonce == nonce_at(cand_addrs(regs.subrange(0,
                    regs.len() - active_triangles@.len())).len() as int),
                all_geo_fail(block.header, cand_addrs(regs.subrange(0,
                    regs.len() - active_triangles@.len())), difficulty),
            decreases active_triangles@.len(),
        {
            let ghost done = regs.len() - active_triangles@.len();
            let ghost prefix = regs.subrange(0, done as int);
            let mut fractal_triangle = active_triangles.remove(0);
            proof {
                assert(fractal_triangle == fts0[done as int]);
                assert(region_match(fts0[done as int], regs[done as int]));
                assert(active_triangles@ =~= fts0.subrange(
                    fts0.len() - active_triangles@.len(), fts0.len() as int));
                lemma_cand_addrs_snoc(regs, done as int);
            }
            if !(point_wf_check(&fractal_triangle.triangle.a)
                && point_wf_check(&fractal_triangle.triangle.b)
                && point_wf_check(&fractal_triangle.triangle.c))
                || fractal_triangle.depth == u32::MAX {
                proof {
                    assert(!subdividable(regs[done as int]));
                    assert(cand_addrs(regs.subrange(0, done + 1))
                        =~= cand_addrs(prefix));
                }
                continue;
            }
            let ghost ft_pre = fractal_triangle;
            let children = match fractal_triangle.subdivide() {
                Ok(c) => c,
                Err(_) => {
                    proof {
                        assert(!subdividable(regs[done as int]));
                        assert(cand_addrs(regs.subrange(0, done + 1))
                            =~= cand_addrs(prefix));
                    }
                    continue;
                },
            };
            proof {
                assert(subdividable(regs[done as int]));
                assert forall|m: int| 0 <= m < 3
                    implies (#[trigger] children@[m]).address@
                        == region_cands(regs[done as int])[m] by {
                    assert(children@[m].address@ == ft_pre.address@.push(m as u8));
                }
            }
            let ghost base = cand_addrs(prefix).len();
            let mut k: usize = 0;
            while k < children.len()
                invariant
                    0 <= k <= 3,
                    children@.len() == 3,
                    difficulty >= 1,
                    difficulty == self.spec_config().difficulty_target,
                    0 <= done < regs.len(),
                    regs == chain_regions(self.spec_blockchain().spec_blocks()),
                    prefix == regs.subrange(0, done as int),
                    base == cand_addrs(prefix).len(),
                    subdividable(regs[done as int]),
                    forall|m: int| 0 <= m < 3 ==> (#[trigger] children@[m]).address@
                        == region_cands(regs[done as int])[m],
                    region_cands(regs[done as int]).len() == 3,
                    nonce == nonce_at(base + k),
                    all_geo_fail(block.header, cand_addrs(prefix)
                        + region_cands(regs[done as int]).subrange(0, k as int),
                        difficulty),
                decreases children@.len() - k,
            {
                let child = &children[k];
                let header_variant = BlockHeader {
                    previous_hash: block.header.previous_hash,
                    merkle_root: block.header.merkle_root,
                    timestamp: block.header.timestamp,
                    nonce,
                    difficulty: block.header.difficulty,
                    height: block.header.height,
                    geometric_proof: child.address.duplicate(),
                };
                let header_bytes = encode_header(&header_variant);
                let hash = H256::from_array(blake3_hash(header_bytes.as_slice()));
                proof {
                    lemma_geo_variant_bytes(block.header, header_variant,
                        nonce, child.address@);
                }
                if validate_geometric_work(&hash, difficulty) {
                    let solved = Block {
                        header: header_variant,
                        triangle_transactions: block.triangle_transactions,
                    };
                    proof {
                        assert(hash@ == block_hash_spec(solved.header));
                        lemma_cand_addrs_split(regs, done as int);
                        let j = base + k;
                        assert(cand_addrs(regs)[j]
                            == region_cands(regs[done as int])[k as int]);
                        assert(solved.header.geometric_proof@ == cand_addrs(regs)[j]);
                        assert(solved.header.nonce == nonce_at(j));
                        assert(j < cand_addrs(regs).len());
                    }
                    return (solved, true);
                }
                proof {
                    let j = base + k;
                    assert(!meets_pow(blake3_of(geo_header_bytes(
                        block.header, nonce_at(j), child.address@)), difficulty));
                    let ext = cand_addrs(prefix)
                        + region_cands(regs[done as int]).subrange(0, k + 1);
                    assert(ext =~= (cand_addrs(prefix)
                        + region_cands(regs[done as int]).subrange(0, k as int))
                        .push(child.address@));
                    assert forall|j2: int| 0 <= j2 < ext.len() implies !meets_pow(
                        blake3_of(geo_header_bytes(block.header, nonce_at(j2),
                            #[trigger] ext[j2])), difficulty) by {
                        if j2 < ext.len() - 1 {
                            let pre_ext = cand_addrs(prefix)
                                + region_cands(regs[done as int]).subrange(0, k as int);
                            assert(ext[j2] == pre_ext[j2]);
                        } else {
                            assert(ext[j2] == child.address@);
                            assert(j2 == j);
                        }
                    }
                    assert((base + k + 1) % 0x10000000000000000
                        == ((base + k) % 0x10000000000000000 + 1)
                            % 0x10000000000000000) by {
                        vstd::arithmetic::div_mod::lemma_add_mod_noop(
                            base + k, 1, 0x10000000000000000);
                        vstd::arithmetic::div_mod::lemma_mod_twice(
                            base + k, 0x10000000000000000);
                        vstd::arithmetic::div_mod::lemma_add_mod_noop(
                            (base + k) % 0x10000000000000000, 1, 0x10000000000000000);
                        vstd::arithmetic::div_mod::lemma_small_mod(1nat,
                            0x10000000000000000nat);
                    }
                }
                nonce = nonce.wrapping_add(1);
                k = k + 1;
            }
            proof {
                assert(region_cands(regs[done as int]).subrange(0, 3)
                    =~= region_cands(regs[done as int]));
                lemma_cand_addrs_snoc(regs, done as int);
            }
        }
        proof {
            assert(regs.subrange(0, regs.len() as int) =~= regs);
        }
        (block, false)
    }
}

/// The work predicate on a raw hash value.
fn validate_geometric_work(hash: &H256, difficulty: u64) -> (r: bool)
    requires
        difficulty >= 1,
    ensures
        r == meets_pow(hash@, difficulty),
{
    let hash_value = crate::consensus::hash_low64(hash);
    hash_value < u64::MAX / difficulty
}

} // verus!
