//! Blocks and their headers.
//!
//! A block's identity is the content hash of its serialized header alone;
//! the transactions are bound in through the merkle root.

use vstd::prelude::*;
use crate::address::TriangleAddress;
use crate::codec::{enc_bytes, enc_i64, enc_u64, push_address, push_i64, push_u64,
    lemma_le_bytes_len, lemma_enc_u64_inject, lemma_enc_i64_inject, lemma_concat_inject};
use crate::hash::{H256, blake3_of, blake3_hash};
use crate::transaction::Transaction;

verus! {

/// The committed part of a block.
#[derive(Debug, Clone)]
pub struct BlockHeader {
    pub previous_hash: H256,
    pub merkle_root: H256,
    /// Seconds since the epoch; must strictly exceed the previous block's.
    pub timestamp: i64,
    pub nonce: u64,
    /// The difficulty target in force when the block was made.
    pub difficulty: u64,
    /// One more than the previous block's height.
    pub height: u64,
    /// The address of the geometric proof accepted for this block.
    pub geometric_proof: TriangleAddress,
}

/// The canonical bytes of a header (grouped to the right so that each
/// field can be peeled off the front).
#[verifier::opaque]
pub open spec fn enc_header(h: BlockHeader) -> Seq<u8> {
    h.previous_hash@ + (h.merkle_root@ + (enc_i64(h.timestamp) + (enc_u64(h.nonce)
        + (enc_u64(h.difficulty) + (enc_u64(h.height)
        + enc_bytes(h.geometric_proof@))))))
}

/// A block's identity: the hash of its canonical header bytes.
pub open spec fn block_hash_spec(h: BlockHeader) -> Seq<u8> {
    blake3_of(enc_header(h))
}

/// The canonical bytes of a header.
pub fn encode_header(h: &BlockHeader) -> (r: Vec<u8>)
    ensures
        r@ == enc_header(*h),
{
    let mut out: Vec<u8> = Vec::new();
    push_hash_bytes(&mut out, &h.previous_hash);
    push_hash_bytes(&mut out, &h.merkle_root);
    push_i64(&mut out, h.timestamp);
    push_u64(&mut out, h.nonce);
    push_u64(&mut out, h.difficulty);
    push_u64(&mut out, h.height);
    push_address(&mut out, &h.geometric_proof);
    proof {
        reveal(enc_header);
        assert(out@ =~= enc_header(*h));
    }
    out
}

/// Append the 32 raw bytes of a hash.
fn push_hash_bytes(out: &mut Vec<u8>, h: &H256)
    ensures
        final(out)@ == old(out)@ + h@,
{
    let ghost base = old(out)@;
    let bytes = h.to_bytes();
    let mut i: usize = 0;
    while i < 32
        invariant
            0 <= i <= 32,
            bytes@.len() == 32,
            bytes@ == h@,
            out@ == base + bytes@.subrange(0, i as int),
        decreases 32 - i,
    {
        proof {
            assert((base + bytes@.subrange(0, i as int)).push(bytes@[i as int])
                =~= base + bytes@.subrange(0, i + 1));
        }
        out.push(bytes[i]);
        i = i + 1;
    }
    proof {
        assert(bytes@.subrange(0, 32) =~= bytes@);
    }
}

/// Distinct headers have distinct canonical bytes: every field of the
/// header can be read back from its encoding, so changing any field
/// (previous hash, merkle root, timestamp, nonce, difficulty, height or
/// geometric proof) changes the bytes that are hashed.
pub proof fn lemma_enc_header_injective(h1: BlockHeader, h2: BlockHeader)
    requires
        enc_header(h1) == enc_header(h2),
        h1.geometric_proof@.len() < 0x10000000000000000,
        h2.geometric_proof@.len() < 0x10000000000000000,
    ensures
        h1.previous_hash@ == h2.previous_hash@,
        h1.merkle_root@ == h2.merkle_root@,
        h1.timestamp == h2.timestamp,
        h1.nonce == h2.nonce,
        h1.difficulty == h2.difficulty,
        h1.height == h2.height,
        h1.geometric_proof@ == h2.geometric_proof@,
{
    reveal(enc_header);
    crate::hash::lemma_h256_len(h1.previous_hash);
    crate::hash::lemma_h256_len(h2.previous_hash);
    crate::hash::lemma_h256_len(h1.merkle_root);
    crate::hash::lemma_h256_len(h2.merkle_root);
    lemma_le_bytes_len(crate::codec::i64_bits(h1.timestamp), 8);
    lemma_le_bytes_len(crate::codec::i64_bits(h2.timestamp), 8);
    lemma_le_bytes_len(h1.nonce as nat, 8);
    lemma_le_bytes_len(h2.nonce as nat, 8);
    lemma_le_bytes_len(h1.difficulty as nat, 8);
    lemma_le_bytes_len(h2.difficulty as nat, 8);
    lemma_le_bytes_len(h1.height as nat, 8);
    lemma_le_bytes_len(h2.height as nat, 8);
    lemma_le_bytes_len(h1.geometric_proof@.len() as u64 as nat, 8);
    lemma_le_bytes_len(h2.geometric_proof@.len() as u64 as nat, 8);
    let r1a = h1.merkle_root@ + (enc_i64(h1.timestamp) + (enc_u64(h1.nonce)
        + (enc_u64(h1.difficulty) + (enc_u64(h1.height)
        + enc_bytes(h1.geometric_proof@)))));
    let r2a = h2.merkle_root@ + (enc_i64(h2.timestamp) + (enc_u64(h2.nonce)
        + (enc_u64(h2.difficulty) + (enc_u64(h2.height)
        + enc_bytes(h2.geometric_proof@)))));
    lemma_concat_inject(h1.previous_hash@, r1a, h2.previous_hash@, r2a);
    let r1b = enc_i64(h1.timestamp) + (enc_u64(h1.nonce)
        + (enc_u64(h1.difficulty) + (enc_u64(h1.height)
        + enc_bytes(h1.geometric_proof@))));
    let r2b = enc_i64(h2.timestamp) + (enc_u64(h2.nonce)
        + (enc_u64(h2.difficulty) + (enc_u64(h2.height)
        + enc_bytes(h2.geometric_proof@))));
    lemma_concat_inject(h1.merkle_root@, r1b, h2.merkle_root@, r2b);
    let r1c = enc_u64(h1.nonce) + (enc_u64(h1.difficulty) + (enc_u64(h1.height)
        + enc_bytes(h1.geometric_proof@)));
    let r2c = enc_u64(h2.nonce) + (enc_u64(h2.difficulty) + (enc_u64(h2.height)
        + enc_bytes(h2.geometric_proof@)));
    lemma_concat_inject(enc_i64(h1.timestamp), r1c, enc_i64(h2.timestamp), r2c);
    lemma_enc_i64_inject(h1.timestamp, h2.timestamp);
    let r1d = enc_u64(h1.difficulty) + (enc_u64(h1.height)
        + enc_bytes(h1.geometric_proof@));
    let r2d = enc_u64(h2.difficulty) + (enc_u64(h2.height)
        + enc_bytes(h2.geometric_proof@));
    lemma_concat_inject(enc_u64(h1.nonce), r1d, enc_u64(h2.nonce), r2d);
    lemma_enc_u64_inject(h1.nonce, h2.nonce);
    let r1e = enc_u64(h1.height) + enc_bytes(h1.geometric_proof@);
    let r2e = enc_u64(h2.height) + enc_bytes(h2.geometric_proof@);
    lemma_concat_inject(enc_u64(h1.difficulty), r1e, enc_u64(h2.difficulty), r2e);
    lemma_enc_u64_inject(h1.difficulty, h2.difficulty);
    lemma_concat_inject(enc_u64(h1.height), enc_bytes(h1.geometric_proof@),
        enc_u64(h2.height), enc_bytes(h2.geometric_proof@));
    lemma_enc_u64_inject(h1.height, h2.height);
    lemma_concat_inject(enc_u64(h1.geometric_proof@.len() as u64), h1.geometric_proof@,
        enc_u64(h2.geometric_proof@.len() as u64), h2.geometric_proof@);
}

/// A committed unit: header plus the included transactions.
#[derive(Debug, Clone)]
pub struct Block {
    pub header: BlockHeader,
    pub triangle_transactions: Vec<Transaction>,
}

/// Relies on std's SystemTime::now and duration_since: the wall clock in
/// seconds since the Unix epoch, 0 when the clock is set before the epoch;
/// nothing is promised about its value.
#[verifier::external_body]
fn now_ts() -> i64 {
    match std::time::SystemTime::now().duration_since(std::time::UNIX_EPOCH) {
        Ok(d) => i64::try_from(d.as_secs()).unwrap_or(i64::MAX),
        Err(_) => 0,
    }
}

impl Block {
    /// Every included transaction carries a consistent cached hash.
    pub open spec fn txs_wf(self) -> bool {
        forall|i: int| 0 <= i < self.triangle_transactions@.len()
            ==> (#[trigger] self.triangle_transactions@[i]).wf()
    }

    /// A fresh block at the current wall-clock time, with nonce 0 and the
    /// root address as placeholder geometric proof.
    pub fn new(
        previous_hash: H256,
        merkle_root: H256,
        difficulty: u64,
        height: u64,
        triangle_transactions: Vec<Transaction>,
    ) -> (r: Block)
        ensures
            r.header.previous_hash@ == previous_hash@,
            r.header.merkle_root@ == merkle_root@,
            r.header.nonce == 0,
            r.header.difficulty == difficulty,
            r.header.height == height,
            r.header.geometric_proof@ == Seq::<u8>::empty(),
            r.triangle_transactions == triangle_transactions,
    {
        let timestamp = now_ts();
        Block {
            header: BlockHeader {
                previous_hash,
                merkle_root,
                timestamp,
                nonce: 0,
                difficulty,
                height,
                geometric_proof: TriangleAddress::root(),
            },
            triangle_transactions,
        }
    }

    /// The block's identity hash: the content hash of the serialized
    /// header alone.
    pub fn hash(&self) -> (r: H256)
        ensures
            r@ == block_hash_spec(self.header),
    {
        let header_bytes = encode_header(&self.header);
        H256::from_array(blake3_hash(header_bytes.as_slice()))
    }
}

/// Two headers with the same content, field for field.
pub open spec fn same_header(a: BlockHeader, b: BlockHeader) -> bool {
    &&& a.previous_hash@ == b.previous_hash@
    &&& a.merkle_root@ == b.merkle_root@
    &&& a.timestamp == b.timestamp
    &&& a.nonce == b.nonce
    &&& a.difficulty == b.difficulty
    &&& a.height == b.height
    &&& a.geometric_proof@ == b.geometric_proof@
}

/// Two blocks with the same content: equal headers and, transaction for
/// transaction, the same content.
pub open spec fn same_block(a: Block, b: Block) -> bool {
    &&& same_header(a.header, b.header)
    &&& a.triangle_transactions@.len() == b.triangle_transactions@.len()
    &&& forall|i: int| 0 <= i < a.triangle_transactions@.len()
        ==> crate::transaction::same_tx(#[trigger] a.triangle_transactions@[i],
            b.triangle_transactions@[i])
}

/// Headers with the same content share their canonical bytes, and so
/// their hash.
pub proof fn lemma_same_header_same_bytes(a: BlockHeader, b: BlockHeader)
    requires
        same_header(a, b),
    ensures
        enc_header(a) == enc_header(b),
        block_hash_spec(a) == block_hash_spec(b),
{
    reveal(enc_header);
}

/// A value-for-value copy of a block.
pub fn copy_block(b: &Block) -> (r: Block)
    ensures
        same_block(r, *b),
        block_hash_spec(r.header) == block_hash_spec(b.header),
        b.txs_wf() ==> r.txs_wf(),
{
    let header = BlockHeader {
        previous_hash: b.header.previous_hash,
        merkle_root: b.header.merkle_root,
        timestamp: b.header.timestamp,
        nonce: b.header.nonce,
        difficulty: b.header.difficulty,
        height: b.header.height,
        geometric_proof: b.header.geometric_proof.duplicate(),
    };
    let mut txs: Vec<Transaction> = Vec::new();
    let mut i: usize = 0;
    while i < b.triangle_transactions.len()
        invariant
            0 <= i <= b.triangle_transactions@.len(),
            txs@.len() == i,
            forall|k: int| 0 <= k < i ==> crate::transaction::same_tx(
                #[trigger] txs@[k], b.triangle_transactions@[k]),
            forall|k: int| 0 <= k < i ==> (b.triangle_transactions@[k].wf()
                ==> (#[trigger] txs@[k]).wf()),
        decreases b.triangle_transactions@.len() - i,
    {
        txs.push(crate::transaction::copy_tx(&b.triangle_transactions[i]));
        i = i + 1;
    }
    let r = Block { header, triangle_transactions: txs };
    proof {
        lemma_same_header_same_bytes(r.header, b.header);
    }
    r
}

} // verus!
