use siertrichain::block::Block;
use siertrichain::blockchain::{Blockchain, find_nonce};
use siertrichain::consensus::{adjust_difficulty, is_valid_proof_of_work, retarget,
    validate_block, validate_triangle_subdivision, DIFFICULTY_CEILING};
use siertrichain::genesis::GenesisTriangle;
use siertrichain::hash::H256;
use siertrichain::merkle::MerkleTree;
use siertrichain::subdivision::subdivide_triangle;
use siertrichain::transaction::{Transaction, TriangleOperation};
use siertrichain::dec::Dec;
use siertrichain::geometry::Point;
use siertrichain::triangle::Triangle;

#[test]
fn test_hash_determinism() {
    let chain = Blockchain::new();
    let tip = chain.latest_block();
    let h1 = tip.hash();
    let h2 = tip.hash();
    assert_eq!(h1, h2);
    assert_eq!(h1.to_hex().len(), 64);
}

#[test]
fn test_hash_changes_with_each_field() {
    let chain = Blockchain::new();
    let base = chain.latest_block().clone();
    let base_hash = base.hash();

    let mut b = base.clone();
    b.header.nonce = b.header.nonce.wrapping_add(1);
    assert_ne!(b.hash(), base_hash);

    let mut b = base.clone();
    b.header.timestamp += 1;
    assert_ne!(b.hash(), base_hash);

    let mut b = base.clone();
    b.header.height += 1;
    assert_ne!(b.hash(), base_hash);

    let mut b = base.clone();
    b.header.difficulty += 1;
    assert_ne!(b.hash(), base_hash);

    let mut b = base.clone();
    b.header.previous_hash = H256::from_slice(&[7u8; 32]);
    assert_ne!(b.hash(), base_hash);

    let mut b = base.clone();
    b.header.merkle_root = H256::from_slice(&[9u8; 32]);
    assert_ne!(b.hash(), base_hash);

    let mut b = base.clone();
    b.header.geometric_proof = b.header.geometric_proof.append(2);
    assert_ne!(b.hash(), base_hash);
}

#[test]
fn test_merkle_odd_leaf_rule() {
    let mut csprng = rand::thread_rng();
    let keypair = ed25519_dalek::Keypair::generate(&mut csprng);
    let genesis = GenesisTriangle::new();
    let txs = vec![
        Transaction::new(TriangleOperation::Create(genesis.clone()), &keypair),
        Transaction::new(TriangleOperation::Transfer {
            from: siertrichain::address::TriangleAddress::root(),
            to: [1u8; 32],
        }, &keypair),
        Transaction::new(TriangleOperation::Create(genesis), &keypair),
    ];
    let root = MerkleTree::new(&txs).get_root();

    // recompute by hand: the odd third leaf pairs with itself
    let l0 = txs[0].hash().to_bytes();
    let l1 = txs[1].hash().to_bytes();
    let l2 = txs[2].hash().to_bytes();
    let combine = |a: [u8; 32], b: [u8; 32]| -> [u8; 32] {
        let mut buf = [0u8; 64];
        buf[..32].copy_from_slice(&a);
        buf[32..].copy_from_slice(&b);
        *blake3::hash(&buf).as_bytes()
    };
    let expected = combine(combine(l0, l1), combine(l2, l2));
    assert_eq!(root.to_bytes(), expected);

    // an implementation that drops the odd leaf is non-conformant
    let dropped = combine(l0, l1);
    assert_ne!(root.to_bytes(), dropped);
}

#[test]
fn test_merkle_empty_is_zero_hash() {
    let txs: Vec<Transaction> = Vec::new();
    let root = MerkleTree::new(&txs).get_root();
    assert_eq!(root, H256::default());
}

#[test]
fn test_pow_monotonicity() {
    let chain = Blockchain::new();
    let mut block = chain.latest_block().clone();
    find_nonce(&mut block, 1000);
    assert!(is_valid_proof_of_work(&block, 1000));
    // accepted at difficulty 1000, so accepted at every lower difficulty
    assert!(is_valid_proof_of_work(&block, 500));
    assert!(is_valid_proof_of_work(&block, 10));
    assert!(is_valid_proof_of_work(&block, 1));
}

#[test]
fn test_retarget_bounds() {
    // twice as fast: doubled
    assert_eq!(retarget(1000, 100), 2000);
    // twice as slow: halved
    assert_eq!(retarget(1000, 1300), 500);
    // within bounds: unchanged
    assert_eq!(retarget(1000, 600), 1000);
    assert_eq!(retarget(1000, 300), 1000);
    assert_eq!(retarget(1000, 1200), 1000);
    // clamped below at 1
    assert_eq!(retarget(1, 100000), 1);
    // clamped above at u64::MAX / 1000
    assert_eq!(retarget(DIFFICULTY_CEILING, 0), DIFFICULTY_CEILING);
    assert_eq!(DIFFICULTY_CEILING, u64::MAX / 1000);
}

#[test]
fn test_end_to_end_scenario() {
    let mut chain = Blockchain::new();
    assert_eq!(chain.get_difficulty(), 1_000_000);
    let genesis_hash = chain.latest_block().hash();
    assert!(chain.get_block(&genesis_hash).is_some());

    for height in 1..=10u64 {
        let tip_hash = chain.latest_block().hash();
        let merkle_root = MerkleTree::new(&Vec::new()).get_root();
        let block = Block::new(tip_hash, merkle_root, chain.get_difficulty(), height,
            Vec::new());
        chain.add_block(block).unwrap();
    }

    // exactly one retarget has run; the ten blocks came far faster than
    // the expected interval, so the difficulty doubled
    assert_eq!(chain.get_difficulty(), 2_000_000);

    // the standalone retarget evaluation agrees: the tip is at height 10,
    // and the fast interval would double the difficulty again
    assert_eq!(adjust_difficulty(&chain), 4_000_000);

    // the chain links: every block points at the hash of its predecessor
    for h in 1..=10u64 {
        let prev = chain.get_block_by_height(h - 1).unwrap().hash();
        let this = chain.get_block_by_height(h).unwrap();
        assert_eq!(this.header.previous_hash, prev);
        assert_eq!(this.header.height, h);
    }
    assert!(chain.get_block_by_height(11).is_none());
}

#[test]
fn test_add_block_rejects_bad_parent() {
    let mut chain = Blockchain::new();
    let merkle_root = MerkleTree::new(&Vec::new()).get_root();
    let block = Block::new(H256::from_slice(&[3u8; 32]), merkle_root,
        chain.get_difficulty(), 1, Vec::new());
    assert!(chain.add_block(block).is_err());
    // a wrong height is also rejected
    let tip_hash = chain.latest_block().hash();
    let merkle_root = MerkleTree::new(&Vec::new()).get_root();
    let block = Block::new(tip_hash, merkle_root, chain.get_difficulty(), 5, Vec::new());
    assert!(chain.add_block(block).is_err());
}

#[test]
fn test_signature_rejection() {
    let mut csprng = rand::thread_rng();
    let keypair = ed25519_dalek::Keypair::generate(&mut csprng);
    let genesis = GenesisTriangle::new();
    let mut tx = Transaction::new(TriangleOperation::Create(genesis), &keypair);
    assert!(tx.validate());
    tx.signature[0] ^= 1;
    assert!(!tx.validate());
}

#[test]
fn test_validate_block() {
    let mut chain = Blockchain::new();
    let tip = chain.latest_block();
    let tip_hash = tip.hash();
    let tip_ts = tip.header.timestamp;
    let merkle_root = MerkleTree::new(&Vec::new()).get_root();
    let mut block = Block::new(tip_hash, merkle_root, chain.get_difficulty(), 1,
        Vec::new());
    block.header.timestamp = tip_ts + 10;
    find_nonce(&mut block, chain.get_difficulty());
    assert!(validate_block(&block, &chain));

    // an unknown parent is rejected
    let mut orphan = block.clone();
    orphan.header.previous_hash = H256::from_slice(&[1u8; 32]);
    assert!(!validate_block(&orphan, &chain));

    // a timestamp that does not advance is rejected
    let mut stale = block.clone();
    stale.header.timestamp = tip_ts;
    find_nonce(&mut stale, chain.get_difficulty());
    assert!(!validate_block(&stale, &chain));

    // a wrong merkle root is rejected
    let mut bad_root = block.clone();
    bad_root.header.merkle_root = H256::from_slice(&[8u8; 32]);
    find_nonce(&mut bad_root, chain.get_difficulty());
    assert!(!validate_block(&bad_root, &chain));

    // a block with an invalid transaction is rejected
    let mut csprng = rand::thread_rng();
    let keypair = ed25519_dalek::Keypair::generate(&mut csprng);
    let mut tx = Transaction::new(
        TriangleOperation::Create(GenesisTriangle::new()), &keypair);
    tx.signature[0] ^= 1;
    let txs = vec![tx];
    let tampered_root = MerkleTree::new(&txs).get_root();
    let mut bad_tx_block = Block::new(chain.latest_block().hash(), tampered_root,
        chain.get_difficulty(), 1, txs);
    bad_tx_block.header.timestamp = tip_ts + 10;
    find_nonce(&mut bad_tx_block, chain.get_difficulty());
    assert!(!validate_block(&bad_tx_block, &chain));

    // the good block is accepted by the ledger too
    chain.add_block(block).unwrap();
}

#[test]
fn test_adjust_difficulty_off_interval() {
    let chain = Blockchain::new();
    // the tip is the genesis block at height 0: no retarget
    assert_eq!(adjust_difficulty(&chain), chain.get_difficulty());
}

#[test]
fn test_triangle_hash_is_canonical() {
    let t1 = Triangle::new(
        Point::new(Dec::new(1, 0), Dec::new(0, 0)),
        Point::new(Dec::new(2, 0), Dec::new(0, 0)),
        Point::new(Dec::new(1, 0), Dec::new(1, 0)),
    );
    // the same triangle written with trailing zeros hashes identically
    let t2 = Triangle::new(
        Point::new(Dec::new(10, 1), Dec::new(0, 2)),
        Point::new(Dec::new(200, 2), Dec::new(0, 0)),
        Point::new(Dec::new(1, 0), Dec::new(1000, 3)),
    );
    assert_eq!(t1.hash(), t2.hash());
    let t3 = Triangle::new(
        Point::new(Dec::new(1, 0), Dec::new(0, 0)),
        Point::new(Dec::new(2, 0), Dec::new(0, 0)),
        Point::new(Dec::new(1, 0), Dec::new(2, 0)),
    );
    assert_ne!(t1.hash(), t3.hash());
}

#[test]
fn test_validate_triangle_subdivision() {
    let genesis = GenesisTriangle::new();
    let (c1, c2, c3) = subdivide_triangle(&genesis).unwrap();
    assert!(validate_triangle_subdivision(&genesis, &c1));
    assert!(validate_triangle_subdivision(&genesis, &c2));
    assert!(validate_triangle_subdivision(&genesis, &c3));
    // a child with the wrong area fails the check
    assert!(!validate_triangle_subdivision(&genesis, &genesis));
}

#[test]
fn test_retarget_fires_at_height_ten() {
    let mut chain = Blockchain::new();
    // no retarget before the tip reaches height 10
    for height in 1..=9u64 {
        let tip_hash = chain.latest_block().hash();
        let merkle_root = MerkleTree::new(&Vec::new()).get_root();
        let block = Block::new(tip_hash, merkle_root, chain.get_difficulty(), height,
            Vec::new());
        chain.add_block(block).unwrap();
        assert_eq!(chain.get_difficulty(), 1_000_000);
    }
    // the tenth appended block sits at height 10 and triggers the retarget;
    // ten fresh blocks are far faster than the expected interval
    let tip_hash = chain.latest_block().hash();
    let merkle_root = MerkleTree::new(&Vec::new()).get_root();
    let block = Block::new(tip_hash, merkle_root, chain.get_difficulty(), 10, Vec::new());
    chain.add_block(block).unwrap();
    assert_eq!(chain.get_difficulty(), 2_000_000);
}

#[test]
fn test_genesis_block_content() {
    let chain = Blockchain::new();
    let genesis = chain.get_block_by_height(0).unwrap();
    assert_eq!(genesis.triangle_transactions.len(), 1);
    match &genesis.triangle_transactions[0].operation {
        TriangleOperation::Create(t) => {
            assert!(GenesisTriangle::validate(t));
        },
        _ => panic!("the genesis transaction is not a Create"),
    }
    assert!(genesis.triangle_transactions[0].validate());
    assert!(is_valid_proof_of_work(genesis, 1_000_000));
}

#[test]
fn test_sign_with_mismatched_keypair_still_validates() {
    // a keypair rebuilt from raw bytes whose stored public half does not
    // correspond to its secret half
    let mut csprng = rand::thread_rng();
    let kp1 = ed25519_dalek::Keypair::generate(&mut csprng);
    let kp2 = ed25519_dalek::Keypair::generate(&mut csprng);
    let mut bytes = kp1.secret.to_bytes().to_vec();
    bytes.extend_from_slice(&kp2.public.to_bytes());
    let mismatched = siertrichain::wallet::from_bytes(&bytes).unwrap();
    let tx = Transaction::new(
        TriangleOperation::Create(GenesisTriangle::new()), &mismatched);
    assert!(tx.validate());
}
