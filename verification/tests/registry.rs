use siertrichain::address::TriangleAddress;
use siertrichain::errors::BlockchainError;
use siertrichain::nft::{NFTManager, TriangleNFT};
use siertrichain::wallet::Address;
use siertrichain::mempool::Mempool;
use siertrichain::transaction::{Transaction, TriangleOperation};
use siertrichain::genesis::GenesisTriangle;
use siertrichain::storage::{BlockStorage, TransactionStorage, InMemoryStorage};
use siertrichain::blockchain::Blockchain;

#[test]
fn test_nft_mint_and_occupancy() {
    let mut manager = NFTManager::new();
    let addr = TriangleAddress::new(vec![0, 1]);
    let nft = manager
        .mint_nft(TriangleAddress::new(vec![0, 1]), "alice".to_string(),
            "uri://one".to_string())
        .unwrap();
    assert_eq!(nft.owner, "alice");
    assert!(manager.get_nft_by_triangle(&addr).is_some());

    // the same address cannot be occupied twice
    let again = manager.mint_nft(TriangleAddress::new(vec![0, 1]),
        "bob".to_string(), "uri://two".to_string());
    assert!(matches!(again, Err(BlockchainError::TriangleOccupied)));

    // a different address is free
    assert!(manager.get_nft_by_triangle(&TriangleAddress::new(vec![2])).is_none());
}

#[test]
fn test_nft_transfer() {
    let mut manager = NFTManager::new();
    let nft = manager
        .mint_nft(TriangleAddress::new(vec![1]), "alice".to_string(),
            "uri://one".to_string())
        .unwrap();
    manager.transfer_nft(&nft.token_id, "bob".to_string()).unwrap();
    let unknown = siertrichain::hash::H256::from_slice(&[5u8; 32]);
    assert!(matches!(manager.transfer_nft(&unknown, "carol".to_string()),
        Err(BlockchainError::NFTNotFound)));
}

#[test]
fn test_nft_id_depends_on_content() {
    let a = TriangleNFT::new(TriangleAddress::new(vec![1]), "alice".to_string(),
        "uri".to_string());
    let b = TriangleNFT::new(TriangleAddress::new(vec![1]), "bob".to_string(),
        "uri".to_string());
    assert_ne!(a.token_id, b.token_id);
}

#[test]
fn test_wallet_address_base58_round_trip() {
    let mut csprng = rand::thread_rng();
    let keypair = ed25519_dalek::Keypair::generate(&mut csprng);
    let address = Address::from_pubkey(&keypair.public);
    let text = address.to_base58();
    let back = Address::from_base58(&text).unwrap();
    assert_eq!(back, address);
    assert!(Address::from_base58("0OIl").is_err());
    assert!(Address::from_base58("2g").is_err());
}

#[test]
fn test_mempool_insert_and_lookup() {
    let mut pool = Mempool::new();
    let mut csprng = rand::thread_rng();
    let keypair = ed25519_dalek::Keypair::generate(&mut csprng);
    let tx = Transaction::new(
        TriangleOperation::Create(GenesisTriangle::new()), &keypair);
    let key = tx.hash().to_bytes();
    pool.add_transaction(tx);
    assert!(pool.get_transaction(&key).is_some());
    assert!(pool.get_transaction(&[0u8; 32]).is_none());
    assert_eq!(pool.get_pending_transactions().len(), 1);
}

#[test]
fn test_in_memory_storage() {
    let mut store = InMemoryStorage::new();
    let chain = Blockchain::new();
    let block = chain.latest_block().clone();
    let hash = block.hash();
    store.put_block(&block);
    assert!(store.get_block(&hash).is_some());
    assert!(store.get_block(&siertrichain::hash::H256::default()).is_none());

    let mut csprng = rand::thread_rng();
    let keypair = ed25519_dalek::Keypair::generate(&mut csprng);
    let tx = Transaction::new(
        TriangleOperation::Create(GenesisTriangle::new()), &keypair);
    let tx_hash = siertrichain::hash::H256::from_array(tx.hash().to_bytes());
    store.put_transaction(&tx);
    assert!(store.get_transaction(&tx_hash).is_some());
}

#[test]
fn test_storage_returns_stored_content() {
    let mut store = InMemoryStorage::new();
    let chain = Blockchain::new();
    let block = chain.latest_block().clone();
    let hash = block.hash();
    store.put_block(&block);
    let back = store.get_block(&hash).unwrap();
    assert_eq!(back.hash(), hash);
    assert_eq!(back.header.height, block.header.height);
    assert_eq!(back.header.nonce, block.header.nonce);
    assert_eq!(back.triangle_transactions.len(), block.triangle_transactions.len());
    assert_eq!(back.triangle_transactions[0].hash(), block.triangle_transactions[0].hash());

    let mut csprng = rand::thread_rng();
    let keypair = ed25519_dalek::Keypair::generate(&mut csprng);
    let tx = Transaction::new(
        TriangleOperation::Create(GenesisTriangle::new()), &keypair);
    let tx_hash = siertrichain::hash::H256::from_array(tx.hash().to_bytes());
    store.put_transaction(&tx);
    let back = store.get_transaction(&tx_hash).unwrap();
    assert_eq!(back.public_key, tx.public_key);
    assert_eq!(back.signature.to_vec(), tx.signature.to_vec());
    assert_eq!(back.hash(), tx.hash());
    assert!(back.validate());
}

#[test]
fn test_pending_transactions_content() {
    let mut pool = Mempool::new();
    let mut csprng = rand::thread_rng();
    let keypair = ed25519_dalek::Keypair::generate(&mut csprng);
    let tx = Transaction::new(
        TriangleOperation::Create(GenesisTriangle::new()), &keypair);
    let key = tx.hash().to_bytes();
    let pk = tx.public_key;
    pool.add_transaction(tx);
    let pending = pool.get_pending_transactions();
    assert_eq!(pending.len(), 1);
    assert_eq!(pending[0].hash().to_bytes(), key);
    assert_eq!(pending[0].public_key, pk);
    assert!(pending[0].validate());
}
