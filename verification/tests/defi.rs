use ed25519_dalek::Keypair;
use siertrichain::dec::Dec;
use siertrichain::exchange::{Exchange, Order, OrderType};
use siertrichain::genesis::GenesisTriangle;
use siertrichain::insurance::InsuranceManager;
use siertrichain::lending::LendingPlatform;
use siertrichain::liquidity_pools::{LiquidityPool, LiquidityPoolManager};
use siertrichain::rental::RentalManager;
use siertrichain::staking::{Stake, StakingManager};
use siertrichain::swaps::SwapManager;
use siertrichain::tokenomics::{calculate_fee_burn, calculate_subdivision_reward};
use siertrichain::transaction::TriangleOperation;
use siertrichain::wallet::{Address, Wallet, from_bytes, to_bytes};
use siertrichain::hash::H256;

fn wallet_address() -> Address {
    let mut csprng = rand::thread_rng();
    let keypair = Keypair::generate(&mut csprng);
    Address::from_pubkey(&keypair.public)
}

#[test]
fn test_keypair_bytes_round_trip() {
    let mut csprng = rand::thread_rng();
    let keypair = Keypair::generate(&mut csprng);
    let bytes = to_bytes(&keypair);
    let restored = from_bytes(&bytes).unwrap();
    assert_eq!(restored.public.to_bytes(), keypair.public.to_bytes());
    assert!(from_bytes(&[0u8; 3]).is_err());
}

#[test]
fn test_wallet_creates_valid_transfer() {
    let wallet = Wallet::new_random();
    let to = Wallet::new_random().address();
    let tx = wallet.create_transaction(
        siertrichain::address::TriangleAddress::new(vec![0, 2]), to);
    assert!(tx.validate());
    assert!(matches!(tx.operation, TriangleOperation::Transfer { .. }));
}

#[test]
fn test_liquidity_pool_quote() {
    // reserves 10 tokens and 2 assets: 1 asset buys 5 tokens
    let pool = LiquidityPool::new(GenesisTriangle::new(), Dec::new(10, 0), Dec::new(2, 0));
    let tokens = pool.get_token_amount(Dec::new(1, 0));
    assert_eq!(tokens, Dec::new(5, 0));
    let assets = pool.get_asset_amount(Dec::new(5, 0));
    assert_eq!(assets, Dec::new(1, 0));
    // empty reserves quote zero
    let empty = LiquidityPool::new(GenesisTriangle::new(), Dec::new(0, 0), Dec::new(2, 0));
    assert_eq!(empty.get_token_amount(Dec::new(1, 0)), Dec::new(0, 0));
}

#[test]
fn test_liquidity_manager() {
    let mut manager = LiquidityPoolManager::new();
    manager.create_pool(GenesisTriangle::new(), Dec::new(10, 0), Dec::new(2, 0));
    let id = GenesisTriangle::new().hash();
    manager.add_liquidity(&id, Dec::new(1, 0), Dec::new(1, 0));
}

#[test]
fn test_exchange_orders() {
    let mut exchange = Exchange::new();
    let triangle = GenesisTriangle::new();
    for (price, side) in [(3i128, OrderType::Buy), (5, OrderType::Buy), (4, OrderType::Buy),
        (7, OrderType::Sell), (6, OrderType::Sell)] {
        exchange.place_order(Order {
            trader: wallet_address(),
            order_type: side,
            triangle: triangle.clone(),
            price: Dec::new(price, 0),
        });
    }
}

#[test]
fn test_tokenomics_formulas() {
    // one percent of the area
    assert_eq!(calculate_subdivision_reward(Dec::new(200, 0)), Dec::new(2, 0));
    // ten percent of the fee
    assert_eq!(calculate_fee_burn(Dec::new(50, 0)), Dec::new(5, 0));
}

#[test]
fn test_staking_rewards_split() {
    let mut manager = StakingManager::new();
    let triangle = GenesisTriangle::new();
    let id = triangle.hash();
    let alice = wallet_address();
    let bob = wallet_address();
    manager.add_stake(Stake { staker: alice, triangle: triangle.clone(), amount: Dec::new(3, 0) });
    manager.add_stake(Stake { staker: bob, triangle: triangle.clone(), amount: Dec::new(1, 0) });
    let rewards = manager.distribute_rewards(&id, Dec::new(8, 0));
    assert_eq!(rewards.len(), 2);
    // 3/4 and 1/4 of the reward of 8
    assert_eq!(rewards[0].1, Dec::new(6, 0));
    assert_eq!(rewards[1].1, Dec::new(2, 0));
    // an unstaked region distributes nothing
    let other = H256::from_slice(&[9u8; 32]);
    assert!(manager.distribute_rewards(&other, Dec::new(8, 0)).is_empty());
}

#[test]
fn test_rental() {
    let mut manager = RentalManager::new();
    let triangle = GenesisTriangle::new();
    let id = triangle.hash();
    assert!(!manager.is_rented(&id, 100));
    manager.rent_triangle(wallet_address(), triangle, Dec::new(1, 0), 50, 100);
    assert!(manager.is_rented(&id, 100));
    assert!(manager.is_rented(&id, 149));
    assert!(!manager.is_rented(&id, 150));
}

#[test]
fn test_insurance_claims() {
    let mut manager = InsuranceManager::new();
    let triangle = GenesisTriangle::new();
    let id = triangle.hash();
    manager.create_policy(wallet_address(), triangle.clone(), Dec::new(100, 0),
        Dec::new(1, 0), 500);
    manager.create_policy(wallet_address(), triangle, Dec::new(100, 0),
        Dec::new(1, 0), 200);
    // at block 300 only the policy running to 500 is paid out
    let paid = manager.process_claim(&id, 300);
    assert_eq!(paid.len(), 1);
    assert_eq!(paid[0].expiration_block, 500);
    // paid-out policies are retired
    let paid_again = manager.process_claim(&id, 300);
    assert!(paid_again.is_empty());
}

#[test]
fn test_swaps() {
    let mut manager = SwapManager::new();
    let secret_hash = H256::from_slice(&[4u8; 32]);
    manager.initiate_swap(wallet_address(), wallet_address(), GenesisTriangle::new(),
        GenesisTriangle::new(), Dec::new(1, 0), Dec::new(2, 0), secret_hash);
    manager.confirm_swap(&secret_hash, b"secret");
    let other = H256::from_slice(&[5u8; 32]);
    manager.refund_swap(&other);
}

#[test]
fn test_lending() {
    let mut platform = LendingPlatform::new();
    let borrower = wallet_address();
    platform.create_loan(borrower, GenesisTriangle::new(), Dec::new(10, 0),
        Dec::new(20, 0), 1, Dec::new(5, 2));
    platform.repay_loan(&borrower, 0, Dec::new(4, 0));
    platform.liquidate_loan(&borrower, 0);
}
