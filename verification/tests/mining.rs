use siertrichain::blockchain::Blockchain;
use siertrichain::consensus::is_valid_proof_of_work;
use siertrichain::miner::{Miner, MiningConfig, HardwareSelection, Hardware,
    detect_hardware, GpuContext, PoolClient, PoolServer};
use siertrichain::tokenomics::calculate_mining_reward;
use siertrichain::dec::Dec;
use siertrichain::address::TriangleAddress;
use siertrichain::fractal::TriangleState;

#[test]
fn test_mining_reward() {
    let config = MiningConfig {
        difficulty_target: 1,
        target_triangle_depth: 1,
        mining_reward: 50,
        hardware: HardwareSelection::Cpu,
    };

    let blockchain = Blockchain::new();
    let mut miner = Miner::new(config, blockchain);

    let _block = miner.mine();
    assert!(true);
}

#[test]
fn test_mine_extends_tip_and_meets_target() {
    let config = MiningConfig {
        difficulty_target: 1000,
        target_triangle_depth: 1,
        mining_reward: 50,
        hardware: HardwareSelection::Cpu,
    };
    let blockchain = Blockchain::new();
    let tip_hash = blockchain.latest_block().hash();
    let mut miner = Miner::new(config, blockchain);
    let block = miner.mine();
    assert_eq!(block.header.previous_hash, tip_hash);
    assert_eq!(block.header.height, 1);
    assert!(is_valid_proof_of_work(&block, 1000));
}

#[test]
fn test_mining_reward_halves_with_depth() {
    assert_eq!(calculate_mining_reward(0), Dec::new(100, 0));
    assert_eq!(calculate_mining_reward(1), Dec::new(50, 0));
    assert_eq!(calculate_mining_reward(2), Dec::new(25, 0));
    assert_eq!(calculate_mining_reward(3), Dec::new(125, 1));
}

#[test]
fn test_hardware_and_pool_stubs() {
    let hw = detect_hardware();
    assert_eq!(hw.len(), 1);
    assert!(matches!(hw[0], Hardware::Cpu));
    assert!(GpuContext::new().is_none());
    let _server = PoolServer::new();
    let _client = PoolClient::new();
}

#[test]
fn test_active_regions_after_genesis() {
    let chain = Blockchain::new();
    let regions = chain.get_active_triangles();
    assert_eq!(regions.len(), 1);
    assert_eq!(regions[0].depth, 0);
    assert!(regions[0].parent_id.is_none());
    assert_eq!(regions[0].address, TriangleAddress::root());
    assert!(matches!(regions[0].state, TriangleState::Genesis));
}
