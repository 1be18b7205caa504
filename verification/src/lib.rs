//! A ledger whose proof-of-work is coupled to a recursive subdivision of
//! triangular regions.  Geometry is carried in exact decimal fixed-point
//! numbers so that every node reproduces areas and hashes bit for bit.

pub mod address;
pub mod block;
pub mod blockchain;
pub mod codec;
pub mod consensus;
pub mod dec;
pub mod errors;
pub mod exchange;
pub mod fractal;
pub mod genesis;
pub mod geometry;
pub mod hash;
pub mod insurance;
pub mod lending;
pub mod liquidity_pools;
pub mod mempool;
pub mod merkle;
pub mod miner;
pub mod network;
pub mod nft;
pub mod rental;
pub mod staking;
pub mod storage;
pub mod swaps;
pub mod subdivision;
pub mod tokenomics;
pub mod transaction;
pub mod triangle;
pub mod validation;
pub mod wallet;
