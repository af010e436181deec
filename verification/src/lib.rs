//! Verified logic of two FRAME pallets: a kitties registry (minting,
//! breeding and transferring kitties against a reserve of funds) and an
//! off-chain indexing pallet (keys and values written to the off-chain
//! index, and what the off-chain worker does at each block).

pub mod scale;
pub mod hashing;
pub mod dispatch;
pub mod currency;
pub mod kitties;
pub mod offchain_index;
