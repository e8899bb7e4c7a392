//! A minimal proof-of-work ledger: blocks, a longest-chain ledger with
//! per-block unspent-output snapshots, an orphan buffer, and the message
//! handlers by which nodes gossip blocks and transactions.

pub mod address;
pub mod assoc;
pub mod block;
pub mod blockchain;
pub mod bytes;
pub mod consensus;
pub mod crypto;
pub mod ledger;
pub mod mempool;
pub mod miner;
pub mod network;
pub mod state;
pub mod transaction;
pub mod transaction_generator;
