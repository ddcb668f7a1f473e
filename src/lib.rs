//! A minimal UTXO-model cryptocurrency node: transactions signed with
//! secp256k1 ECDSA, proof-of-work blocks, a chain store with best-tip
//! tracking, an unspent-output index and the decisions of the gossip
//! protocol between peers.
pub mod codec;
pub mod crypto;
pub mod error;
pub mod wallet;
pub mod tx;
pub mod transaction;
pub mod merkle;
pub mod block;
pub mod chain;
pub mod utxo;
pub mod network;
pub mod cli;
