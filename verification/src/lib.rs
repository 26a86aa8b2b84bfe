//! Persistent sparse Merkle tree engine over an append-only byte arena.

pub mod acc_ptr;
pub mod account;
pub mod additive;
pub mod array;
pub mod bytes;
pub mod chain;
pub mod converter;
pub mod driver;
pub mod error;
pub mod evacuation;
pub mod file;
pub mod index;
pub mod laws;
pub mod leaves;
pub mod mechanism;
pub mod merkle;
pub mod node_ptr;
pub mod parser;
pub mod poseidon;
pub mod primary_market;
pub mod reconcile;
pub mod reference;
pub mod rules;
pub mod scalar;
pub mod secondary_market;
pub mod token;
pub mod token_ptr;
pub mod tsb_info;
pub mod tsbinfo_ptr;
pub mod state;
pub mod state_tx;
pub mod tx;
pub mod tx_ptr;
pub mod value;
