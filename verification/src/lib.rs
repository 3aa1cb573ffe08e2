//! A hash-chained ledger with pluggable consensus validation.
//!
//! Blocks are sealed either by proof of work or by stake and history, and a
//! chain accepts a block only after a fixed validation pipeline has passed.

pub mod account;
pub mod block;
pub mod blockchain;
pub mod clock;
pub mod consensus;
pub mod database;
pub mod decimal;
pub mod digest;
pub mod entrypoint;
pub mod error;
pub mod handler;
pub mod keys;
pub mod laws;
pub mod le_bytes;
pub mod merkle;
pub mod message;
pub mod mint;
pub mod nodes;
pub mod payload;
pub mod producer;
pub mod pubkey_map;
mod random;
pub mod rate_limiter;
pub mod repl;
pub mod shardable;
pub mod shardpath;
pub mod signature;
pub mod stake;
pub mod sys;
pub mod token;
pub mod transaction;
pub mod utxo;
pub mod work;

pub use crate::account::{Account, AccountSet};
pub use crate::block::{Block, Seal};
pub use crate::blockchain::Blockchain;
pub use crate::clock::now;
pub use crate::consensus::Consensus;
pub use crate::digest::{digest, Hashable};
pub use crate::entrypoint::{ProgramAccount, ProgramError, ProgramResult};
pub use crate::error::BlockValidationErr;
pub use crate::handler::Scanner;
pub use crate::keys::{EncodedPubkey, Pubkey, Signature};
pub use crate::le_bytes::{difficulty_bytes_as_u128, u128_to_bytes, u32_to_bytes, u64_to_bytes};
pub use crate::mint::Mint;
pub use crate::rate_limiter::RateLimiter;
pub use crate::shardpath::ShardPath;
pub use crate::signature::Privatekey;
pub use crate::sys::{create_essential_id, Sys};
pub use crate::token::Token;
pub use crate::transaction::{Input, Output, Transaction};
pub use crate::utxo::UtxoSet;
pub use crate::work::Difficulty;
