//! Why a block, a spend or a coin selection is refused.

use vstd::prelude::*;

verus! {

/// The kinds of refusal. Each is reported to the caller; none is a panic.
#[derive(Debug, Clone, Copy, PartialEq, Eq, Structural)]
pub enum BlockValidationErr {
    /// The block's index is not the length of the chain.
    MismatchedIndex,
    /// The seal does not hold: the proof is invalid, the stored hash is not
    /// the digest of the block, or the stake carried over is no majority.
    ConsensusCheckFailed,
    /// The block's timestamp does not follow its parent's as the consensus
    /// rule demands.
    AchronologicalTimestamp,
    /// The block does not name its parent's hash.
    MismatchedParentHash,
    /// A first block names a parent other than the zero sentinel.
    InvalidGenesisFormat,
    /// The payload does not start with a coinbase, holds a second one, or
    /// its coinbase does not cover the fees.
    InvalidCoinbase,
    /// An input refers to an output that is not unspent.
    DoubleSpend,
    /// A transaction pays out more than it takes in.
    InsufficientInputValue,
    /// The unspent outputs do not add up to the amount asked for.
    InsufficientFunds,
    /// The stored Merkle root is not that of the payload.
    InvalidMerkleRoot,
}

} // verus!
