//! The consensus validator: one of two rules, chosen when a chain is made,
//! that seals a candidate block and verifies a received one.

use vstd::prelude::*;
use crate::block::{Block, Seal};
use crate::digest::Hashable;
use crate::error::BlockValidationErr;
use crate::work::{check_seal, difficulty_met, mined_with, work_hash, Difficulty};

verus! {

/// The consensus rule of a chain.
#[derive(Debug, Clone, Copy, PartialEq, Eq, Structural)]
pub enum Consensus {
    /// Blocks are sealed by a nonce whose hash meets the difficulty.
    ProofOfWork(Difficulty),
    /// Blocks are sealed by their hash, follow their parent in time, and
    /// carry over a majority of its stake.
    StakeAndHistory,
}

/// The parent as a value.
pub open spec fn owned_parent(parent: Option<&Block>) -> Option<Block> {
    match parent {
        Some(p) => Some(*p),
        None => None,
    }
}

impl Consensus {
    /// What verification of `block` against its parent gives. A first block
    /// has no parent.
    ///
    /// Under proof of work the block must carry a proof-of-work seal, its
    /// stored hash must be the digest of its bytes, and that hash must meet
    /// the difficulty; else the consensus check has failed.
    ///
    /// Under stake and history the block must carry a stake seal; then, with
    /// a parent, its time must be strictly after the parent's, else the
    /// timestamp is achronological; its stored hash must be the digest of its
    /// bytes; and, with a parent, it must carry over a majority of stake;
    /// else the consensus check has failed.
    pub open spec fn spec_verify(&self, block: Block, parent: Option<Block>) -> Result<
        (),
        BlockValidationErr,
    > {
        match *self {
            Consensus::ProofOfWork(difficulty) => {
                if block.seal is Work && block.spec_hash_valid() && difficulty_met(
                    difficulty,
                    block.hash@,
                ) {
                    Ok(())
                } else {
                    Err(BlockValidationErr::ConsensusCheckFailed)
                }
            },
            Consensus::StakeAndHistory => {
                if !(block.seal is Stake) {
                    Err(BlockValidationErr::ConsensusCheckFailed)
                } else {
                    match parent {
                        Some(p) => {
                            if block.timestamp <= p.timestamp {
                                Err(BlockValidationErr::AchronologicalTimestamp)
                            } else if !block.spec_hash_valid() {
                                Err(BlockValidationErr::ConsensusCheckFailed)
                            } else if !block.spec_verify_pos(&p) {
                                Err(BlockValidationErr::ConsensusCheckFailed)
                            } else {
                                Ok(())
                            }
                        },
                        None => {
                            if block.spec_hash_valid() {
                                Ok(())
                            } else {
                                Err(BlockValidationErr::ConsensusCheckFailed)
                            }
                        },
                    }
                }
            },
        }
    }

    /// Verifies a received block against its parent, if it has one.
    pub fn verify(&self, block: &Block, parent: Option<&Block>) -> (res: Result<
        (),
        BlockValidationErr,
    >)
        ensures
            res == self.spec_verify(*block, owned_parent(parent)),
    {
        match self {
            Consensus::ProofOfWork(difficulty) => {
                match block.seal {
                    Seal::Work { nonce } => {
                        if block.hash_valid() && check_seal(difficulty, &block.hash) {
                            Ok(())
                        } else {
                            Err(BlockValidationErr::ConsensusCheckFailed)
                        }
                    },
                    Seal::Stake { working_stake, total_stake, block_height } => Err(
                        BlockValidationErr::ConsensusCheckFailed,
                    ),
                }
            },
            Consensus::StakeAndHistory => {
                match block.seal {
                    Seal::Work { nonce } => Err(BlockValidationErr::ConsensusCheckFailed),
                    Seal::Stake { working_stake, total_stake, block_height } => {
                        match parent {
                            Some(p) => {
                                if block.timestamp <= p.timestamp {
                                    Err(BlockValidationErr::AchronologicalTimestamp)
                                } else if !block.hash_valid() {
                                    Err(BlockValidationErr::ConsensusCheckFailed)
                                } else if !block.verify_pos(p) {
                                    Err(BlockValidationErr::ConsensusCheckFailed)
                                } else {
                                    Ok(())
                                }
                            },
                            None => {
                                if block.hash_valid() {
                                    Ok(())
                                } else {
                                    Err(BlockValidationErr::ConsensusCheckFailed)
                                }
                            },
                        }
                    },
                }
            },
        }
    }

    /// Seals a candidate block and returns whether it is sealed.
    ///
    /// Under proof of work the block gets the first nonce whose hash meets
    /// the difficulty, with that hash; where no nonce does, it is not sealed.
    /// Under stake and history a block that carries a stake seal gets the
    /// digest of its bytes as its hash; one that carries another seal is left
    /// as it is, unsealed.
    pub fn seal(&self, block: &mut Block) -> (sealed: bool)
        ensures
            match *self {
                Consensus::ProofOfWork(difficulty) => {
                    &&& sealed ==> exists|nonce: u64| #[trigger]
                        mined_with(*old(block), *final(block), difficulty, nonce)
                    &&& sealed ==> self.spec_verify(*final(block), None) is Ok
                    &&& !sealed ==> final(block).hash == old(block).hash && forall|m: u64|
                        m < u64::MAX ==> !difficulty_met(
                            difficulty,
                            #[trigger] work_hash(*old(block), m),
                        )
                },
                Consensus::StakeAndHistory => {
                    &&& sealed == (old(block).seal is Stake)
                    &&& sealed ==> *final(block) == (Block {
                        hash: final(block).hash,
                        ..*old(block)
                    }) && final(block).spec_hash_valid()
                    &&& !sealed ==> *final(block) == *old(block)
                },
            },
    {
        match self {
            Consensus::ProofOfWork(difficulty) => { block.mine(difficulty) },
            Consensus::StakeAndHistory => {
                match block.seal {
                    Seal::Work { nonce } => false,
                    Seal::Stake { working_stake, total_stake, block_height } => {
                        block.seal_hash();
                        true
                    },
                }
            },
        }
    }
}

/// Under stake and history a block that has a parent, carries a stake seal
/// and stores the digest of its bytes is accepted exactly when its time is
/// strictly after the parent's and its working stake exceeds half of the
/// stake it declares. It is refused as achronological exactly when its time
/// is not after the parent's.
pub proof fn lemma_stake_and_history_accepts(block: Block, parent: Block)
    requires
        block.seal is Stake,
        block.spec_hash_valid(),
    ensures
        Consensus::StakeAndHistory.spec_verify(block, Some(parent)) is Ok <==> (block.timestamp
            > parent.timestamp && 2 * crate::stake::working_stake(
            block.rewards.spec_entries(),
            parent.rewards@,
        ) > crate::stake::declared_stake(block.rewards.spec_entries())),
        Consensus::StakeAndHistory.spec_verify(block, Some(parent)) == Err::<
            (),
            BlockValidationErr,
        >(BlockValidationErr::AchronologicalTimestamp) <==> block.timestamp <= parent.timestamp,
{
}

/// Under proof of work a block is accepted exactly when it carries a
/// proof-of-work seal, stores the digest of its bytes, and that digest meets
/// the difficulty.
pub proof fn lemma_proof_of_work_accepts(difficulty: Difficulty, block: Block, parent: Option<Block>)
    ensures
        Consensus::ProofOfWork(difficulty).spec_verify(block, parent) is Ok <==> (block.seal is Work
            && block.spec_hash_valid() && difficulty_met(
            difficulty,
            crate::digest::sha256(block.spec_bytes()),
        )),
{
}

} // verus!
