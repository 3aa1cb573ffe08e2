//! The system program: the accounts that programs run under, and the block
//! that the node produced last.

use vstd::prelude::*;
use crate::block::{Block, Seal};
use crate::blockchain::{appended, Blockchain};
use crate::clock::now;
use crate::consensus::Consensus;
use crate::digest::{sha256, zero_hash_bytes, Hashable};
use crate::entrypoint::{filled_key, mint_id, sys_id, token_id, ProgramAccount};
use crate::error::BlockValidationErr;
use crate::keys::Pubkey;
use crate::pubkey_map::PubkeyMap;
use crate::transaction::Transaction;
use crate::work::above_bit_count;

verus! {

/// The state of the system program.
pub struct Sys {
    pub current_block: Block,
    pub program_accounts: PubkeyMap<ProgramAccount>,
}

/// `block` moved to the place `index`.
pub open spec fn at_index(block: Block, index: u64) -> Block {
    Block { index, ..block }
}

/// Whether `block`, moved to the place `index`, passes the spam filter: its
/// digest has a one bit.
pub open spec fn passes_filter(block: Block, index: u64) -> bool {
    above_bit_count(sha256(at_index(block, index).spec_bytes()), 0)
}

/// Whether `block` is what a node that produced `current` last produces at
/// `timestamp`: an empty block after `current`, unsigned, unconfirmed and
/// not yet hashed, at the first place from `current`'s on at which it passes
/// the spam filter, or at the last place there is.
pub open spec fn is_next_block(block: Block, current: Block, timestamp: u128) -> bool {
    &&& block.signature@ == Seq::new(64, |i: int| 0u8)
    &&& block.parent_timestamp == current.timestamp
    &&& block.timestamp == timestamp
    &&& block.merkle_root@ == zero_hash_bytes()
    &&& !block.is_confirmed
    &&& block.prev_block_hash@ == current.hash@
    &&& block.rewards@ == Map::<Seq<u8>, u64>::empty()
    &&& block.transactions@ == Seq::<Transaction>::empty()
    &&& block.seal == (Seal::Stake { working_stake: 0, total_stake: 0, block_height: 0 })
    &&& block.hash@ == zero_hash_bytes()
    &&& block.index >= current.index
    &&& passes_filter(block, block.index) || block.index == u64::MAX
    &&& forall|i: u64| current.index <= i < block.index ==> !#[trigger] passes_filter(block, i)
}

impl Sys {
    /// The system program under the owner `sys_owner`, with its own account
    /// and nothing else, and the default block of the time `timestamp`.
    pub fn with_owner(sys_owner: Pubkey, timestamp: u128) -> (sys: Sys)
        ensures
            sys.program_accounts@.dom() == set![filled_key(0)],
            sys.program_accounts@[filled_key(0)].lamports == 0,
            sys.program_accounts@[filled_key(0)].owner == sys_owner,
            sys.program_accounts@[filled_key(0)].data@ == Seq::<u8>::empty(),
            !sys.program_accounts@[filled_key(0)].executable,
            sys.current_block.index == 0,
            sys.current_block.timestamp == timestamp,
            sys.current_block.hash@ == zero_hash_bytes(),
    {
        let sys_account = ProgramAccount {
            lamports: 0,
            owner: sys_owner,
            data: Vec::new(),
            executable: false,
        };
        let mut program_accounts: PubkeyMap<ProgramAccount> = PubkeyMap::new();
        program_accounts.insert(sys_id(), sys_account);
        assert(program_accounts@.dom() =~= set![filled_key(0)]);
        Sys { current_block: Block::default_at(timestamp), program_accounts }
    }

    /// The system program under a random owner, at the time the clock
    /// shows.
    pub fn create_sys_account() -> (sys: Option<Sys>)
        ensures
            sys matches Some(s) && s.program_accounts@.dom() == set![filled_key(0)]
                && s.program_accounts@[filled_key(0)].lamports == 0
                && !s.program_accounts@[filled_key(0)].executable && s.current_block.index == 0,
    {
        let sys_owner = Pubkey::new_rand();
        Some(Sys::with_owner(sys_owner, now()))
    }

    /// Stores an account for the program `program_id`, in the place of the
    /// one it had, and returns the program's identity.
    pub fn create_account(
        &mut self,
        owner: Pubkey,
        data: Vec<u8>,
        lamports: u64,
        executable: bool,
        program_id: Pubkey,
    ) -> (id: Pubkey)
        ensures
            id == program_id,
            final(self).current_block == old(self).current_block,
            final(self).program_accounts@ == old(self).program_accounts@.insert(
                program_id@,
                ProgramAccount { lamports, owner, data, executable },
            ),
    {
        let program_account = ProgramAccount { lamports, owner, data, executable };
        self.program_accounts.insert(program_id, program_account);
        program_id
    }

    /// An empty chain under stake and history.
    pub fn genesis() -> (ledger: Blockchain)
        ensures
            ledger.spec_chain() == Seq::<Block>::empty(),
            ledger.spec_consensus() == Consensus::StakeAndHistory,
    {
        Blockchain::new(Consensus::StakeAndHistory)
    }

    /// Produces the block that follows the current one at `timestamp`.
    pub fn create_block_at(&self, timestamp: u128) -> (block: Block)
        ensures
            is_next_block(block, self.current_block, timestamp),
    {
        let mut block = Block::new(
            self.current_block.index,
            self.current_block.timestamp,
            timestamp,
            self.current_block.hash,
            PubkeyMap::new(),
            Vec::new(),
            Seal::Stake { working_stake: 0, total_stake: 0, block_height: 0 },
        );
        let ghost first = block;
        assert(block == at_index(first, block.index));
        let mut passed: bool = block.verify_tiny_pow(0);
        while !passed && block.index < u64::MAX
            invariant
                block == at_index(first, block.index),
                passed == passes_filter(first, block.index),
                first.index == self.current_block.index,
                block.index >= first.index,
                first.signature@ == Seq::new(64, |i: int| 0u8),
                first.parent_timestamp == self.current_block.timestamp,
                first.timestamp == timestamp,
                first.merkle_root@ == zero_hash_bytes(),
                !first.is_confirmed,
                first.prev_block_hash@ == self.current_block.hash@,
                first.rewards@ == Map::<Seq<u8>, u64>::empty(),
                first.transactions@ == Seq::<Transaction>::empty(),
                first.seal == (Seal::Stake { working_stake: 0, total_stake: 0, block_height: 0 }),
                first.hash@ == zero_hash_bytes(),
                forall|i: u64| first.index <= i < block.index ==> !#[trigger] passes_filter(first, i),
            decreases u64::MAX - block.index,
        {
            block.index = block.index + 1;
            assert(block == at_index(first, block.index));
            passed = block.verify_tiny_pow(0);
        }
        proof {
            assert forall|i: u64| self.current_block.index <= i < block.index implies !#[trigger] passes_filter(
                block,
                i,
            ) by {
                assert(at_index(block, i) == at_index(first, i));
                assert(!passes_filter(first, i));
            }
            assert(at_index(block, block.index) == block);
        }
        block
    }

    /// Produces the block that follows the current one at the time the
    /// clock shows.
    pub fn create_block(&mut self) -> (block: Block)
        ensures
            *final(self) == *old(self),
            is_next_block(block, old(self).current_block, block.timestamp),
    {
        self.create_block_at(now())
    }

    /// Submits `block` to `blockchain` and, where the chain takes it, makes a
    /// copy of it the current block. Where the chain refuses it, nothing
    /// changes.
    pub fn update_chain(&mut self, block: Block, blockchain: &mut Blockchain) -> (res: Result<
        (),
        BlockValidationErr,
    >)
        ensures
            appended(*old(blockchain), *final(blockchain), block, res),
            res is Err ==> *final(self) == *old(self),
            res is Ok ==> final(self).current_block.spec_bytes() == block.spec_bytes(),
            res is Ok ==> final(self).current_block.hash == block.hash,
            final(self).program_accounts == old(self).program_accounts,
    {
        let copy = block.clone();
        match blockchain.add_block(block) {
            Ok(_) => {
                self.current_block = copy;
                Ok(())
            },
            Err(e) => Err(e),
        }
    }
}

/// Stores an empty account under `owner` for the token program and for the
/// mint program, and returns the identities of the two.
pub fn create_essential_id(sys: &mut Sys, owner: Pubkey) -> (ids: (Pubkey, Pubkey))
    ensures
        ids.0@ == filled_key(1),
        ids.1@ == filled_key(2),
        final(sys).current_block == old(sys).current_block,
        final(sys).program_accounts@.dom() == old(sys).program_accounts@.dom().insert(
            filled_key(1),
        ).insert(filled_key(2)),
        final(sys).program_accounts@[filled_key(1)].owner == owner,
        final(sys).program_accounts@[filled_key(2)].owner == owner,
{
    let token = sys.create_account(owner, Vec::new(), 0, false, token_id());
    let mint = sys.create_account(owner, Vec::new(), 0, false, mint_id());
    proof {
        assert(filled_key(1)[0] != filled_key(2)[0]);
    }
    (token, mint)
}

} // verus!
