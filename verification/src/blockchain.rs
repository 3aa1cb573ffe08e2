//! The ledger: an append-only chain of blocks with the state derived from
//! it, which takes a block only after the whole validation pipeline passed.

use vstd::prelude::*;
use crate::block::Block;
use crate::consensus::Consensus;
use crate::digest::zero_hash_bytes;
use crate::error::BlockValidationErr;
use crate::keys::{lex_lt, Pubkey};
use crate::payload::{apply_payload, spec_apply_payload};
use crate::pubkey_map::{
    entries_map,
    has_key,
    keys_sorted,
    lemma_drop_last_map,
    lemma_entry_in_map,
    PubkeyMap,
};
use crate::transaction::lemma_count_times_amount_fits;
use crate::stake::prior_reward;
use crate::utxo::{UtxoRecord, UtxoSet};

verus! {

/// The parent of the block that comes after `chain`, if there is one.
pub open spec fn parent_of(chain: Seq<Block>) -> Option<Block> {
    if chain.len() > 0 {
        Some(chain[chain.len() - 1])
    } else {
        None
    }
}

/// The unspent outputs that the payloads of `chain` leave, block by block.
pub open spec fn replay_utxos(chain: Seq<Block>) -> Seq<UtxoRecord>
    decreases chain.len(),
{
    if chain.len() == 0 {
        Seq::empty()
    } else {
        match spec_apply_payload(replay_utxos(chain.drop_last()), chain.last().transactions@) {
            Ok(after) => after,
            Err(_) => replay_utxos(chain.drop_last()),
        }
    }
}

/// The sum of the rewards that the blocks of `chain` grant the identity
/// `key`.
pub open spec fn reward_total(chain: Seq<Block>, key: Seq<u8>) -> nat
    decreases chain.len(),
{
    if chain.len() == 0 {
        0
    } else {
        reward_total(chain.drop_last(), key) + prior_reward(chain.last().rewards@, key) as nat
    }
}

/// What a map of cumulative rewards holds for `key`, nothing counting as
/// zero.
pub open spec fn reward_of(rewards: Map<Seq<u8>, u128>, key: Seq<u8>) -> nat {
    if rewards.contains_key(key) {
        rewards[key] as nat
    } else {
        0
    }
}

/// The first steps of the validation pipeline, which look at the block and
/// its parent alone.
///
/// 1. The block's index is the length of the chain.
/// 2. The consensus rule verifies the block against its parent.
/// 3. After a parent: under proof of work the block's time is not before the
///    parent's (stake and history has asked for more in step 2); and the
///    block names the parent's hash.
/// 4. In a first block: the parent hash is the zero sentinel.
/// 5. The stored Merkle root is that of the payload.
pub open spec fn spec_check_links(consensus: Consensus, chain: Seq<Block>, block: Block) -> Result<
    (),
    BlockValidationErr,
> {
    if block.index != chain.len() {
        Err(BlockValidationErr::MismatchedIndex)
    } else if consensus.spec_verify(block, parent_of(chain)) is Err {
        consensus.spec_verify(block, parent_of(chain))
    } else if chain.len() > 0 && consensus is ProofOfWork && block.timestamp
        < chain.last().timestamp {
        Err(BlockValidationErr::AchronologicalTimestamp)
    } else if chain.len() > 0 && block.prev_block_hash@ != chain.last().hash@ {
        Err(BlockValidationErr::MismatchedParentHash)
    } else if chain.len() == 0 && block.prev_block_hash@ != zero_hash_bytes() {
        Err(BlockValidationErr::InvalidGenesisFormat)
    } else if !block.spec_root_valid() {
        Err(BlockValidationErr::InvalidMerkleRoot)
    } else {
        Ok(())
    }
}

/// The validation pipeline: whether `block` may extend `chain` under
/// `consensus`, or the first reason for which it may not. After the steps of
/// `spec_check_links`, under proof of work, the payload must pass the rules
/// of the unspent outputs that the chain has left.
pub open spec fn spec_validate(consensus: Consensus, chain: Seq<Block>, block: Block) -> Result<
    (),
    BlockValidationErr,
> {
    if spec_check_links(consensus, chain, block) is Err {
        spec_check_links(consensus, chain, block)
    } else if consensus is ProofOfWork {
        match spec_apply_payload(replay_utxos(chain), block.transactions@) {
            Ok(_) => Ok(()),
            Err(e) => Err(e),
        }
    } else {
        Ok(())
    }
}

/// The rewards that `entries` grant the identity `key`.
pub open spec fn granted(entries: Seq<(Pubkey, u64)>, key: Seq<u8>) -> nat
    decreases entries.len(),
{
    if entries.len() == 0 {
        0
    } else {
        granted(entries.drop_last(), key) + if entries.last().0@ == key {
            entries.last().1 as nat
        } else {
            0
        }
    }
}

/// Sorted entries grant an identity what their map holds for it.
pub proof fn lemma_granted_is_reward(entries: Seq<(Pubkey, u64)>, key: Seq<u8>)
    requires
        keys_sorted(entries),
    ensures
        granted(entries, key) == prior_reward(entries_map(entries), key),
    decreases entries.len(),
{
    if entries.len() == 0 {
        assert(!has_key(entries, key));
    } else {
        let front = entries.drop_last();
        let last = entries.len() - 1;
        lemma_drop_last_map(entries);
        assert(keys_sorted(front)) by {
            assert forall|i: int, j: int| 0 <= i < j < front.len() implies lex_lt(
                (#[trigger] front[i]).0@,
                (#[trigger] front[j]).0@,
            ) by {
                assert(lex_lt(entries[i].0@, entries[j].0@));
            }
        }
        lemma_granted_is_reward(front, key);
        lemma_entry_in_map(entries, last);
        if entries.last().0@ == key {
            assert(!entries_map(front).contains_key(key));
        } else {
            assert(entries_map(front).contains_key(key) == entries_map(entries).contains_key(key));
            if entries_map(front).contains_key(key) {
                assert(entries_map(front)[key] == entries_map(entries)[key]);
            }
        }
    }
}

/// The sum of an identity's rewards over `n` blocks is at most `n` times the
/// largest reward.
pub proof fn lemma_reward_total_bound(chain: Seq<Block>, key: Seq<u8>)
    ensures
        reward_total(chain, key) <= chain.len() * 0xffff_ffff_ffff_ffff,
    decreases chain.len(),
{
    if chain.len() > 0 {
        lemma_reward_total_bound(chain.drop_last(), key);
        assert((chain.len() - 1) * 0xffff_ffff_ffff_ffff + 0xffff_ffff_ffff_ffff == chain.len()
            * 0xffff_ffff_ffff_ffff) by (nonlinear_arith);
    }
}

/// Whether each block of `chain` passed the validation pipeline against the
/// blocks before it.
#[verifier::opaque]
pub open spec fn chain_valid(consensus: Consensus, chain: Seq<Block>) -> bool {
    forall|i: int|
        0 <= i < chain.len() ==> spec_validate(consensus, chain.take(i), #[trigger] chain[i])
            is Ok
}

/// Whether `rewards` holds for each identity the sum of what the blocks of
/// `chain` grant it.
#[verifier::opaque]
pub open spec fn rewards_match(rewards: Map<Seq<u8>, u128>, chain: Seq<Block>) -> bool {
    forall|key: Seq<u8>| #[trigger] reward_of(rewards, key) == reward_total(chain, key)
}

/// Whether `after` and `res` are what submitting `block` to the ledger
/// `before` comes to.
///
/// The result is that of the validation pipeline. A refusal changes
/// nothing. On success the block is the new last block; under proof of work
/// the unspent outputs are then those that the block's payload leaves, and
/// under stake and history each identity's cumulative reward has grown by
/// what the block grants it.
pub open spec fn appended(
    before: Blockchain,
    after: Blockchain,
    block: Block,
    res: Result<(), BlockValidationErr>,
) -> bool {
    &&& res == spec_validate(before.spec_consensus(), before.spec_chain(), block)
    &&& res is Err ==> after == before
    &&& after.spec_consensus() == before.spec_consensus()
    &&& res is Ok ==> after.spec_chain() == before.spec_chain().push(block)
    &&& res is Ok && before.spec_consensus() is ProofOfWork ==> {
        &&& spec_apply_payload(before.spec_utxos(), block.transactions@) == Ok::<
            Seq<UtxoRecord>,
            BlockValidationErr,
        >(after.spec_utxos())
        &&& after.spec_rewards() == before.spec_rewards()
    }
    &&& res is Ok && before.spec_consensus() is StakeAndHistory ==> {
        &&& after.spec_utxos() == before.spec_utxos()
        &&& forall|key: Seq<u8>|
            #[trigger] reward_of(after.spec_rewards(), key) == reward_of(
                before.spec_rewards(),
                key,
            ) + prior_reward(block.rewards@, key)
    }
}

/// The ledger.
pub struct Blockchain {
    chain: Vec<Block>,
    consensus: Consensus,
    utxo_set: UtxoSet,
    rewards: PubkeyMap<u128>,
}

impl Blockchain {
    /// The committed blocks, oldest first.
    pub closed spec fn spec_chain(&self) -> Seq<Block> {
        self.chain@
    }

    /// The consensus rule that the chain was made with.
    pub closed spec fn spec_consensus(&self) -> Consensus {
        self.consensus
    }

    /// The unspent outputs.
    pub closed spec fn spec_utxos(&self) -> Seq<UtxoRecord> {
        self.utxo_set@
    }

    /// The cumulative rewards.
    pub closed spec fn spec_rewards(&self) -> Map<Seq<u8>, u128> {
        self.rewards@
    }

    /// What always holds of a ledger: every committed block passed the
    /// pipeline; under proof of work the unspent outputs are those that the
    /// committed payloads leave, and no rewards are kept; under stake and
    /// history no outputs are kept, and each identity's cumulative reward is
    /// the sum of its rewards over the committed blocks.
    #[verifier::type_invariant]
    pub open spec fn wf(&self) -> bool {
        &&& chain_valid(self.spec_consensus(), self.spec_chain())
        &&& match self.spec_consensus() {
            Consensus::ProofOfWork(_) => {
                &&& self.spec_utxos() == replay_utxos(self.spec_chain())
                &&& self.spec_rewards() == Map::<Seq<u8>, u128>::empty()
            },
            Consensus::StakeAndHistory => {
                &&& self.spec_utxos() == Seq::<UtxoRecord>::empty()
                &&& rewards_match(self.spec_rewards(), self.spec_chain())
            },
        }
    }

    /// An empty chain under the consensus rule `consensus`.
    pub fn new(consensus: Consensus) -> (ledger: Self)
        ensures
            ledger.spec_chain() == Seq::<Block>::empty(),
            ledger.spec_consensus() == consensus,
            ledger.spec_utxos() == Seq::<UtxoRecord>::empty(),
            ledger.spec_rewards() == Map::<Seq<u8>, u128>::empty(),
            ledger.wf(),
    {
        let chain: Vec<Block> = Vec::new();
        let utxo_set = UtxoSet::new();
        let rewards: PubkeyMap<u128> = PubkeyMap::new();
        proof {
            reveal(chain_valid);
            reveal(rewards_match);
            assert(chain_valid(consensus, chain@));
            assert(rewards_match(rewards@, chain@));
        }
        Blockchain { chain, consensus, utxo_set, rewards }
    }

    /// The number of committed blocks.
    pub fn len(&self) -> (n: usize)
        ensures
            n == self.spec_chain().len(),
    {
        self.chain.len()
    }

    /// The committed block at place `i`.
    pub fn block(&self, i: usize) -> (b: &Block)
        requires
            i < self.spec_chain().len(),
        ensures
            *b == self.spec_chain()[i as int],
    {
        &self.chain[i]
    }

    /// The consensus rule of the chain.
    pub fn consensus(&self) -> (c: Consensus)
        ensures
            c == self.spec_consensus(),
    {
        self.consensus
    }

    /// The unspent outputs.
    pub fn utxo_set(&self) -> (set: &UtxoSet)
        ensures
            set@ == self.spec_utxos(),
    {
        &self.utxo_set
    }

    /// The cumulative reward of `pubkey`: the sum of what the committed
    /// blocks grant it.
    pub fn get_balance(&self, pubkey: Pubkey) -> (balance: u128)
        ensures
            balance == reward_of(self.spec_rewards(), pubkey@),
            self.spec_consensus() is StakeAndHistory ==> balance == reward_total(
                self.spec_chain(),
                pubkey@,
            ),
    {
        proof {
            use_type_invariant(self);
            if self.consensus is StakeAndHistory {
                reveal(rewards_match);
                assert(reward_of(self.rewards@, pubkey@) == reward_total(self.chain@, pubkey@));
            }
        }
        match self.rewards.get(&pubkey) {
            Some(r) => r,
            None => 0,
        }
    }

    fn check_links(&self, block: &Block) -> (res: Result<(), BlockValidationErr>)
        ensures
            res == spec_check_links(self.spec_consensus(), self.spec_chain(), *block),
    {
        let n: usize = self.chain.len();
        if block.index != n as u64 {
            return Err(BlockValidationErr::MismatchedIndex);
        }
        let parent: Option<&Block> = if n > 0 {
            Some(&self.chain[n - 1])
        } else {
            None
        };
        match self.consensus.verify(block, parent) {
            Ok(_) => {},
            Err(e) => {
                return Err(e);
            },
        }
        match parent {
            Some(p) => {
                match self.consensus {
                    Consensus::ProofOfWork(_) => {
                        if block.timestamp < p.timestamp {
                            return Err(BlockValidationErr::AchronologicalTimestamp);
                        }
                    },
                    Consensus::StakeAndHistory => {},
                }
                if block.prev_block_hash != p.hash {
                    return Err(BlockValidationErr::MismatchedParentHash);
                }
            },
            None => {
                if !block.prev_block_hash.is_zero() {
                    return Err(BlockValidationErr::InvalidGenesisFormat);
                }
            },
        }
        if !block.root_valid() {
            return Err(BlockValidationErr::InvalidMerkleRoot);
        }
        Ok(())
    }

    /// Runs the validation pipeline on `block` without changing anything.
    pub fn validate(&self, block: &Block) -> (res: Result<(), BlockValidationErr>)
        ensures
            res == spec_validate(self.spec_consensus(), self.spec_chain(), *block),
    {
        proof {
            use_type_invariant(self);
        }
        match self.check_links(block) {
            Ok(_) => {},
            Err(e) => {
                return Err(e);
            },
        }
        match self.consensus {
            Consensus::ProofOfWork(_) => {
                match apply_payload(&self.utxo_set, &block.transactions) {
                    Ok(_) => Ok(()),
                    Err(e) => Err(e),
                }
            },
            Consensus::StakeAndHistory => Ok(()),
        }
    }

    /// Appends `block` if it passes the validation pipeline, and else
    /// changes nothing and gives the first reason for the refusal.
    ///
    /// On success the block is the new last block. Under proof of work the
    /// unspent outputs are then those that the block's payload leaves; under
    /// stake and history each identity's cumulative reward has grown by what
    /// the block grants it.
    pub fn update_with_block(&mut self, block: Block) -> (res: Result<(), BlockValidationErr>)
        ensures
            appended(*old(self), *final(self), block, res),
            final(self).wf(),
    {
        proof {
            use_type_invariant(&*self);
        }
        match self.check_links(&block) {
            Ok(_) => {},
            Err(e) => {
                return Err(e);
            },
        }
        let consensus = self.consensus;
        let ghost before = self.chain@;
        let ghost rewards_before = self.rewards@;
        match consensus {
            Consensus::ProofOfWork(_) => {
                let after: UtxoSet = match apply_payload(&self.utxo_set, &block.transactions) {
                    Ok(after) => after,
                    Err(e) => {
                        return Err(e);
                    },
                };
                let mut taken = Blockchain::new(consensus);
                core::mem::swap(self, &mut taken);
                let Blockchain { chain, consensus: _, utxo_set: _, rewards } = taken;
                let mut chain = chain;
                chain.push(block);
                proof {
                    lemma_chain_valid_push(consensus, before, block);
                    assert(chain@.drop_last() =~= before);
                }
                *self = Blockchain { chain, consensus, utxo_set: after, rewards };
                Ok(())
            },
            Consensus::StakeAndHistory => {
                let mut taken = Blockchain::new(consensus);
                core::mem::swap(self, &mut taken);
                let Blockchain { chain, consensus: _, utxo_set, rewards } = taken;
                let mut chain = chain;
                let mut rewards = rewards;
                let held: usize = chain.len();
                proof {
                    use_type_invariant(&block.rewards);
                }
                let ghost entries = block.rewards.spec_entries();
                let n: usize = block.rewards.len();
                let mut i: usize = 0;
                while i < n
                    invariant
                        0 <= i <= n,
                        n == entries.len(),
                        entries == block.rewards.spec_entries(),
                        keys_sorted(entries),
                        held == before.len(),
                        rewards_match(rewards_before, before),
                        forall|key: Seq<u8>|
                            #[trigger] reward_of(rewards@, key) == reward_of(rewards_before, key)
                                + granted(entries.take(i as int), key),
                    decreases n - i,
                {
                    let e: (Pubkey, u64) = block.rewards.entry(i);
                    let so_far: u128 = match rewards.get(&e.0) {
                        Some(r) => r,
                        None => 0,
                    };
                    proof {
                        reveal(rewards_match);
                        assert(entries.take(i + 1).drop_last() =~= entries.take(i as int));
                        assert(entries.take(i + 1).last() == e);
                        lemma_granted_absent(entries, i as int);
                        assert(so_far == reward_of(rewards@, e.0@));
                        assert(reward_of(rewards_before, e.0@) == reward_total(before, e.0@));
                        lemma_reward_total_bound(before, e.0@);
                        lemma_count_times_amount_fits(held as nat);
                    }
                    let ghost earlier = rewards@;
                    rewards.insert(e.0, so_far + e.1 as u128);
                    proof {
                        assert forall|key: Seq<u8>| #[trigger]
                            reward_of(rewards@, key) == reward_of(rewards_before, key) + granted(
                                entries.take(i + 1),
                                key,
                            ) by {
                            assert(reward_of(earlier, key) == reward_of(rewards_before, key)
                                + granted(entries.take(i as int), key));
                        }
                    }
                    i = i + 1;
                }
                chain.push(block);
                proof {
                    assert(entries.take(entries.len() as int) =~= entries);
                    lemma_chain_valid_push(consensus, before, block);
                    assert(chain@.drop_last() =~= before);
                    reveal(rewards_match);
                    assert forall|key: Seq<u8>| #[trigger]
                        reward_of(rewards@, key) == reward_total(chain@, key) by {
                        lemma_granted_is_reward(entries, key);
                        assert(reward_of(rewards_before, key) == reward_total(before, key));
                    }
                    assert(rewards_match(rewards@, chain@));
                    assert forall|key: Seq<u8>| #[trigger]
                        reward_of(rewards@, key) == reward_of(rewards_before, key) + prior_reward(
                            block.rewards@,
                            key,
                        ) by {
                        lemma_granted_is_reward(entries, key);
                    }
                }
                *self = Blockchain { chain, consensus, utxo_set, rewards };
                Ok(())
            },
        }
    }

    /// Submits a sealed block: the producer's name for `update_with_block`.
    pub fn add_block(&mut self, block: Block) -> (res: Result<(), BlockValidationErr>)
        ensures
            appended(*old(self), *final(self), block, res),
            final(self).wf(),
    {
        self.update_with_block(block)
    }
}

/// In sorted entries, the entries before a place grant nothing to the
/// identity at that place.
pub proof fn lemma_granted_absent(entries: Seq<(Pubkey, u64)>, i: int)
    requires
        keys_sorted(entries),
        0 <= i < entries.len(),
    ensures
        granted(entries.take(i), entries[i].0@) == 0,
    decreases i,
{
    if i > 0 {
        assert(entries.take(i).drop_last() =~= entries.take(i - 1));
        assert(entries.take(i).last() == entries[i - 1]);
        assert(lex_lt(entries[i - 1].0@, entries[i].0@));
        crate::keys::lemma_lex_irreflexive(entries[i].0@);
        lemma_granted_absent_before(entries, i - 1, i);
    }
}

/// In sorted entries, the entries before a place grant nothing to an
/// identity that stands later.
pub proof fn lemma_granted_absent_before(entries: Seq<(Pubkey, u64)>, upto: int, i: int)
    requires
        keys_sorted(entries),
        0 <= upto <= i < entries.len(),
    ensures
        granted(entries.take(upto), entries[i].0@) == 0,
    decreases upto,
{
    if upto > 0 {
        assert(entries.take(upto).drop_last() =~= entries.take(upto - 1));
        assert(entries.take(upto).last() == entries[upto - 1]);
        assert(lex_lt(entries[upto - 1].0@, entries[i].0@));
        crate::keys::lemma_lex_irreflexive(entries[i].0@);
        lemma_granted_absent_before(entries, upto - 1, i);
    }
}

/// A valid chain stays valid when a block that passes the pipeline against
/// it is appended.
pub proof fn lemma_chain_valid_push(consensus: Consensus, chain: Seq<Block>, block: Block)
    requires
        chain_valid(consensus, chain),
        spec_validate(consensus, chain, block) is Ok,
    ensures
        chain_valid(consensus, chain.push(block)),
{
    reveal(chain_valid);
    let longer = chain.push(block);
    assert forall|i: int| 0 <= i < longer.len() implies spec_validate(
        consensus,
        longer.take(i),
        #[trigger] longer[i],
    ) is Ok by {
        if i < chain.len() {
            assert(longer.take(i) =~= chain.take(i));
            assert(longer[i] == chain[i]);
        } else {
            assert(longer.take(i) =~= chain);
        }
    }
}

} // verus!
