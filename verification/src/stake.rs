//! Stake and history: the strictly increasing clock, and the majority of
//! stake that a block must carry over from its parent.

use vstd::prelude::*;
use crate::block::Block;
use crate::keys::Pubkey;
use crate::transaction::lemma_count_times_amount_fits;

verus! {

/// The reward that `previous` holds for the identity `key`, nothing counting
/// as zero.
pub open spec fn prior_reward(previous: Map<Seq<u8>, u64>, key: Seq<u8>) -> u64 {
    if previous.contains_key(key) {
        previous[key]
    } else {
        0
    }
}

/// The lesser of two rewards.
pub open spec fn lesser(a: u64, b: u64) -> u64 {
    if a <= b {
        a
    } else {
        b
    }
}

/// The working stake of one identity: the lesser of its new and its previous
/// reward where the new one did not decrease, and the previous reward
/// otherwise.
pub open spec fn working_stake_of(new_reward: u64, previous_reward: u64) -> u64 {
    if new_reward >= previous_reward {
        lesser(new_reward, previous_reward)
    } else {
        previous_reward
    }
}

/// The working stake of an identity is what it held before, whichever way
/// its reward moved.
pub proof fn lemma_working_stake_is_previous(new_reward: u64, previous_reward: u64)
    ensures
        working_stake_of(new_reward, previous_reward) == previous_reward,
{
}

/// The working stake of all identities of `entries` against the rewards
/// `previous`.
pub open spec fn working_stake(entries: Seq<(Pubkey, u64)>, previous: Map<Seq<u8>, u64>) -> nat
    decreases entries.len(),
{
    if entries.len() == 0 {
        0
    } else {
        working_stake(entries.drop_last(), previous) + working_stake_of(
            entries.last().1,
            prior_reward(previous, entries.last().0@),
        ) as nat
    }
}

/// The stake that `entries` declare: the sum of their rewards.
pub open spec fn declared_stake(entries: Seq<(Pubkey, u64)>) -> nat
    decreases entries.len(),
{
    if entries.len() == 0 {
        0
    } else {
        declared_stake(entries.drop_last()) + entries.last().1 as nat
    }
}

/// Whether the working stake exceeds half of the declared stake.
pub open spec fn stake_majority(entries: Seq<(Pubkey, u64)>, previous: Map<Seq<u8>, u64>) -> bool {
    2 * working_stake(entries, previous) > declared_stake(entries)
}

/// Sums of `n` rewards are at most `n` times the largest reward.
pub proof fn lemma_stake_bounds(entries: Seq<(Pubkey, u64)>, previous: Map<Seq<u8>, u64>)
    ensures
        working_stake(entries, previous) <= entries.len() * 0xffff_ffff_ffff_ffff,
        declared_stake(entries) <= entries.len() * 0xffff_ffff_ffff_ffff,
    decreases entries.len(),
{
    if entries.len() > 0 {
        lemma_stake_bounds(entries.drop_last(), previous);
        assert((entries.len() - 1) * 0xffff_ffff_ffff_ffff + 0xffff_ffff_ffff_ffff
            == entries.len() * 0xffff_ffff_ffff_ffff) by (nonlinear_arith);
    }
}

impl Block {
    /// Whether the block's time is strictly after its parent's and its stored
    /// hash is the digest of its bytes.
    pub open spec fn spec_verify_poh(&self, parent: &Block) -> bool {
        self.timestamp > parent.timestamp && self.spec_hash_valid()
    }

    /// Whether the block carries over a majority of stake from
    /// `previous_block`.
    pub open spec fn spec_verify_pos(&self, previous_block: &Block) -> bool {
        stake_majority(self.rewards.spec_entries(), previous_block.rewards@)
    }

    /// Proof of stake: whether the working stake of the block's rewards
    /// against those of `previous_block` exceeds half of the stake that the
    /// block declares.
    pub fn verify_pos(&self, previous_block: &Block) -> (majority: bool)
        ensures
            majority == self.spec_verify_pos(previous_block),
    {
        let ghost entries = self.rewards.spec_entries();
        let ghost previous = previous_block.rewards@;
        let n: usize = self.rewards.len();
        let mut total_stake: u128 = 0;
        let mut working: u128 = 0;
        let mut i: usize = 0;
        while i < n
            invariant
                0 <= i <= n,
                n == entries.len(),
                entries == self.rewards.spec_entries(),
                previous == previous_block.rewards@,
                total_stake == declared_stake(entries.take(i as int)),
                working == working_stake(entries.take(i as int), previous),
            decreases n - i,
        {
            let e: (Pubkey, u64) = self.rewards.entry(i);
            let before: u64 = match previous_block.rewards.get(&e.0) {
                Some(r) => r,
                None => 0,
            };
            proof {
                assert(entries.take(i + 1).drop_last() =~= entries.take(i as int));
                assert(entries.take(i + 1).last() == e);
                lemma_stake_bounds(entries.take(i as int), previous);
                lemma_count_times_amount_fits(i as nat);
            }
            total_stake = total_stake + e.1 as u128;
            if e.1 >= before {
                if e.1 <= before {
                    working = working + e.1 as u128;
                } else {
                    working = working + before as u128;
                }
            } else {
                working = working + before as u128;
            }
            i = i + 1;
        }
        proof {
            assert(entries.take(entries.len() as int) =~= entries);
            lemma_stake_bounds(entries, previous);
            lemma_count_times_amount_fits(n as nat);
        }
        working > total_stake / 2
    }

    /// Proof of history: whether the block's time is strictly after
    /// `parent`'s and its stored hash is the digest of its bytes.
    pub fn verify_poh(&self, parent: &Block) -> (holds: bool)
        ensures
            holds == self.spec_verify_poh(parent),
    {
        if self.timestamp <= parent.timestamp {
            return false;
        }
        self.hash_valid()
    }
}

} // verus!
