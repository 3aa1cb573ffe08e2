//! The block: a link to its parent, a timestamp, a payload with its Merkle
//! root, a seal, and the hash of all of that.

use vstd::prelude::*;
use vstd::string::StringExecFns;
use crate::decimal::{decimal_text, to_decimal, to_decimal_wide};
use crate::digest::{hash_to_hex, hex_text, sha256, zero_hash_bytes, Hashable};
use crate::keys::{Pubkey, Signature};
use crate::le_bytes::{le_bytes, u128_to_bytes, u64_to_bytes};
use crate::merkle::{merkle_root, spec_merkle_root};
use crate::pubkey_map::PubkeyMap;
use crate::transaction::Transaction;

verus! {

/// What the consensus rule attaches to a block.
#[derive(Debug, Clone, Copy, PartialEq, Eq, Structural)]
pub enum Seal {
    /// Proof of work: the value found by the search.
    Work { nonce: u64 },
    /// Stake and history: the stake carried over, the stake declared, and the
    /// height of the block.
    Stake { working_stake: u64, total_stake: u64, block_height: u64 },
}

/// The trailing bytes of a block: the numeric fields of its seal, each in
/// eight little-endian bytes.
pub open spec fn seal_bytes(seal: Seal) -> Seq<u8> {
    match seal {
        Seal::Work { nonce } => le_bytes(nonce as nat, 8),
        Seal::Stake { working_stake, total_stake, block_height } => le_bytes(
            working_stake as nat,
            8,
        ) + le_bytes(total_stake as nat, 8) + le_bytes(block_height as nat, 8),
    }
}

/// The bytes of reward entries: for each, the 32 bytes of the identity and
/// the amount in eight little-endian bytes.
pub open spec fn rewards_bytes(entries: Seq<(Pubkey, u64)>) -> Seq<u8>
    decreases entries.len(),
{
    if entries.len() == 0 {
        Seq::empty()
    } else {
        rewards_bytes(entries.drop_last()) + entries.last().0@ + le_bytes(
            entries.last().1 as nat,
            8,
        )
    }
}

/// The digests of the transactions of a payload, in order.
pub open spec fn payload_hashes(transactions: Seq<Transaction>) -> Seq<Seq<u8>> {
    Seq::new(transactions.len(), |i: int| sha256(transactions[i].spec_bytes()))
}

/// The Merkle root that a block must store for its payload: the aggregate of
/// the transactions' digests, or the zero sentinel where there are none.
pub open spec fn payload_root(transactions: Seq<Transaction>) -> Seq<u8> {
    if transactions.len() == 0 {
        zero_hash_bytes()
    } else {
        spec_merkle_root(payload_hashes(transactions))
    }
}

/// The Merkle root of a payload.
pub fn compute_payload_root(transactions: &Vec<Transaction>) -> (root: crate::digest::Hash)
    ensures
        root@ == payload_root(transactions@),
{
    if transactions.len() == 0 {
        return crate::digest::Hash::zero();
    }
    let mut leaves: Vec<crate::digest::Hash> = Vec::new();
    let mut i: usize = 0;
    while i < transactions.len()
        invariant
            0 <= i <= transactions@.len(),
            leaves@.len() == i,
            forall|j: int|
                0 <= j < i ==> (#[trigger] leaves@[j])@ == sha256(transactions@[j].spec_bytes()),
        decreases transactions@.len() - i,
    {
        let leaf = transactions[i].hash();
        leaves.push(leaf);
        i = i + 1;
    }
    assert(crate::merkle::hash_views(leaves@) =~= payload_hashes(transactions@));
    merkle_root(leaves.as_slice())
}

/// A block of the chain.
pub struct Block {
    /// The place kept for a signature over the block.
    pub signature: Signature,
    /// The block's place in the chain, counted from zero.
    pub index: u64,
    /// The time of the parent as the producer saw it.
    pub parent_timestamp: u128,
    /// The time at which the block was produced.
    pub timestamp: u128,
    /// The Merkle root of the payload.
    pub merkle_root: crate::digest::Hash,
    /// Whether validators have confirmed the block.
    pub is_confirmed: bool,
    /// The hash of the parent block, or the zero sentinel in a first block.
    pub prev_block_hash: crate::digest::Hash,
    /// The rewards that the block grants, by identity.
    pub rewards: PubkeyMap<u64>,
    /// The payload.
    pub transactions: Vec<Transaction>,
    /// What the consensus rule attached.
    pub seal: Seal,
    /// The digest of the block's canonical bytes, once it is sealed.
    pub hash: crate::digest::Hash,
}

impl Clone for Block {
    fn clone(&self) -> (copy: Self)
        ensures
            copy.signature == self.signature,
            copy.index == self.index,
            copy.parent_timestamp == self.parent_timestamp,
            copy.timestamp == self.timestamp,
            copy.merkle_root == self.merkle_root,
            copy.is_confirmed == self.is_confirmed,
            copy.prev_block_hash == self.prev_block_hash,
            copy.rewards.spec_entries() == self.rewards.spec_entries(),
            copy.transactions@.len() == self.transactions@.len(),
            forall|i: int|
                0 <= i < self.transactions@.len() ==> (#[trigger] copy.transactions@[i]).inputs@
                    == self.transactions@[i].inputs@ && copy.transactions@[i].outputs@
                    == self.transactions@[i].outputs@,
            copy.seal == self.seal,
            copy.hash == self.hash,
            copy.spec_bytes() == self.spec_bytes(),
    {
        let mut transactions: Vec<Transaction> = Vec::new();
        let mut i: usize = 0;
        while i < self.transactions.len()
            invariant
                0 <= i <= self.transactions@.len(),
                transactions@.len() == i,
                forall|j: int|
                    0 <= j < i ==> (#[trigger] transactions@[j]).inputs@
                        == self.transactions@[j].inputs@ && transactions@[j].outputs@
                        == self.transactions@[j].outputs@,
            decreases self.transactions@.len() - i,
        {
            transactions.push(self.transactions[i].clone());
            i = i + 1;
        }
        Block {
            signature: self.signature,
            index: self.index,
            parent_timestamp: self.parent_timestamp,
            timestamp: self.timestamp,
            merkle_root: self.merkle_root,
            is_confirmed: self.is_confirmed,
            prev_block_hash: self.prev_block_hash,
            rewards: self.rewards.clone(),
            transactions,
            seal: self.seal,
            hash: self.hash,
        }
    }
}

impl Hashable for Block {
    /// The canonical bytes of a block, without its own hash: the signature,
    /// the index, the parent's time, the timestamp, the Merkle root, the
    /// confirmation flag, the parent's hash, the rewards in byte order of the
    /// identities, and the numeric fields of the seal.
    open spec fn spec_bytes(&self) -> Seq<u8> {
        self.signature@ + le_bytes(self.index as nat, 8) + le_bytes(
            self.parent_timestamp as nat,
            16,
        ) + le_bytes(self.timestamp as nat, 16) + self.merkle_root@ + seq![
            if self.is_confirmed {
                1u8
            } else {
                0u8
            },
        ] + self.prev_block_hash@ + rewards_bytes(self.rewards.spec_entries()) + seal_bytes(
            self.seal,
        )
    }

    fn bytes(&self) -> (out: Vec<u8>) {
        let mut out: Vec<u8> = Vec::new();
        out.extend_from_slice(&self.signature.0);
        let index: [u8; 8] = u64_to_bytes(&self.index);
        out.extend_from_slice(&index);
        let parent_time: [u8; 16] = u128_to_bytes(&self.parent_timestamp);
        out.extend_from_slice(&parent_time);
        let time: [u8; 16] = u128_to_bytes(&self.timestamp);
        out.extend_from_slice(&time);
        out.extend_from_slice(&self.merkle_root.0);
        if self.is_confirmed {
            out.push(1u8);
        } else {
            out.push(0u8);
        }
        out.extend_from_slice(&self.prev_block_hash.0);
        let ghost head = out@;
        let ghost entries = self.rewards.spec_entries();
        let n: usize = self.rewards.len();
        let mut i: usize = 0;
        while i < n
            invariant
                0 <= i <= n,
                n == entries.len(),
                entries == self.rewards.spec_entries(),
                out@ == head + rewards_bytes(entries.take(i as int)),
            decreases n - i,
        {
            let e: (Pubkey, u64) = self.rewards.entry(i);
            let amount: [u8; 8] = u64_to_bytes(&e.1);
            proof {
                assert(entries.take(i + 1).drop_last() =~= entries.take(i as int));
                assert(entries.take(i + 1).last() == e);
                assert(head + rewards_bytes(entries.take(i as int)) + e.0@ + amount@ =~= head + (
                rewards_bytes(entries.take(i as int)) + e.0@ + amount@));
            }
            out.extend_from_slice(&e.0.0);
            out.extend_from_slice(&amount);
            i = i + 1;
        }
        assert(entries.take(entries.len() as int) =~= entries);
        match self.seal {
            Seal::Work { nonce } => {
                let tail: [u8; 8] = u64_to_bytes(&nonce);
                out.extend_from_slice(&tail);
            },
            Seal::Stake { working_stake, total_stake, block_height } => {
                let working: [u8; 8] = u64_to_bytes(&working_stake);
                let total: [u8; 8] = u64_to_bytes(&total_stake);
                let height: [u8; 8] = u64_to_bytes(&block_height);
                out.extend_from_slice(&working);
                out.extend_from_slice(&total);
                out.extend_from_slice(&height);
                assert(out@ =~= head + rewards_bytes(entries) + seal_bytes(self.seal));
            },
        }
        assert(out@ =~= self.spec_bytes());
        out
    }
}

impl Block {
    /// Whether the stored hash is the digest of the block's canonical bytes.
    pub open spec fn spec_hash_valid(&self) -> bool {
        self.hash@ == sha256(self.spec_bytes())
    }

    /// Whether the stored Merkle root is that of the payload.
    pub open spec fn spec_root_valid(&self) -> bool {
        self.merkle_root@ == payload_root(self.transactions@)
    }

    /// Assembles a candidate block: unsigned, unconfirmed, with the Merkle
    /// root of its payload and not yet hashed.
    pub fn new(
        index: u64,
        parent_timestamp: u128,
        timestamp: u128,
        prev_block_hash: crate::digest::Hash,
        rewards: PubkeyMap<u64>,
        transactions: Vec<Transaction>,
        seal: Seal,
    ) -> (block: Block)
        ensures
            block.signature@ == Seq::new(64, |i: int| 0u8),
            block.index == index,
            block.parent_timestamp == parent_timestamp,
            block.timestamp == timestamp,
            block.spec_root_valid(),
            !block.is_confirmed,
            block.prev_block_hash == prev_block_hash,
            block.rewards == rewards,
            block.transactions == transactions,
            block.seal == seal,
            block.hash@ == zero_hash_bytes(),
    {
        let merkle_root = compute_payload_root(&transactions);
        Block {
            signature: Signature::empty(),
            index,
            parent_timestamp,
            timestamp,
            merkle_root,
            is_confirmed: false,
            prev_block_hash,
            rewards,
            transactions,
            seal,
            hash: crate::digest::Hash::zero(),
        }
    }

    /// The block that a node holds before it has produced any: at place
    /// zero and time `timestamp`, with nothing in it, a stake seal of
    /// nothing, and zero hashes.
    pub fn default_at(timestamp: u128) -> (block: Block)
        ensures
            block.signature@ == Seq::new(64, |i: int| 0u8),
            block.index == 0,
            block.parent_timestamp == 0,
            block.timestamp == timestamp,
            block.merkle_root@ == zero_hash_bytes(),
            !block.is_confirmed,
            block.prev_block_hash@ == zero_hash_bytes(),
            block.rewards@ == Map::<Seq<u8>, u64>::empty(),
            block.transactions@ == Seq::<Transaction>::empty(),
            block.seal == (Seal::Stake { working_stake: 0, total_stake: 0, block_height: 0 }),
            block.hash@ == zero_hash_bytes(),
    {
        Block {
            signature: Signature::empty(),
            index: 0,
            parent_timestamp: 0,
            timestamp,
            merkle_root: crate::digest::Hash::zero(),
            is_confirmed: false,
            prev_block_hash: crate::digest::Hash::zero(),
            rewards: PubkeyMap::new(),
            transactions: Vec::new(),
            seal: Seal::Stake { working_stake: 0, total_stake: 0, block_height: 0 },
            hash: crate::digest::Hash::zero(),
        }
    }

    /// The line that describes the block: its place, its hash in
    /// hexadecimal and its time, and then, of a proof-of-work block, the
    /// number of its transactions and its nonce, and of a stake block its
    /// working and its total stake.
    pub open spec fn spec_describe(&self) -> Seq<char> {
        "Block["@ + decimal_text(self.index as nat) + "]: "@ + hex_text(self.hash@) + " at: "@
            + decimal_text(self.timestamp as nat) + " with: "@ + match self.seal {
            Seal::Work { nonce } => decimal_text(self.transactions@.len()) + " nonce: "@
                + decimal_text(nonce as nat),
            Seal::Stake { working_stake, total_stake, block_height } => decimal_text(
                working_stake as nat,
            ) + ", total: "@ + decimal_text(total_stake as nat),
        }
    }

    /// The line that describes the block.
    pub fn describe(&self) -> (line: String)
        ensures
            line@ == self.spec_describe(),
    {
        let head: String = String::from_str("Block[").concat(to_decimal(self.index).as_str()).concat(
            "]: ",
        ).concat(hash_to_hex(&self.hash).as_str()).concat(" at: ").concat(
            to_decimal_wide(self.timestamp).as_str(),
        ).concat(" with: ");
        let line: String = match self.seal {
            Seal::Work { nonce } => {
                let count: usize = self.transactions.len();
                head.concat(to_decimal(count as u64).as_str()).concat(" nonce: ").concat(
                    to_decimal(nonce).as_str(),
                )
            },
            Seal::Stake { working_stake, total_stake, block_height } => head.concat(
                to_decimal(working_stake).as_str(),
            ).concat(", total: ").concat(to_decimal(total_stake).as_str()),
        };
        assert(line@ =~= self.spec_describe());
        line
    }

    /// Appends a transaction to the payload and stores the new Merkle root.
    pub fn add_transaction(&mut self, transaction: Transaction)
        ensures
            final(self).transactions@ == old(self).transactions@.push(transaction),
            final(self).spec_root_valid(),
            final(self).signature == old(self).signature,
            final(self).index == old(self).index,
            final(self).parent_timestamp == old(self).parent_timestamp,
            final(self).timestamp == old(self).timestamp,
            final(self).is_confirmed == old(self).is_confirmed,
            final(self).prev_block_hash == old(self).prev_block_hash,
            final(self).rewards == old(self).rewards,
            final(self).seal == old(self).seal,
            final(self).hash == old(self).hash,
    {
        self.transactions.push(transaction);
        self.merkle_root = compute_payload_root(&self.transactions);
    }

    /// Stores the digest of the block's canonical bytes as its hash.
    pub fn seal_hash(&mut self)
        ensures
            final(self).spec_hash_valid(),
            final(self).spec_bytes() == old(self).spec_bytes(),
            *final(self) == (Block { hash: final(self).hash, ..*old(self) }),
    {
        self.hash = self.hash();
    }

    /// Whether the stored hash is the digest of the block's canonical bytes.
    pub fn hash_valid(&self) -> (valid: bool)
        ensures
            valid == self.spec_hash_valid(),
    {
        let h = self.hash();
        h == self.hash
    }

    /// Whether the stored Merkle root is that of the payload.
    pub fn root_valid(&self) -> (valid: bool)
        ensures
            valid == self.spec_root_valid(),
    {
        let root = compute_payload_root(&self.transactions);
        root == self.merkle_root
    }
}

impl Default for Block {
    /// The default block at the time the clock shows.
    fn default() -> (block: Block)
        ensures
            block.index == 0,
            block.rewards@ == Map::<Seq<u8>, u64>::empty(),
            block.transactions@ == Seq::<Transaction>::empty(),
            block.hash@ == zero_hash_bytes(),
    {
        Block::default_at(crate::clock::now())
    }
}

} // verus!
