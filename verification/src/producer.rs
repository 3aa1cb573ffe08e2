//! The producer's side: assembling a candidate block that pays an amount out
//! of selected unspent outputs.

use vstd::prelude::*;
use vstd::string::StringExecFns;
use crate::block::{Block, Seal};
use crate::blockchain::{parent_of, Blockchain};
use crate::clock::now;
use crate::consensus::owned_parent;
use crate::digest::zero_hash_bytes;
use crate::error::BlockValidationErr;
use crate::pubkey_map::PubkeyMap;
use crate::transaction::{Input, Output, Transaction};
use crate::utxo::{
    select_largest_first,
    selected_record,
    selected_records,
    total_value,
    UtxoRecord,
};

verus! {

/// What a block grants its producer.
pub const BLOCK_REWARD: u64 = 7;

/// The address that the producer's reward is paid to.
pub open spec fn coinbase_address() -> Seq<char> {
    "coinbase_miner"@
}

/// The lesser of two amounts.
pub open spec fn at_most(a: nat, b: nat) -> nat {
    if a <= b {
        a
    } else {
        b
    }
}

/// What the input at place `k` pays towards `amount`: the inputs pay in
/// order, each as much as is still owed and it can give.
pub open spec fn share(inputs: Seq<UtxoRecord>, amount: nat, k: int) -> nat {
    (at_most(amount, total_value(inputs.take(k + 1))) - at_most(
        amount,
        total_value(inputs.take(k)),
    )) as nat
}

/// Whether `tx` spends exactly the unspent output `record` to pay `paid` to
/// `recipient`, and returns the rest, if there is any, to `sender`.
pub open spec fn is_payment(
    tx: Transaction,
    record: UtxoRecord,
    sender: Seq<char>,
    recipient: Seq<char>,
    paid: nat,
) -> bool {
    &&& tx.inputs@.len() == 1
    &&& tx.inputs@[0].key() == record.key()
    &&& tx.inputs@[0].output.value == record.value
    &&& tx.inputs@[0].output.to_addr@ == record.script_pubkey
    &&& paid <= record.value
    &&& tx.outputs@.len() == if record.value > paid {
        2nat
    } else {
        1nat
    }
    &&& tx.outputs@[0].to_addr@ == recipient
    &&& tx.outputs@[0].value == paid
    &&& record.value > paid ==> tx.outputs@[1].to_addr@ == sender && tx.outputs@[1].value
        == record.value - paid
}

/// Whether `tx` is the producer's coinbase: nothing spent, and the block
/// reward paid to the coinbase address.
pub open spec fn is_reward(tx: Transaction) -> bool {
    &&& tx.inputs@.len() == 0
    &&& tx.outputs@.len() == 1
    &&& tx.outputs@[0].to_addr@ == coinbase_address()
    &&& tx.outputs@[0].value == BLOCK_REWARD
}

/// Whether `block` is the candidate that follows `parent` at `timestamp` and
/// pays `amount` from `sender` to `recipient` out of the unspent outputs
/// `inputs`: a coinbase first, then one payment for each input; a
/// proof-of-work seal whose search has not begun; no rewards; unsigned,
/// unconfirmed and not yet hashed; and the Merkle root of its payload.
pub open spec fn is_candidate(
    block: Block,
    parent: Option<Block>,
    timestamp: u128,
    sender: Seq<char>,
    recipient: Seq<char>,
    amount: u64,
    inputs: Seq<UtxoRecord>,
) -> bool {
    &&& match parent {
        Some(p) => block.index == p.index + 1 && block.parent_timestamp == p.timestamp
            && block.prev_block_hash@ == p.hash@,
        None => block.index == 0 && block.parent_timestamp == 0 && block.prev_block_hash@
            == zero_hash_bytes(),
    }
    &&& block.timestamp == timestamp
    &&& block.signature@ == Seq::new(64, |i: int| 0u8)
    &&& !block.is_confirmed
    &&& block.rewards@ == Map::<Seq<u8>, u64>::empty()
    &&& block.seal == (Seal::Work { nonce: 0 })
    &&& block.hash@ == zero_hash_bytes()
    &&& block.spec_root_valid()
    &&& block.transactions@.len() == inputs.len() + 1
    &&& is_reward(block.transactions@[0])
    &&& forall|k: int|
        0 <= k < inputs.len() ==> is_payment(
            #[trigger] block.transactions@[k + 1],
            inputs[k],
            sender,
            recipient,
            share(inputs, amount as nat, k),
        )
}

/// Assembles the candidate block that follows `parent` at `timestamp` and
/// pays `amount` from `sender` to `recipient` out of the unspent outputs
/// `inputs`. The parent's index must leave room for one more.
pub fn spawn_block(
    parent: Option<&Block>,
    timestamp: u128,
    sender: &String,
    recipient: &String,
    amount: u64,
    inputs: &Vec<(String, usize, u64, String)>,
) -> (block: Block)
    requires
        parent matches Some(p) ==> p.index < u64::MAX,
    ensures
        is_candidate(
            block,
            owned_parent(parent),
            timestamp,
            sender@,
            recipient@,
            amount,
            selected_records(inputs@),
        ),
{
    let ghost records = selected_records(inputs@);
    let mut transactions: Vec<Transaction> = Vec::new();
    let mut reward_outputs: Vec<Output> = Vec::new();
    reward_outputs.push(Output { to_addr: String::from_str("coinbase_miner"), value: BLOCK_REWARD });
    transactions.push(Transaction { inputs: Vec::new(), outputs: reward_outputs });
    let mut remaining: u64 = amount;
    let mut k: usize = 0;
    assert(records.take(0) =~= Seq::<UtxoRecord>::empty());
    while k < inputs.len()
        invariant
            0 <= k <= inputs@.len(),
            records == selected_records(inputs@),
            transactions@.len() == k + 1,
            is_reward(transactions@[0]),
            remaining == amount - at_most(amount as nat, total_value(records.take(k as int))),
            forall|m: int|
                0 <= m < k ==> is_payment(
                    #[trigger] transactions@[m + 1],
                    records[m],
                    sender@,
                    recipient@,
                    share(records, amount as nat, m),
                ),
        decreases inputs@.len() - k,
    {
        let selected = &inputs[k];
        let value: u64 = selected.2;
        proof {
            assert(records[k as int] == selected_record(*selected));
            assert(records.take(k + 1).drop_last() =~= records.take(k as int));
            assert(records.take(k + 1).last() == records[k as int]);
        }
        let paid: u64 = if value < remaining {
            value
        } else {
            remaining
        };
        let mut outputs: Vec<Output> = Vec::new();
        outputs.push(Output { to_addr: recipient.clone(), value: paid });
        if value > paid {
            outputs.push(Output { to_addr: sender.clone(), value: value - paid });
        }
        let mut spent: Vec<Input> = Vec::new();
        spent.push(
            Input {
                output: Output { to_addr: selected.3.clone(), value },
                txid: selected.0.clone(),
                index: selected.1,
            },
        );
        let ghost done = transactions@;
        transactions.push(Transaction { inputs: spent, outputs });
        remaining = remaining - paid;
        proof {
            assert(paid == share(records, amount as nat, k as int));
            assert forall|m: int| 0 <= m < k + 1 implies is_payment(
                #[trigger] transactions@[m + 1],
                records[m],
                sender@,
                recipient@,
                share(records, amount as nat, m),
            ) by {
                if m < k {
                    assert(transactions@[m + 1] == done[m + 1]);
                }
            }
        }
        k = k + 1;
    }
    let index: u64 = match parent {
        Some(p) => p.index + 1,
        None => 0,
    };
    let parent_timestamp: u128 = match parent {
        Some(p) => p.timestamp,
        None => 0,
    };
    let prev_block_hash: crate::digest::Hash = match parent {
        Some(p) => p.hash,
        None => crate::digest::Hash::zero(),
    };
    Block::new(
        index,
        parent_timestamp,
        timestamp,
        prev_block_hash,
        PubkeyMap::new(),
        transactions,
        Seal::Work { nonce: 0 },
    )
}

impl Blockchain {
    /// Assembles, at `timestamp`, the candidate that follows the last block
    /// and pays `amount` from `sender` to `recipient` out of the unspent
    /// outputs that the ledger selects for it, largest first. Where the
    /// unspent outputs do not reach the amount, the error is
    /// `InsufficientFunds`.
    pub fn spawn_block_at(
        &self,
        timestamp: u128,
        sender: &String,
        recipient: &String,
        amount: u64,
    ) -> (res: Result<Block, BlockValidationErr>)
        ensures
            res is Ok <==> total_value(self.spec_utxos()) >= amount,
            res is Err ==> res == Err::<Block, BlockValidationErr>(
                BlockValidationErr::InsufficientFunds,
            ),
            res matches Ok(block) ==> is_candidate(
                block,
                parent_of(self.spec_chain()),
                timestamp,
                sender@,
                recipient@,
                amount,
                select_largest_first(self.spec_utxos(), amount as nat, 0),
            ),
    {
        let inputs = match self.utxo_set().get_optimal_inputs(amount) {
            Ok(inputs) => inputs,
            Err(e) => {
                return Err(e);
            },
        };
        let n: usize = self.len();
        if n > 0 {
            let parent: &Block = self.block(n - 1);
            proof {
                use_type_invariant(self);
                crate::laws::lemma_block_checked(
                    self.spec_consensus(),
                    self.spec_chain(),
                    n - 1,
                );
            }
            Ok(spawn_block(Some(parent), timestamp, sender, recipient, amount, &inputs))
        } else {
            Ok(spawn_block(None, timestamp, sender, recipient, amount, &inputs))
        }
    }

    /// Assembles the candidate that follows the last block, at the time the
    /// clock shows: see `spawn_block_at`.
    pub fn spawn_block(&self, sender: &String, recipient: &String, amount: u64) -> (res: Result<
        Block,
        BlockValidationErr,
    >)
        ensures
            res is Ok <==> total_value(self.spec_utxos()) >= amount,
            res is Err ==> res == Err::<Block, BlockValidationErr>(
                BlockValidationErr::InsufficientFunds,
            ),
            res matches Ok(block) ==> is_candidate(
                block,
                parent_of(self.spec_chain()),
                block.timestamp,
                sender@,
                recipient@,
                amount,
                select_largest_first(self.spec_utxos(), amount as nat, 0),
            ),
    {
        let timestamp: u128 = now();
        self.spawn_block_at(timestamp, sender, recipient, amount)
    }
}

} // verus!
