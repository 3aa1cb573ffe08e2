//! The message that a signed transaction carries.

use vstd::prelude::*;
use crate::digest::Hashable;
use crate::keys::{Pubkey, Signature};
use crate::le_bytes::{le_bytes, u64_to_bytes};

verus! {

/// How many of a message's accounts sign it, and how many only read.
#[derive(Debug, Clone, Copy, PartialEq, Eq, Structural)]
pub struct MessageHeader {
    pub num_required_signatures: u8,
    pub num_readonly_signed_accounts: u8,
    pub num_readonly_unsigned_accounts: u8,
}

/// One instruction of a message: which program runs it, on which accounts,
/// with which data.
#[derive(Debug)]
pub struct CompiledInstruction {
    pub program_id_index: u8,
    pub accounts: Vec<u8>,
    pub data: Vec<u8>,
}

/// A message: its header, the accounts it depends on, and a recent block
/// hash that keeps it from being replayed.
#[derive(Debug)]
pub struct Message {
    pub header: MessageHeader,
    pub account_keys: Vec<Pubkey>,
    pub recent_blockhash: crate::digest::Hash,
}

/// The bytes of `signatures`, one after the other.
pub open spec fn signatures_bytes(signatures: Seq<Signature>) -> Seq<u8>
    decreases signatures.len(),
{
    if signatures.len() == 0 {
        Seq::empty()
    } else {
        signatures_bytes(signatures.drop_last()) + signatures.last()@
    }
}

/// A signed transfer between accounts, as it is broadcast.
pub struct Transaction {
    pub signatures: Vec<Signature>,
    pub sender: Pubkey,
    pub recipient: Pubkey,
    pub amount: u64,
    pub message: Message,
    pub fee: u64,
    pub fee_payer: Pubkey,
    pub recent_blockhash: crate::digest::Hash,
    pub instructions: Vec<CompiledInstruction>,
}

impl Transaction {
    /// A transfer with the given contents.
    pub fn new(
        signatures: Vec<Signature>,
        sender: Pubkey,
        recipient: Pubkey,
        amount: u64,
        message: Message,
        fee: u64,
        fee_payer: Pubkey,
        recent_blockhash: crate::digest::Hash,
        instruction: Vec<CompiledInstruction>,
    ) -> (tx: Self)
        ensures
            tx.signatures == signatures,
            tx.sender == sender,
            tx.recipient == recipient,
            tx.amount == amount,
            tx.message == message,
            tx.fee == fee,
            tx.fee_payer == fee_payer,
            tx.recent_blockhash == recent_blockhash,
            tx.instructions == instruction,
    {
        Transaction {
            signatures,
            sender,
            recipient,
            amount,
            message,
            fee,
            fee_payer,
            recent_blockhash,
            instructions: instruction,
        }
    }
}

impl Hashable for Transaction {
    /// The signatures, the sender, the recipient, the amount and the fee in
    /// eight little-endian bytes each, and the recent block hash.
    open spec fn spec_bytes(&self) -> Seq<u8> {
        signatures_bytes(self.signatures@) + self.sender@ + self.recipient@ + le_bytes(
            self.amount as nat,
            8,
        ) + le_bytes(self.fee as nat, 8) + self.recent_blockhash@
    }

    fn bytes(&self) -> (out: Vec<u8>) {
        let mut out: Vec<u8> = Vec::new();
        let mut i: usize = 0;
        while i < self.signatures.len()
            invariant
                0 <= i <= self.signatures@.len(),
                out@ == signatures_bytes(self.signatures@.take(i as int)),
            decreases self.signatures@.len() - i,
        {
            proof {
                assert(self.signatures@.take(i + 1).drop_last() =~= self.signatures@.take(
                    i as int,
                ));
            }
            out.extend_from_slice(&self.signatures[i].0);
            i = i + 1;
        }
        assert(self.signatures@.take(self.signatures@.len() as int) =~= self.signatures@);
        out.extend_from_slice(&self.sender.0);
        out.extend_from_slice(&self.recipient.0);
        let amount: [u8; 8] = u64_to_bytes(&self.amount);
        out.extend_from_slice(&amount);
        let fee: [u8; 8] = u64_to_bytes(&self.fee);
        out.extend_from_slice(&fee);
        out.extend_from_slice(&self.recent_blockhash.0);
        out
    }
}

} // verus!
