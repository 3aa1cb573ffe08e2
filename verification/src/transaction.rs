//! Transactions of the unspent-output ledger: what they spend, what they
//! create, and their canonical bytes.

use vstd::prelude::*;
use vstd::utf8::encode_utf8;
use crate::digest::{hash_to_hex, spec_hex_id, Hashable};
use crate::le_bytes::{le_bytes, u64_to_bytes};

verus! {

/// An amount made payable to an address.
#[derive(Debug)]
pub struct Output {
    pub to_addr: String,
    pub value: u64,
}

impl Clone for Output {
    fn clone(&self) -> (copy: Self)
        ensures
            copy == *self,
    {
        Output { to_addr: self.to_addr.clone(), value: self.value }
    }
}

impl Hashable for Output {
    /// The address in UTF-8, then the amount in eight little-endian bytes.
    open spec fn spec_bytes(&self) -> Seq<u8> {
        encode_utf8(self.to_addr@) + le_bytes(self.value as nat, 8)
    }

    fn bytes(&self) -> (out: Vec<u8>) {
        let mut out: Vec<u8> = Vec::new();
        out.extend_from_slice(self.to_addr.as_str().as_bytes());
        let amount: [u8; 8] = u64_to_bytes(&self.value);
        out.extend_from_slice(&amount);
        out
    }
}

/// A reference to an earlier output: the output as it was created, and the
/// key under which it is unspent, which is the identifier of the transaction
/// that created it and its place among that transaction's outputs.
#[derive(Debug)]
pub struct Input {
    pub output: Output,
    pub txid: String,
    pub index: usize,
}

impl Clone for Input {
    fn clone(&self) -> (copy: Self)
        ensures
            copy == *self,
    {
        Input { output: self.output.clone(), txid: self.txid.clone(), index: self.index }
    }
}

/// The key of an unspent output: a transaction identifier and a place.
pub type OutputKey = (Seq<char>, nat);

impl Input {
    /// The key of the output that this input spends.
    pub open spec fn key(&self) -> OutputKey {
        (self.txid@, self.index as nat)
    }
}

/// The sum of the amounts of `outs`.
pub open spec fn outputs_total(outs: Seq<Output>) -> nat
    decreases outs.len(),
{
    if outs.len() == 0 {
        0
    } else {
        outputs_total(outs.drop_last()) + outs.last().value as nat
    }
}

/// The sum of the amounts of the outputs that `ins` refer to.
pub open spec fn inputs_total(ins: Seq<Input>) -> nat
    decreases ins.len(),
{
    if ins.len() == 0 {
        0
    } else {
        inputs_total(ins.drop_last()) + ins.last().output.value as nat
    }
}

/// The bytes of `outs`, one output after the other.
pub open spec fn outputs_bytes(outs: Seq<Output>) -> Seq<u8>
    decreases outs.len(),
{
    if outs.len() == 0 {
        Seq::empty()
    } else {
        outputs_bytes(outs.drop_last()) + outs.last().spec_bytes()
    }
}

/// The bytes of the outputs that `ins` refer to, one after the other.
pub open spec fn inputs_bytes(ins: Seq<Input>) -> Seq<u8>
    decreases ins.len(),
{
    if ins.len() == 0 {
        Seq::empty()
    } else {
        inputs_bytes(ins.drop_last()) + ins.last().output.spec_bytes()
    }
}

/// A sum of `n` amounts is at most `n` times the largest amount.
pub proof fn lemma_outputs_total_bound(outs: Seq<Output>)
    ensures
        outputs_total(outs) <= outs.len() * 0xffff_ffff_ffff_ffff,
    decreases outs.len(),
{
    if outs.len() > 0 {
        lemma_outputs_total_bound(outs.drop_last());
        assert((outs.len() - 1) * 0xffff_ffff_ffff_ffff + 0xffff_ffff_ffff_ffff == outs.len()
            * 0xffff_ffff_ffff_ffff) by (nonlinear_arith);
    }
}

/// A sum of `n` amounts is at most `n` times the largest amount.
pub proof fn lemma_inputs_total_bound(ins: Seq<Input>)
    ensures
        inputs_total(ins) <= ins.len() * 0xffff_ffff_ffff_ffff,
    decreases ins.len(),
{
    if ins.len() > 0 {
        lemma_inputs_total_bound(ins.drop_last());
        assert((ins.len() - 1) * 0xffff_ffff_ffff_ffff + 0xffff_ffff_ffff_ffff == ins.len()
            * 0xffff_ffff_ffff_ffff) by (nonlinear_arith);
    }
}

/// As many amounts as a vector can hold sum to less than 2 to the 128.
pub proof fn lemma_count_times_amount_fits(n: nat)
    requires
        n <= usize::MAX,
    ensures
        n * 0xffff_ffff_ffff_ffff + 0xffff_ffff_ffff_ffff <= u128::MAX,
{
    assert(n <= 0xffff_ffff_ffff_ffff);
    assert(n * 0xffff_ffff_ffff_ffff <= 0xffff_ffff_ffff_ffff * 0xffff_ffff_ffff_ffff) by (nonlinear_arith)
        requires
            n <= 0xffff_ffff_ffff_ffff,
    ;
}

/// A transfer of value: the outputs it spends and the outputs it creates. One
/// that spends nothing is a coinbase.
#[derive(Debug)]
pub struct Transaction {
    pub inputs: Vec<Input>,
    pub outputs: Vec<Output>,
}

impl Clone for Transaction {
    fn clone(&self) -> (copy: Self)
        ensures
            copy.inputs@ == self.inputs@,
            copy.outputs@ == self.outputs@,
    {
        let mut inputs: Vec<Input> = Vec::new();
        let mut i: usize = 0;
        while i < self.inputs.len()
            invariant
                0 <= i <= self.inputs.len(),
                inputs@ =~= self.inputs@.take(i as int),
            decreases self.inputs.len() - i,
        {
            inputs.push(self.inputs[i].clone());
            i = i + 1;
        }
        let mut outputs: Vec<Output> = Vec::new();
        let mut j: usize = 0;
        while j < self.outputs.len()
            invariant
                0 <= j <= self.outputs.len(),
                outputs@ =~= self.outputs@.take(j as int),
            decreases self.outputs.len() - j,
        {
            outputs.push(self.outputs[j].clone());
            j = j + 1;
        }
        assert(self.inputs@.take(self.inputs@.len() as int) =~= self.inputs@);
        assert(self.outputs@.take(self.outputs@.len() as int) =~= self.outputs@);
        Transaction { inputs, outputs }
    }
}

impl Transaction {
    /// The sum of the amounts that the inputs refer to.
    pub open spec fn spec_input_value(&self) -> nat {
        inputs_total(self.inputs@)
    }

    /// The sum of the amounts of the outputs.
    pub open spec fn spec_output_value(&self) -> nat {
        outputs_total(self.outputs@)
    }

    /// The identifier of the transaction: its digest in hexadecimal text.
    pub open spec fn spec_txid(&self) -> Seq<char> {
        spec_hex_id(self.spec_bytes())
    }

    /// The sum of the amounts that the inputs refer to. It is exact: as many
    /// amounts as a vector holds cannot exceed 128 bits.
    pub fn input_value(&self) -> (total: u128)
        ensures
            total == self.spec_input_value(),
    {
        let mut total: u128 = 0;
        let mut i: usize = 0;
        while i < self.inputs.len()
            invariant
                0 <= i <= self.inputs.len(),
                total == inputs_total(self.inputs@.take(i as int)),
            decreases self.inputs.len() - i,
        {
            proof {
                lemma_inputs_total_bound(self.inputs@.take(i as int));
                lemma_count_times_amount_fits(i as nat);
                assert(self.inputs@.take(i + 1).drop_last() =~= self.inputs@.take(i as int));
            }
            total = total + self.inputs[i].output.value as u128;
            i = i + 1;
        }
        assert(self.inputs@.take(self.inputs@.len() as int) =~= self.inputs@);
        total
    }

    /// The sum of the amounts of the outputs, exact in the same way.
    pub fn output_value(&self) -> (total: u128)
        ensures
            total == self.spec_output_value(),
    {
        let mut total: u128 = 0;
        let mut i: usize = 0;
        while i < self.outputs.len()
            invariant
                0 <= i <= self.outputs.len(),
                total == outputs_total(self.outputs@.take(i as int)),
            decreases self.outputs.len() - i,
        {
            proof {
                lemma_outputs_total_bound(self.outputs@.take(i as int));
                lemma_count_times_amount_fits(i as nat);
                assert(self.outputs@.take(i + 1).drop_last() =~= self.outputs@.take(i as int));
            }
            total = total + self.outputs[i].value as u128;
            i = i + 1;
        }
        assert(self.outputs@.take(self.outputs@.len() as int) =~= self.outputs@);
        total
    }

    /// Whether the transaction spends nothing, and so creates new value.
    pub fn is_coinbase(&self) -> (coinbase: bool)
        ensures
            coinbase == (self.inputs@.len() == 0),
    {
        self.inputs.len() == 0
    }

    /// The identifier of the transaction: its digest in hexadecimal text.
    pub fn txid(&self) -> (id: String)
        ensures
            id@ == self.spec_txid(),
    {
        let h = self.hash();
        hash_to_hex(&h)
    }
}

impl Hashable for Transaction {
    /// The bytes of each output that an input refers to, then the bytes of
    /// each output created.
    open spec fn spec_bytes(&self) -> Seq<u8> {
        inputs_bytes(self.inputs@) + outputs_bytes(self.outputs@)
    }

    fn bytes(&self) -> (out: Vec<u8>) {
        let mut out: Vec<u8> = Vec::new();
        let mut i: usize = 0;
        while i < self.inputs.len()
            invariant
                0 <= i <= self.inputs.len(),
                out@ == inputs_bytes(self.inputs@.take(i as int)),
            decreases self.inputs.len() - i,
        {
            let part: Vec<u8> = self.inputs[i].output.bytes();
            proof {
                assert(self.inputs@.take(i + 1).drop_last() =~= self.inputs@.take(i as int));
            }
            out.extend_from_slice(part.as_slice());
            i = i + 1;
        }
        assert(self.inputs@.take(self.inputs@.len() as int) =~= self.inputs@);
        let ghost head = out@;
        let mut j: usize = 0;
        while j < self.outputs.len()
            invariant
                0 <= j <= self.outputs.len(),
                out@ == head + outputs_bytes(self.outputs@.take(j as int)),
            decreases self.outputs.len() - j,
        {
            let part: Vec<u8> = self.outputs[j].bytes();
            proof {
                assert(self.outputs@.take(j + 1).drop_last() =~= self.outputs@.take(j as int));
                assert(head + outputs_bytes(self.outputs@.take(j as int)) + part@ =~= head + (
                outputs_bytes(self.outputs@.take(j as int)) + part@));
            }
            out.extend_from_slice(part.as_slice());
            j = j + 1;
        }
        assert(self.outputs@.take(self.outputs@.len() as int) =~= self.outputs@);
        out
    }
}

} // verus!
