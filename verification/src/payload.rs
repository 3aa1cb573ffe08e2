//! The payload rules of the unspent-output ledger: what a block's
//! transactions must satisfy, and what they do to the unspent outputs.

use vstd::prelude::*;
use crate::error::BlockValidationErr;
use crate::transaction::{
    lemma_count_times_amount_fits,
    lemma_outputs_total_bound,
    Input,
    Output,
    Transaction,
};
use crate::utxo::{holds_key, with_record, without_key, UtxoRecord, UtxoSet};

verus! {

/// The unspent outputs left after the outputs that `inputs` refer to were
/// spent one by one, or nothing where one of them was not unspent when its
/// turn came.
pub open spec fn spend_all(utxos: Seq<UtxoRecord>, inputs: Seq<Input>) -> Option<Seq<UtxoRecord>>
    decreases inputs.len(),
{
    if inputs.len() == 0 {
        Some(utxos)
    } else {
        match spend_all(utxos, inputs.drop_last()) {
            None => None,
            Some(left) => if holds_key(left, inputs.last().key()) {
                Some(without_key(left, inputs.last().key()))
            } else {
                None
            },
        }
    }
}

/// The fee that a transaction leaves: what it takes in beyond what it pays
/// out.
pub open spec fn fee_of(tx: Transaction) -> nat {
    (tx.spec_input_value() - tx.spec_output_value()) as nat
}

/// The check of one transaction after the coinbase against the unspent
/// outputs `utxos`: it must spend something, else it is a second coinbase;
/// each of its inputs must be unspent when its turn comes; and it must not
/// pay out more than it takes in. The result is what is left unspent.
pub open spec fn check_transaction(utxos: Seq<UtxoRecord>, tx: Transaction) -> Result<
    Seq<UtxoRecord>,
    BlockValidationErr,
> {
    if tx.inputs@.len() == 0 {
        Err(BlockValidationErr::InvalidCoinbase)
    } else {
        match spend_all(utxos, tx.inputs@) {
            None => Err(BlockValidationErr::DoubleSpend),
            Some(left) => if tx.spec_output_value() > tx.spec_input_value() {
                Err(BlockValidationErr::InsufficientInputValue)
            } else {
                Ok(left)
            },
        }
    }
}

/// The check of the transactions `txs`, in order, each against what the
/// ones before it left unspent. The result is what is left unspent and the
/// sum of the fees; the first refusal stands.
pub open spec fn check_spending(utxos: Seq<UtxoRecord>, txs: Seq<Transaction>) -> Result<
    (Seq<UtxoRecord>, nat),
    BlockValidationErr,
>
    decreases txs.len(),
{
    if txs.len() == 0 {
        Ok((utxos, 0nat))
    } else {
        match check_spending(utxos, txs.drop_last()) {
            Err(e) => Err(e),
            Ok((left, fees)) => match check_transaction(left, txs.last()) {
                Err(e) => Err(e),
                Ok(rest) => Ok((rest, fees + fee_of(txs.last()))),
            },
        }
    }
}

/// The record under which output `index` of transaction `txid` is kept: the
/// spending descriptor is the address it pays to.
pub open spec fn created_record(txid: Seq<char>, index: nat, output: Output) -> UtxoRecord {
    UtxoRecord { txid, index, value: output.value, script_pubkey: output.to_addr@ }
}

/// `utxos` with the outputs `outs` of transaction `txid` added in order.
pub open spec fn add_outputs(utxos: Seq<UtxoRecord>, txid: Seq<char>, outs: Seq<Output>) -> Seq<
    UtxoRecord,
>
    decreases outs.len(),
{
    if outs.len() == 0 {
        utxos
    } else {
        with_record(
            add_outputs(utxos, txid, outs.drop_last()),
            created_record(txid, (outs.len() - 1) as nat, outs.last()),
        )
    }
}

/// `utxos` with all outputs of the transactions `txs` added, transaction by
/// transaction.
pub open spec fn add_created(utxos: Seq<UtxoRecord>, txs: Seq<Transaction>) -> Seq<UtxoRecord>
    decreases txs.len(),
{
    if txs.len() == 0 {
        utxos
    } else {
        add_outputs(add_created(utxos, txs.drop_last()), txs.last().spec_txid(), txs.last().outputs@)
    }
}

/// What a payload does to the unspent outputs `utxos`, or why it is refused.
///
/// The first transaction must be a coinbase. The others are checked in order
/// by `check_spending`. The coinbase must pay out at least the sum of the
/// fees. Then the outputs spent are gone, and the outputs of all
/// transactions are added.
pub open spec fn spec_apply_payload(utxos: Seq<UtxoRecord>, txs: Seq<Transaction>) -> Result<
    Seq<UtxoRecord>,
    BlockValidationErr,
> {
    if txs.len() == 0 || txs[0].inputs@.len() != 0 {
        Err(BlockValidationErr::InvalidCoinbase)
    } else {
        match check_spending(utxos, txs.skip(1)) {
            Err(e) => Err(e),
            Ok((left, fees)) => if txs[0].spec_output_value() < fees {
                Err(BlockValidationErr::InvalidCoinbase)
            } else {
                Ok(add_created(left, txs))
            },
        }
    }
}

/// Inputs of which a first part cannot be spent cannot be spent.
pub proof fn lemma_spend_all_prefix(utxos: Seq<UtxoRecord>, inputs: Seq<Input>, j: int)
    requires
        0 <= j <= inputs.len(),
        spend_all(utxos, inputs.take(j)) is None,
    ensures
        spend_all(utxos, inputs) is None,
    decreases inputs.len(),
{
    if j == inputs.len() {
        assert(inputs.take(j) =~= inputs);
    } else {
        assert(inputs.drop_last().take(j) =~= inputs.take(j));
        lemma_spend_all_prefix(utxos, inputs.drop_last(), j);
    }
}

/// Transactions of which a first part is refused are refused for the same
/// reason.
pub proof fn lemma_check_spending_prefix(utxos: Seq<UtxoRecord>, txs: Seq<Transaction>, t: int)
    requires
        0 <= t <= txs.len(),
        check_spending(utxos, txs.take(t)) is Err,
    ensures
        check_spending(utxos, txs) == check_spending(utxos, txs.take(t)),
    decreases txs.len(),
{
    if t == txs.len() {
        assert(txs.take(t) =~= txs);
    } else {
        assert(txs.drop_last().take(t) =~= txs.take(t));
        lemma_check_spending_prefix(utxos, txs.drop_last(), t);
    }
}

/// Checks a payload against the unspent outputs `utxos` and gives the
/// unspent outputs after it, or the reason for which it is refused. `utxos`
/// itself is not changed.
pub fn apply_payload(utxos: &UtxoSet, txs: &Vec<Transaction>) -> (res: Result<
    UtxoSet,
    BlockValidationErr,
>)
    ensures
        match (res, spec_apply_payload(utxos@, txs@)) {
            (Ok(after), Ok(expected)) => after@ == expected,
            (Err(e), Err(expected)) => e == expected,
            _ => false,
        },
{
    if txs.len() == 0 {
        return Err(BlockValidationErr::InvalidCoinbase);
    }
    if !txs[0].is_coinbase() {
        return Err(BlockValidationErr::InvalidCoinbase);
    }
    let ghost rest = txs@.skip(1);
    let mut work: UtxoSet = utxos.clone();
    let mut fees: u128 = 0;
    let ghost mut exact_fees: nat = 0;
    let mut t: usize = 1;
    while t < txs.len()
        invariant
            1 <= t <= txs@.len(),
            rest == txs@.skip(1),
            txs@[0].inputs@.len() == 0,
            check_spending(utxos@, rest.take(t - 1)) == Ok::<
                (Seq<UtxoRecord>, nat),
                BlockValidationErr,
            >((work@, exact_fees)),
            fees == if exact_fees <= u128::MAX {
                exact_fees
            } else {
                u128::MAX as nat
            },
        decreases txs@.len() - t,
    {
        let tx = &txs[t];
        let ghost before = work@;
        proof {
            assert(rest.take(t as int).drop_last() =~= rest.take(t - 1));
            assert(rest.take(t as int).last() == *tx);
        }
        if tx.is_coinbase() {
            proof {
                lemma_check_spending_prefix(utxos@, rest, t as int);
            }
            return Err(BlockValidationErr::InvalidCoinbase);
        }
        let mut j: usize = 0;
        while j < tx.inputs.len()
            invariant
                0 <= j <= tx.inputs@.len(),
                1 <= t < txs@.len(),
                rest == txs@.skip(1),
                txs@[0].inputs@.len() == 0,
                tx.inputs@.len() > 0,
                check_spending(utxos@, rest.take(t as int).drop_last()) == Ok::<
                    (Seq<UtxoRecord>, nat),
                    BlockValidationErr,
                >((before, exact_fees)),
                rest.take(t as int).last() == *tx,
                spend_all(before, tx.inputs@.take(j as int)) == Some(work@),
            decreases tx.inputs@.len() - j,
        {
            let input = &tx.inputs[j];
            proof {
                assert(tx.inputs@.take(j + 1).drop_last() =~= tx.inputs@.take(j as int));
                assert(tx.inputs@.take(j + 1).last() == *input);
            }
            match work.spend(input.txid.clone(), input.index) {
                Ok(_) => {},
                Err(_) => {
                    proof {
                        lemma_spend_all_prefix(before, tx.inputs@, j + 1);
                        assert(check_transaction(before, *tx) is Err);
                        assert(check_spending(utxos@, rest.take(t as int)) is Err);
                        lemma_check_spending_prefix(utxos@, rest, t as int);
                    }
                    return Err(BlockValidationErr::DoubleSpend);
                },
            }
            j = j + 1;
        }
        proof {
            assert(tx.inputs@.take(tx.inputs@.len() as int) =~= tx.inputs@);
        }
        let taken_in: u128 = tx.input_value();
        let paid_out: u128 = tx.output_value();
        if paid_out > taken_in {
            proof {
                assert(check_transaction(before, *tx) is Err);
                assert(check_spending(utxos@, rest.take(t as int)) is Err);
                lemma_check_spending_prefix(utxos@, rest, t as int);
            }
            return Err(BlockValidationErr::InsufficientInputValue);
        }
        fees = fees.saturating_add(taken_in - paid_out);
        proof {
            exact_fees = exact_fees + fee_of(*tx);
        }
        t = t + 1;
    }
    let paying: usize = txs[0].outputs.len();
    proof {
        assert(rest.take(rest.len() as int) =~= rest);
        lemma_outputs_total_bound(txs@[0].outputs@);
        lemma_count_times_amount_fits(paying as nat);
    }
    let coinbase_out: u128 = txs[0].output_value();
    if coinbase_out < fees {
        return Err(BlockValidationErr::InvalidCoinbase);
    }
    let ghost left = work@;
    let mut c: usize = 0;
    while c < txs.len()
        invariant
            0 <= c <= txs@.len(),
            work@ == add_created(left, txs@.take(c as int)),
        decreases txs@.len() - c,
    {
        let tx = &txs[c];
        let txid: String = tx.txid();
        let ghost base = work@;
        proof {
            assert(txs@.take(c + 1).drop_last() =~= txs@.take(c as int));
            assert(txs@.take(c + 1).last() == *tx);
        }
        let mut o: usize = 0;
        while o < tx.outputs.len()
            invariant
                0 <= o <= tx.outputs@.len(),
                txid@ == tx.spec_txid(),
                work@ == add_outputs(base, txid@, tx.outputs@.take(o as int)),
            decreases tx.outputs@.len() - o,
        {
            let output = &tx.outputs[o];
            proof {
                assert(tx.outputs@.take(o + 1).drop_last() =~= tx.outputs@.take(o as int));
                assert(tx.outputs@.take(o + 1).last() == *output);
            }
            work.add_utxo(txid.clone(), o, output.value, output.to_addr.clone());
            o = o + 1;
        }
        proof {
            assert(tx.outputs@.take(tx.outputs@.len() as int) =~= tx.outputs@);
        }
        c = c + 1;
    }
    proof {
        assert(txs@.take(txs@.len() as int) =~= txs@);
    }
    Ok(work)
}

} // verus!
