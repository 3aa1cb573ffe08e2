//! What holds of every ledger, proved from the contracts of the library.

use vstd::prelude::*;
use crate::block::Block;
use crate::blockchain::{
    chain_valid,
    parent_of,
    replay_utxos,
    spec_check_links,
    spec_validate,
    Blockchain,
};
use crate::consensus::Consensus;
use crate::digest::Hashable;
use crate::work::mined_with;
use crate::digest::zero_hash_bytes;
use crate::payload::{
    add_created,
    add_outputs,
    check_spending,
    check_transaction,
    created_record,
    spec_apply_payload,
    spend_all,
};
use crate::producer::{is_candidate, is_payment, share};
use crate::transaction::{inputs_total, outputs_total, Input, Output, OutputKey, Transaction};
use crate::utxo::{
    holds_key,
    key_set,
    keys_distinct,
    first_largest,
    lemma_first_largest,
    lemma_position_of,
    lemma_with_record,
    lemma_without_key,
    select_largest_first,
    without_key,
    UtxoRecord,
};

verus! {

/// Every block of a valid chain passed the first steps of the pipeline
/// against the blocks before it.
pub proof fn lemma_block_checked(consensus: Consensus, chain: Seq<Block>, i: int)
    requires
        chain_valid(consensus, chain),
        0 <= i < chain.len(),
    ensures
        spec_validate(consensus, chain.take(i), chain[i]) is Ok,
        spec_check_links(consensus, chain.take(i), chain[i]) is Ok,
{
    reveal(chain_valid);
}

/// The stored hash of every committed block is the digest of the block's
/// canonical bytes.
pub proof fn lemma_committed_hash_valid(ledger: Blockchain, i: int)
    requires
        ledger.wf(),
        0 <= i < ledger.spec_chain().len(),
    ensures
        ledger.spec_chain()[i].spec_hash_valid(),
{
    lemma_block_checked(ledger.spec_consensus(), ledger.spec_chain(), i);
}

/// Every committed block stands at the place that its index names. The
/// first names the zero sentinel as its parent, and every other block names
/// the hash of the block before it.
pub proof fn lemma_committed_linkage(ledger: Blockchain, i: int)
    requires
        ledger.wf(),
        0 <= i < ledger.spec_chain().len(),
    ensures
        ledger.spec_chain()[i].index == i,
        i == 0 ==> ledger.spec_chain()[i].prev_block_hash@ == zero_hash_bytes(),
        i > 0 ==> ledger.spec_chain()[i].prev_block_hash@ == ledger.spec_chain()[i - 1].hash@,
{
    let chain = ledger.spec_chain();
    lemma_block_checked(ledger.spec_consensus(), chain, i);
    if i > 0 {
        assert(chain.take(i).last() == chain[i - 1]);
    }
}

/// The Merkle root stored in every committed block is the aggregate of the
/// digests of the block's transactions.
pub proof fn lemma_committed_root_valid(ledger: Blockchain, i: int)
    requires
        ledger.wf(),
        0 <= i < ledger.spec_chain().len(),
    ensures
        ledger.spec_chain()[i].spec_root_valid(),
{
    lemma_block_checked(ledger.spec_consensus(), ledger.spec_chain(), i);
}

/// The time of committed blocks never runs backwards, and under stake and
/// history it strictly advances.
pub proof fn lemma_committed_chronology(ledger: Blockchain, i: int)
    requires
        ledger.wf(),
        0 < i < ledger.spec_chain().len(),
    ensures
        ledger.spec_chain()[i].timestamp >= ledger.spec_chain()[i - 1].timestamp,
        ledger.spec_consensus() is StakeAndHistory ==> ledger.spec_chain()[i].timestamp
            > ledger.spec_chain()[i - 1].timestamp,
{
    let chain = ledger.spec_chain();
    lemma_block_checked(ledger.spec_consensus(), chain, i);
    assert(chain.take(i).last() == chain[i - 1]);
}

/// The keys that `inputs` refer to.
pub open spec fn input_keys(inputs: Seq<Input>) -> Set<OutputKey>
    decreases inputs.len(),
{
    if inputs.len() == 0 {
        Set::empty()
    } else {
        input_keys(inputs.drop_last()).insert(inputs.last().key())
    }
}

/// The keys that the transactions `txs` spend.
pub open spec fn spent_keys(txs: Seq<Transaction>) -> Set<OutputKey>
    decreases txs.len(),
{
    if txs.len() == 0 {
        Set::empty()
    } else {
        spent_keys(txs.drop_last()).union(input_keys(txs.last().inputs@))
    }
}

/// The keys of the first `count` outputs of the transaction `txid`.
pub open spec fn output_keys(txid: Seq<char>, count: nat) -> Set<OutputKey>
    decreases count,
{
    if count == 0 {
        Set::empty()
    } else {
        output_keys(txid, (count - 1) as nat).insert((txid, (count - 1) as nat))
    }
}

/// The keys of all outputs of the transactions `txs`.
pub open spec fn created_keys(txs: Seq<Transaction>) -> Set<OutputKey>
    decreases txs.len(),
{
    if txs.len() == 0 {
        Set::empty()
    } else {
        created_keys(txs.drop_last()).union(
            output_keys(txs.last().spec_txid(), txs.last().outputs@.len()),
        )
    }
}

/// The keys that a block consumes: those that its transactions after the
/// coinbase spend.
pub open spec fn consumed_by(block: Block) -> Set<OutputKey> {
    spent_keys(block.transactions@.skip(1))
}

/// The keys that a block creates: those of the outputs of all its
/// transactions.
pub open spec fn created_by(block: Block) -> Set<OutputKey> {
    created_keys(block.transactions@)
}

/// Spending inputs takes exactly their keys out.
pub proof fn lemma_spend_all_keys(utxos: Seq<UtxoRecord>, inputs: Seq<Input>)
    requires
        keys_distinct(utxos),
        spend_all(utxos, inputs) is Some,
    ensures
        keys_distinct(spend_all(utxos, inputs).unwrap()),
        key_set(spend_all(utxos, inputs).unwrap()) == key_set(utxos).difference(
            input_keys(inputs),
        ),
    decreases inputs.len(),
{
    if inputs.len() == 0 {
        assert(key_set(utxos).difference(input_keys(inputs)) =~= key_set(utxos));
    } else {
        lemma_spend_all_keys(utxos, inputs.drop_last());
        let left = spend_all(utxos, inputs.drop_last()).unwrap();
        lemma_without_key(left, inputs.last().key());
        assert(key_set(left).remove(inputs.last().key()) =~= key_set(utxos).difference(
            input_keys(inputs),
        ));
    }
}

/// Accepted spending takes exactly the spent keys out.
pub proof fn lemma_check_spending_keys(utxos: Seq<UtxoRecord>, txs: Seq<Transaction>)
    requires
        keys_distinct(utxos),
        check_spending(utxos, txs) is Ok,
    ensures
        keys_distinct(check_spending(utxos, txs).unwrap().0),
        key_set(check_spending(utxos, txs).unwrap().0) == key_set(utxos).difference(
            spent_keys(txs),
        ),
    decreases txs.len(),
{
    if txs.len() == 0 {
        assert(key_set(utxos).difference(spent_keys(txs)) =~= key_set(utxos));
    } else {
        lemma_check_spending_keys(utxos, txs.drop_last());
        let left = check_spending(utxos, txs.drop_last()).unwrap().0;
        assert(check_transaction(left, txs.last()) is Ok);
        lemma_spend_all_keys(left, txs.last().inputs@);
        assert(key_set(left).difference(input_keys(txs.last().inputs@)) =~= key_set(
            utxos,
        ).difference(spent_keys(txs)));
    }
}

/// Adding the outputs of a transaction adds exactly their keys.
pub proof fn lemma_add_outputs_keys(utxos: Seq<UtxoRecord>, txid: Seq<char>, outs: Seq<Output>)
    requires
        keys_distinct(utxos),
    ensures
        keys_distinct(add_outputs(utxos, txid, outs)),
        key_set(add_outputs(utxos, txid, outs)) == key_set(utxos).union(
            output_keys(txid, outs.len()),
        ),
    decreases outs.len(),
{
    if outs.len() == 0 {
        assert(key_set(utxos).union(output_keys(txid, 0)) =~= key_set(utxos));
    } else {
        lemma_add_outputs_keys(utxos, txid, outs.drop_last());
        let base = add_outputs(utxos, txid, outs.drop_last());
        let record = created_record(txid, (outs.len() - 1) as nat, outs.last());
        lemma_with_record(base, record);
        assert(key_set(base).insert(record.key()) =~= key_set(utxos).union(
            output_keys(txid, outs.len()),
        ));
    }
}

/// Adding the outputs of transactions adds exactly their keys.
pub proof fn lemma_add_created_keys(utxos: Seq<UtxoRecord>, txs: Seq<Transaction>)
    requires
        keys_distinct(utxos),
    ensures
        keys_distinct(add_created(utxos, txs)),
        key_set(add_created(utxos, txs)) == key_set(utxos).union(created_keys(txs)),
    decreases txs.len(),
{
    if txs.len() == 0 {
        assert(key_set(utxos).union(created_keys(txs)) =~= key_set(utxos));
    } else {
        lemma_add_created_keys(utxos, txs.drop_last());
        let base = add_created(utxos, txs.drop_last());
        lemma_add_outputs_keys(base, txs.last().spec_txid(), txs.last().outputs@);
        assert(key_set(base).union(
            output_keys(txs.last().spec_txid(), txs.last().outputs@.len()),
        ) =~= key_set(utxos).union(created_keys(txs)));
    }
}

/// An accepted payload leaves unspent what was unspent, less what its
/// transactions spend, with what they create.
pub proof fn lemma_payload_keys(utxos: Seq<UtxoRecord>, txs: Seq<Transaction>)
    requires
        keys_distinct(utxos),
        spec_apply_payload(utxos, txs) is Ok,
    ensures
        keys_distinct(spec_apply_payload(utxos, txs).unwrap()),
        key_set(spec_apply_payload(utxos, txs).unwrap()) == key_set(utxos).difference(
            spent_keys(txs.skip(1)),
        ).union(created_keys(txs)),
{
    lemma_check_spending_keys(utxos, txs.skip(1));
    let left = check_spending(utxos, txs.skip(1)).unwrap().0;
    lemma_add_created_keys(left, txs);
}

/// The unspent outputs that a chain leaves hold each key once.
pub proof fn lemma_replay_distinct(chain: Seq<Block>)
    ensures
        keys_distinct(replay_utxos(chain)),
    decreases chain.len(),
{
    if chain.len() > 0 {
        lemma_replay_distinct(chain.drop_last());
        let base = replay_utxos(chain.drop_last());
        if spec_apply_payload(base, chain.last().transactions@) is Ok {
            lemma_payload_keys(base, chain.last().transactions@);
        }
    }
}

/// Whether some block of `chain` created `key` and no later block consumed
/// it.
pub open spec fn created_and_not_consumed(chain: Seq<Block>, key: OutputKey) -> bool {
    exists|i: int|
        0 <= i < chain.len() && #[trigger] created_by(chain[i]).contains(key) && forall|j: int|
            i < j < chain.len() ==> !(#[trigger] consumed_by(chain[j])).contains(key)
}

/// Under proof of work, the unspent outputs of a valid chain are the outputs
/// that its blocks created less those that its blocks consumed: a key is
/// unspent exactly when some block created it and no later block consumed
/// it.
pub proof fn lemma_unspent_is_created_less_consumed(
    consensus: Consensus,
    chain: Seq<Block>,
    key: OutputKey,
)
    requires
        consensus is ProofOfWork,
        chain_valid(consensus, chain),
    ensures
        holds_key(replay_utxos(chain), key) <==> created_and_not_consumed(chain, key),
    decreases chain.len(),
{
    if chain.len() == 0 {
        assert(!holds_key(replay_utxos(chain), key));
    } else {
        let front = chain.drop_last();
        let last = chain.len() - 1;
        let block = chain[last];
        assert(chain_valid(consensus, front)) by {
            reveal(chain_valid);
            assert forall|i: int| 0 <= i < front.len() implies spec_validate(
                consensus,
                front.take(i),
                #[trigger] front[i],
            ) is Ok by {
                assert(front.take(i) =~= chain.take(i));
                assert(front[i] == chain[i]);
            }
        }
        lemma_unspent_is_created_less_consumed(consensus, front, key);
        lemma_block_checked(consensus, chain, last);
        assert(chain.take(last) =~= front);
        lemma_replay_distinct(front);
        let base = replay_utxos(front);
        lemma_payload_keys(base, block.transactions@);
        let after = replay_utxos(chain);
        assert(key_set(after).contains(key) <==> holds_key(after, key));
        assert(key_set(base).contains(key) <==> holds_key(base, key));
        if holds_key(after, key) {
            if created_by(block).contains(key) {
                assert(created_by(chain[last]).contains(key));
            } else {
                assert(holds_key(base, key));
                assert(!consumed_by(block).contains(key));
                let i = choose|i: int|
                    0 <= i < front.len() && #[trigger] created_by(front[i]).contains(key)
                        && forall|j: int|
                        i < j < front.len() ==> !(#[trigger] consumed_by(front[j])).contains(key);
                assert(created_by(chain[i]).contains(key));
                assert forall|j: int| i < j < chain.len() implies !(#[trigger] consumed_by(
                    chain[j],
                )).contains(key) by {
                    if j < last {
                        assert(!consumed_by(front[j]).contains(key));
                    }
                }
            }
        }
        if created_and_not_consumed(chain, key) {
            let i = choose|i: int|
                0 <= i < chain.len() && #[trigger] created_by(chain[i]).contains(key)
                    && forall|j: int|
                    i < j < chain.len() ==> !(#[trigger] consumed_by(chain[j])).contains(key);
            if i < last {
                assert(created_by(front[i]).contains(key));
                assert forall|j: int| i < j < front.len() implies !(#[trigger] consumed_by(
                    front[j],
                )).contains(key) by {
                    assert(!consumed_by(chain[j]).contains(key));
                }
                assert(created_and_not_consumed(front, key));
                assert(!consumed_by(chain[last]).contains(key));
            }
        }
    }
}

/// The unspent outputs of a proof-of-work ledger are those that its
/// committed blocks created and no later committed block consumed.
pub proof fn lemma_ledger_unspent(ledger: Blockchain, key: OutputKey)
    requires
        ledger.wf(),
        ledger.spec_consensus() is ProofOfWork,
    ensures
        holds_key(ledger.spec_utxos(), key) <==> created_and_not_consumed(
            ledger.spec_chain(),
            key,
        ),
{
    lemma_unspent_is_created_less_consumed(ledger.spec_consensus(), ledger.spec_chain(), key);
}

/// A key that was spent is gone: spending it once more finds nothing, so it
/// is refused and changes nothing.
pub proof fn lemma_spent_key_is_gone(utxos: Seq<UtxoRecord>, key: OutputKey)
    requires
        keys_distinct(utxos),
    ensures
        !holds_key(without_key(utxos, key), key),
        without_key(without_key(utxos, key), key) == without_key(utxos, key),
{
    lemma_without_key(utxos, key);
    assert(!key_set(without_key(utxos, key)).contains(key));
}

/// Coin selection is a function of the unspent outputs and the target: two
/// selections from the same outputs for the same target are the same.
pub proof fn lemma_selection_deterministic(
    utxos: Seq<UtxoRecord>,
    target: nat,
    first: Seq<UtxoRecord>,
    second: Seq<UtxoRecord>,
)
    requires
        first == select_largest_first(utxos, target, 0),
        second == select_largest_first(utxos, target, 0),
    ensures
        first == second,
{
}

/// What is selected comes from the pool: each selected record is held by
/// the pool under its key, and no two selected records share a key.
pub proof fn lemma_selection_from_pool(pool: Seq<UtxoRecord>, target: nat, gathered: nat)
    requires
        keys_distinct(pool),
    ensures
        keys_distinct(select_largest_first(pool, target, gathered)),
        forall|k: int|
            0 <= k < select_largest_first(pool, target, gathered).len() ==> holds_key(
                pool,
                (#[trigger] select_largest_first(pool, target, gathered)[k]).key(),
            ),
    decreases pool.len(),
{
    let selected = select_largest_first(pool, target, gathered);
    if gathered >= target || pool.len() == 0 {
    } else {
        lemma_first_largest(pool);
        let i = first_largest(pool);
        let rest_pool = pool.remove(i);
        let rest = select_largest_first(rest_pool, target, gathered + pool[i].value as nat);
        lemma_position_of(pool, i);
        lemma_without_key(pool, pool[i].key());
        assert(without_key(pool, pool[i].key()) == rest_pool);
        lemma_selection_from_pool(rest_pool, target, gathered + pool[i].value as nat);
        assert(selected == seq![pool[i]] + rest);
        assert forall|k: int| 0 <= k < selected.len() implies holds_key(
            pool,
            (#[trigger] selected[k]).key(),
        ) by {
            if k > 0 {
                assert(selected[k] == rest[k - 1]);
                assert(holds_key(rest_pool, rest[k - 1].key()));
                assert(key_set(rest_pool).contains(rest[k - 1].key()));
                assert(key_set(pool).contains(rest[k - 1].key()));
            }
        }
        assert forall|a: int, b: int| 0 <= a < b < selected.len() implies (#[trigger] selected[a]).key()
            != (#[trigger] selected[b]).key() by {
            assert(selected[b] == rest[b - 1]);
            if a == 0 {
                assert(holds_key(rest_pool, rest[b - 1].key()));
                assert(key_set(rest_pool).contains(rest[b - 1].key()));
                assert(!key_set(rest_pool).contains(pool[i].key()));
            } else {
                assert(selected[a] == rest[a - 1]);
                assert(rest[a - 1].key() != rest[b - 1].key());
            }
        }
    }
}

/// A sum of one amount is that amount.
proof fn lemma_single_input_total(inputs: Seq<Input>)
    requires
        inputs.len() == 1,
    ensures
        inputs_total(inputs) == inputs[0].output.value,
{
    assert(inputs.drop_last().len() == 0);
    assert(inputs_total(inputs.drop_last()) == 0);
}

/// The outputs of a payment sum to what its input holds.
proof fn lemma_payment_outputs_total(
    tx: Transaction,
    record: UtxoRecord,
    sender: Seq<char>,
    recipient: Seq<char>,
    paid: nat,
)
    requires
        is_payment(tx, record, sender, recipient, paid),
    ensures
        outputs_total(tx.outputs@) == record.value,
        inputs_total(tx.inputs@) == record.value,
{
    lemma_single_input_total(tx.inputs@);
    let outs = tx.outputs@;
    if record.value > paid {
        assert(outs.drop_last().drop_last().len() == 0);
        assert(outputs_total(outs.drop_last().drop_last()) == 0);
        assert(outs.drop_last().last() == outs[0]);
        assert(outputs_total(outs.drop_last()) == outs[0].value);
    } else {
        assert(outs.drop_last().len() == 0);
        assert(outputs_total(outs.drop_last()) == 0);
    }
}

/// Payments that spend, one each, unspent outputs of distinct keys pass the
/// check of spending, and leave no fee.
pub proof fn lemma_payments_pass(
    utxos: Seq<UtxoRecord>,
    txs: Seq<Transaction>,
    spent: Seq<UtxoRecord>,
    sender: Seq<char>,
    recipient: Seq<char>,
    amount: nat,
    whole: Seq<UtxoRecord>,
)
    requires
        keys_distinct(utxos),
        keys_distinct(spent),
        txs.len() == spent.len(),
        spent.len() <= whole.len(),
        forall|k: int| 0 <= k < spent.len() ==> holds_key(utxos, (#[trigger] spent[k]).key()),
        forall|k: int|
            0 <= k < spent.len() ==> is_payment(
                #[trigger] txs[k],
                spent[k],
                sender,
                recipient,
                share(whole, amount, k),
            ),
    ensures
        check_spending(utxos, txs) is Ok,
        check_spending(utxos, txs).unwrap().1 == 0,
    decreases txs.len(),
{
    if txs.len() > 0 {
        let front = txs.drop_last();
        let before = spent.drop_last();
        let last = txs.len() - 1;
        assert(keys_distinct(before)) by {
            assert forall|a: int, b: int| 0 <= a < b < before.len() implies (#[trigger] before[a]).key()
                != (#[trigger] before[b]).key() by {
                assert(spent[a].key() != spent[b].key());
            }
        }
        assert forall|k: int| 0 <= k < before.len() implies holds_key(
            utxos,
            (#[trigger] before[k]).key(),
        ) by {
            assert(before[k] == spent[k]);
        }
        assert forall|k: int| 0 <= k < before.len() implies is_payment(
            #[trigger] front[k],
            before[k],
            sender,
            recipient,
            share(whole, amount, k),
        ) by {
            assert(front[k] == txs[k]);
            assert(before[k] == spent[k]);
        }
        lemma_payments_pass(utxos, front, before, sender, recipient, amount, whole);
        lemma_check_spending_keys(utxos, front);
        lemma_spent_keys_of_payments(front, before, sender, recipient, amount, whole);
        let left = check_spending(utxos, front).unwrap().0;
        let tx = txs[last];
        let record = spent[last];
        assert(is_payment(tx, record, sender, recipient, share(whole, amount, last)));
        // The key of the last payment is still unspent.
        assert(key_set(utxos).contains(record.key()));
        assert(!record_keys(before).contains(record.key())) by {
            if record_keys(before).contains(record.key()) {
                lemma_record_keys(before, record.key());
                let w = choose|w: int| 0 <= w < before.len() && (#[trigger] before[w]).key()
                    == record.key();
                assert(spent[w].key() != spent[last].key());
            }
        }
        assert(key_set(left).contains(record.key()));
        assert(holds_key(left, record.key()));
        assert(tx.inputs@.drop_last().len() == 0);
        assert(spend_all(left, tx.inputs@.drop_last()) == Some(left));
        assert(tx.inputs@.last() == tx.inputs@[0]);
        assert(spend_all(left, tx.inputs@) == Some(without_key(left, record.key())));
        lemma_payment_outputs_total(tx, record, sender, recipient, share(whole, amount, last));
        assert(check_transaction(left, tx) is Ok);
    }
}

/// The keys of `records`.
pub open spec fn record_keys(records: Seq<UtxoRecord>) -> Set<OutputKey>
    decreases records.len(),
{
    if records.len() == 0 {
        Set::empty()
    } else {
        record_keys(records.drop_last()).insert(records.last().key())
    }
}

/// A key is among the keys of records exactly when one of them has it.
pub proof fn lemma_record_keys(records: Seq<UtxoRecord>, key: OutputKey)
    ensures
        record_keys(records).contains(key) <==> exists|w: int|
            0 <= w < records.len() && (#[trigger] records[w]).key() == key,
    decreases records.len(),
{
    if records.len() > 0 {
        let front = records.drop_last();
        lemma_record_keys(front, key);
        if record_keys(records).contains(key) {
            if records.last().key() == key {
                assert(records[records.len() - 1].key() == key);
            } else {
                let w = choose|w: int| 0 <= w < front.len() && (#[trigger] front[w]).key() == key;
                assert(records[w].key() == key);
            }
        }
        if exists|w: int| 0 <= w < records.len() && (#[trigger] records[w]).key() == key {
            let w = choose|w: int| 0 <= w < records.len() && (#[trigger] records[w]).key() == key;
            if w < front.len() {
                assert(front[w].key() == key);
            }
        }
    }
}

/// Payments spend exactly the keys of the outputs that they spend.
pub proof fn lemma_spent_keys_of_payments(
    txs: Seq<Transaction>,
    spent: Seq<UtxoRecord>,
    sender: Seq<char>,
    recipient: Seq<char>,
    amount: nat,
    whole: Seq<UtxoRecord>,
)
    requires
        txs.len() == spent.len(),
        forall|k: int|
            0 <= k < spent.len() ==> is_payment(
                #[trigger] txs[k],
                spent[k],
                sender,
                recipient,
                share(whole, amount, k),
            ),
    ensures
        spent_keys(txs) == record_keys(spent),
    decreases txs.len(),
{
    if txs.len() > 0 {
        let front = txs.drop_last();
        let before = spent.drop_last();
        assert forall|k: int| 0 <= k < before.len() implies is_payment(
            #[trigger] front[k],
            before[k],
            sender,
            recipient,
            share(whole, amount, k),
        ) by {
            assert(front[k] == txs[k]);
            assert(before[k] == spent[k]);
        }
        lemma_spent_keys_of_payments(front, before, sender, recipient, amount, whole);
        let tx = txs[txs.len() - 1];
        assert(is_payment(tx, spent[spent.len() - 1], sender, recipient, share(whole, amount, txs.len() - 1)));
        assert(tx.inputs@.drop_last().len() == 0);
        assert(input_keys(tx.inputs@.drop_last()) =~= Set::<OutputKey>::empty());
        assert(tx.inputs@.last() == tx.inputs@[0]);
        assert(input_keys(tx.inputs@) =~= set![spent.last().key()]);
        assert(spent_keys(txs) =~= record_keys(spent));
    }
}

/// The payload of a candidate that pays out of the outputs selected from
/// the unspent outputs `utxos` passes the payload rules against them: a
/// block that the producer assembles from the ledger is refused for nothing
/// in its payload.
pub proof fn lemma_candidate_payload_accepted(
    block: Block,
    parent: Option<Block>,
    timestamp: u128,
    sender: Seq<char>,
    recipient: Seq<char>,
    amount: u64,
    utxos: Seq<UtxoRecord>,
)
    requires
        keys_distinct(utxos),
        is_candidate(
            block,
            parent,
            timestamp,
            sender,
            recipient,
            amount,
            select_largest_first(utxos, amount as nat, 0),
        ),
    ensures
        spec_apply_payload(utxos, block.transactions@) is Ok,
{
    let selected = select_largest_first(utxos, amount as nat, 0);
    let txs = block.transactions@;
    let payments = txs.skip(1);
    lemma_selection_from_pool(utxos, amount as nat, 0);
    assert forall|k: int| 0 <= k < selected.len() implies is_payment(
        #[trigger] payments[k],
        selected[k],
        sender,
        recipient,
        share(selected, amount as nat, k),
    ) by {
        assert(payments[k] == txs[k + 1]);
    }
    lemma_payments_pass(utxos, payments, selected, sender, recipient, amount as nat, selected);
}

/// A candidate that the producer assembled from a proof-of-work ledger, at a
/// time not before the last block's, passes the whole validation pipeline
/// of that ledger once it is mined.
pub proof fn lemma_mined_candidate_is_accepted(
    ledger: Blockchain,
    candidate: Block,
    sealed: Block,
    timestamp: u128,
    sender: Seq<char>,
    recipient: Seq<char>,
    amount: u64,
    nonce: u64,
)
    requires
        ledger.wf(),
        ledger.spec_consensus() is ProofOfWork,
        is_candidate(
            candidate,
            parent_of(ledger.spec_chain()),
            timestamp,
            sender,
            recipient,
            amount,
            select_largest_first(ledger.spec_utxos(), amount as nat, 0),
        ),
        ledger.spec_chain().len() > 0 ==> timestamp >= ledger.spec_chain().last().timestamp,
        mined_with(candidate, sealed, ledger.spec_consensus()->ProofOfWork_0, nonce),
    ensures
        spec_validate(ledger.spec_consensus(), ledger.spec_chain(), sealed) is Ok,
{
    let chain = ledger.spec_chain();
    let consensus = ledger.spec_consensus();
    lemma_replay_distinct(chain);
    lemma_candidate_payload_accepted(
        candidate,
        parent_of(chain),
        timestamp,
        sender,
        recipient,
        amount,
        ledger.spec_utxos(),
    );
    if chain.len() > 0 {
        lemma_block_checked(consensus, chain, chain.len() - 1);
        assert(chain.take(chain.len() - 1).len() == chain.len() - 1);
    }
    assert(sealed.transactions == candidate.transactions);
    assert(sealed.spec_hash_valid());
    assert(spec_check_links(consensus, chain, sealed) is Ok);
}

} // verus!
