//! The unspent outputs: added when a block creates them, spent exactly once,
//! summed for a balance, and selected largest first to cover an amount.

use vstd::prelude::*;
use crate::error::BlockValidationErr;
use crate::transaction::{lemma_count_times_amount_fits, OutputKey};

verus! {

/// An unspent output as the contracts see it.
pub struct UtxoRecord {
    pub txid: Seq<char>,
    pub index: nat,
    pub value: u64,
    pub script_pubkey: Seq<char>,
}

impl UtxoRecord {
    /// The key under which the record is kept.
    pub open spec fn key(self) -> OutputKey {
        (self.txid, self.index)
    }
}

/// Whether no two records of `s` share a key.
pub open spec fn keys_distinct(s: Seq<UtxoRecord>) -> bool {
    forall|i: int, j: int| #![trigger s[i], s[j]] 0 <= i < j < s.len() ==> s[i].key() != s[j].key()
}

/// Whether `s` holds a record under `key`.
pub open spec fn holds_key(s: Seq<UtxoRecord>, key: OutputKey) -> bool {
    exists|i: int| 0 <= i < s.len() && (#[trigger] s[i]).key() == key
}

/// The place in `s` of a record kept under `key`.
pub open spec fn position_of(s: Seq<UtxoRecord>, key: OutputKey) -> int {
    choose|i: int| 0 <= i < s.len() && (#[trigger] s[i]).key() == key
}

/// The keys of the records of `s`.
pub open spec fn key_set(s: Seq<UtxoRecord>) -> Set<OutputKey> {
    Set::new(|key: OutputKey| holds_key(s, key))
}

/// `s` with `record` added: in the place of the record that had its key, or
/// else at the end.
pub open spec fn with_record(s: Seq<UtxoRecord>, record: UtxoRecord) -> Seq<UtxoRecord> {
    if holds_key(s, record.key()) {
        s.update(position_of(s, record.key()), record)
    } else {
        s.push(record)
    }
}

/// `s` without the record kept under `key`.
pub open spec fn without_key(s: Seq<UtxoRecord>, key: OutputKey) -> Seq<UtxoRecord> {
    if holds_key(s, key) {
        s.remove(position_of(s, key))
    } else {
        s
    }
}

/// The sum of the amounts of `s`.
pub open spec fn total_value(s: Seq<UtxoRecord>) -> nat
    decreases s.len(),
{
    if s.len() == 0 {
        0
    } else {
        total_value(s.drop_last()) + s.last().value as nat
    }
}

/// The place of the largest amount of `pool`, the first of them where
/// several are equal.
pub open spec fn first_largest(pool: Seq<UtxoRecord>) -> int
    decreases pool.len(),
{
    if pool.len() <= 1 {
        0
    } else {
        let before = first_largest(pool.drop_last());
        if pool.last().value > pool[before].value {
            pool.len() - 1
        } else {
            before
        }
    }
}

/// Greedy selection, largest amount first: while less than `target` is
/// gathered and records are left, the largest one left is taken.
pub open spec fn select_largest_first(pool: Seq<UtxoRecord>, target: nat, gathered: nat) -> Seq<
    UtxoRecord,
>
    decreases pool.len(),
    via select_largest_first_decreases
{
    if gathered >= target || pool.len() == 0 {
        Seq::empty()
    } else {
        let i = first_largest(pool);
        seq![pool[i]] + select_largest_first(
            pool.remove(i),
            target,
            gathered + pool[i].value as nat,
        )
    }
}

#[via_fn]
proof fn select_largest_first_decreases(pool: Seq<UtxoRecord>, target: nat, gathered: nat) {
    if pool.len() > 0 {
        lemma_first_largest(pool);
    }
}

/// `first_largest` names a place of `pool` whose amount none exceeds and none
/// before it reaches.
pub proof fn lemma_first_largest(pool: Seq<UtxoRecord>)
    requires
        pool.len() > 0,
    ensures
        0 <= first_largest(pool) < pool.len(),
        forall|j: int| 0 <= j < pool.len() ==> (#[trigger] pool[j]).value <= pool[first_largest(
            pool,
        )].value,
        forall|j: int|
            0 <= j < first_largest(pool) ==> (#[trigger] pool[j]).value < pool[first_largest(
                pool,
            )].value,
    decreases pool.len(),
{
    if pool.len() > 1 {
        let front = pool.drop_last();
        lemma_first_largest(front);
        let before = first_largest(front);
        assert(front[before] == pool[before]);
        assert forall|j: int| 0 <= j < pool.len() implies (#[trigger] pool[j]).value
            <= pool[first_largest(pool)].value by {
            if j < front.len() {
                assert(front[j] == pool[j]);
            }
        }
        assert forall|j: int| 0 <= j < first_largest(pool) implies (#[trigger] pool[j]).value
            < pool[first_largest(pool)].value by {
            assert(front[j] == pool[j]);
        }
    }
}

/// A sum of `n` amounts is at most `n` times the largest amount.
pub proof fn lemma_total_value_bound(s: Seq<UtxoRecord>)
    ensures
        total_value(s) <= s.len() * 0xffff_ffff_ffff_ffff,
    decreases s.len(),
{
    if s.len() > 0 {
        lemma_total_value_bound(s.drop_last());
        assert((s.len() - 1) * 0xffff_ffff_ffff_ffff + 0xffff_ffff_ffff_ffff == s.len()
            * 0xffff_ffff_ffff_ffff) by (nonlinear_arith);
    }
}

/// Taking a record out lowers the sum by its amount.
pub proof fn lemma_total_value_remove(s: Seq<UtxoRecord>, i: int)
    requires
        0 <= i < s.len(),
    ensures
        total_value(s.remove(i)) + s[i].value == total_value(s),
    decreases s.len(),
{
    if i == s.len() - 1 {
        assert(s.remove(i) =~= s.drop_last());
    } else {
        lemma_total_value_remove(s.drop_last(), i);
        assert(s.remove(i).drop_last() =~= s.drop_last().remove(i));
        assert(s.remove(i).last() == s.last());
    }
}

/// Appending a record raises the sum by its amount.
pub proof fn lemma_total_value_push(s: Seq<UtxoRecord>, record: UtxoRecord)
    ensures
        total_value(s.push(record)) == total_value(s) + record.value,
{
    assert(s.push(record).drop_last() =~= s);
}

/// What the selection gathers reaches the target whenever the pool could.
pub proof fn lemma_selection_reaches_target(pool: Seq<UtxoRecord>, target: nat, gathered: nat)
    requires
        gathered + total_value(pool) >= target,
    ensures
        gathered + total_value(select_largest_first(pool, target, gathered)) >= target,
    decreases pool.len(),
{
    if gathered >= target || pool.len() == 0 {
    } else {
        lemma_first_largest(pool);
        let i = first_largest(pool);
        let rest = select_largest_first(pool.remove(i), target, gathered + pool[i].value as nat);
        lemma_total_value_remove(pool, i);
        lemma_selection_reaches_target(pool.remove(i), target, gathered + pool[i].value as nat);
        lemma_total_value_prepend(pool[i], rest);
    }
}

/// Putting a record in front raises the sum by its amount.
pub proof fn lemma_total_value_prepend(record: UtxoRecord, s: Seq<UtxoRecord>)
    ensures
        total_value(seq![record] + s) == record.value + total_value(s),
    decreases s.len(),
{
    let all = seq![record] + s;
    assert(all.len() == s.len() + 1);
    if s.len() == 0 {
        assert(all.drop_last() =~= Seq::<UtxoRecord>::empty());
        assert(all.last() == record);
        assert(total_value(all.drop_last()) == 0);
    } else {
        lemma_total_value_prepend(record, s.drop_last());
        assert(all.drop_last() =~= seq![record] + s.drop_last());
        assert(all.last() == s.last());
    }
}

/// With distinct keys, each record stands at the place of its key.
pub proof fn lemma_position_of(s: Seq<UtxoRecord>, i: int)
    requires
        keys_distinct(s),
        0 <= i < s.len(),
    ensures
        holds_key(s, s[i].key()),
        position_of(s, s[i].key()) == i,
{
    assert(holds_key(s, s[i].key()));
    let j = position_of(s, s[i].key());
    if j < i {
        assert(s[j].key() != s[i].key());
    } else if i < j {
        assert(s[i].key() != s[j].key());
    }
}

/// Adding a record keeps the keys distinct and adds its key to the key set.
pub proof fn lemma_with_record(s: Seq<UtxoRecord>, record: UtxoRecord)
    requires
        keys_distinct(s),
    ensures
        keys_distinct(with_record(s, record)),
        key_set(with_record(s, record)) == key_set(s).insert(record.key()),
{
    let t = with_record(s, record);
    let key = record.key();
    if holds_key(s, key) {
        let p = position_of(s, key);
        assert forall|i: int, j: int| 0 <= i < j < t.len() implies (#[trigger] t[i]).key() != (
        #[trigger] t[j]).key() by {
            assert(s[i].key() != s[j].key());
        }
        assert forall|k: OutputKey| holds_key(t, k) <==> (k == key || holds_key(s, k)) by {
            if holds_key(t, k) {
                let i = position_of(t, k);
                assert(s[i].key() == k);
            }
            if holds_key(s, k) {
                let i = position_of(s, k);
                assert(t[i].key() == k);
            }
        }
    } else {
        assert forall|i: int, j: int| 0 <= i < j < t.len() implies (#[trigger] t[i]).key() != (
        #[trigger] t[j]).key() by {
            if j < s.len() {
                assert(s[i].key() != s[j].key());
            } else {
                assert(s[i].key() != key);
            }
        }
        assert forall|k: OutputKey| holds_key(t, k) <==> (k == key || holds_key(s, k)) by {
            if holds_key(t, k) {
                let i = position_of(t, k);
                if i < s.len() {
                    assert(s[i].key() == k);
                }
            }
            if holds_key(s, k) {
                let i = position_of(s, k);
                assert(t[i].key() == k);
            }
            if k == key {
                assert(t[s.len() as int].key() == k);
            }
        }
    }
    assert(key_set(t) =~= key_set(s).insert(key));
}

/// Taking a key out keeps the keys distinct and takes the key from the key
/// set.
pub proof fn lemma_without_key(s: Seq<UtxoRecord>, key: OutputKey)
    requires
        keys_distinct(s),
    ensures
        keys_distinct(without_key(s, key)),
        key_set(without_key(s, key)) == key_set(s).remove(key),
{
    let t = without_key(s, key);
    if holds_key(s, key) {
        let p = position_of(s, key);
        assert forall|i: int, j: int| 0 <= i < j < t.len() implies (#[trigger] t[i]).key() != (
        #[trigger] t[j]).key() by {
            let si = if i < p { i } else { i + 1 };
            let sj = if j < p { j } else { j + 1 };
            assert(s[si].key() != s[sj].key());
        }
        assert forall|k: OutputKey| holds_key(t, k) <==> (k != key && holds_key(s, k)) by {
            if holds_key(t, k) {
                let i = position_of(t, k);
                let si = if i < p { i } else { i + 1 };
                assert(s[si].key() == k);
                if si < p {
                    assert(s[si].key() != s[p].key());
                } else {
                    assert(s[p].key() != s[si].key());
                }
            }
            if k != key && holds_key(s, k) {
                let i = position_of(s, k);
                let ti = if i < p { i } else { i - 1 };
                assert(t[ti].key() == k);
            }
        }
    }
    assert(key_set(t) =~= key_set(s).remove(key));
}

/// What is stored for an unspent output: its amount and the descriptor of who
/// may spend it.
#[derive(Debug)]
pub struct Utxo {
    pub value: u64,
    pub script_pubkey: String,
}

struct UtxoEntry {
    txid: String,
    index: usize,
    utxo: Utxo,
}

impl UtxoEntry {
    spec fn record(&self) -> UtxoRecord {
        UtxoRecord {
            txid: self.txid@,
            index: self.index as nat,
            value: self.utxo.value,
            script_pubkey: self.utxo.script_pubkey@,
        }
    }
}

spec fn records_of(entries: Seq<UtxoEntry>) -> Seq<UtxoRecord> {
    Seq::new(entries.len(), |i: int| entries[i].record())
}

/// The record that a selected input stands for.
pub open spec fn selected_record(input: (String, usize, u64, String)) -> UtxoRecord {
    UtxoRecord { txid: input.0@, index: input.1 as nat, value: input.2, script_pubkey: input.3@ }
}

/// The records that selected inputs stand for.
pub open spec fn selected_records(inputs: Seq<(String, usize, u64, String)>) -> Seq<UtxoRecord> {
    Seq::new(inputs.len(), |i: int| selected_record(inputs[i]))
}

/// The set of unspent outputs, in the order in which their keys were first
/// added.
pub struct UtxoSet {
    utxos: Vec<UtxoEntry>,
}

impl View for UtxoSet {
    type V = Seq<UtxoRecord>;

    closed spec fn view(&self) -> Seq<UtxoRecord> {
        records_of(self.utxos@)
    }
}

impl Clone for UtxoSet {
    fn clone(&self) -> (copy: Self)
        ensures
            copy@ == self@,
    {
        proof {
            use_type_invariant(self);
        }
        let mut held: Vec<UtxoEntry> = Vec::new();
        let mut i: usize = 0;
        while i < self.utxos.len()
            invariant
                0 <= i <= self.utxos@.len(),
                held@.len() == i,
                forall|j: int| 0 <= j < i ==> (#[trigger] held@[j]).record() == self.utxos@[j].record(),
            decreases self.utxos@.len() - i,
        {
            let e = &self.utxos[i];
            held.push(
                UtxoEntry {
                    txid: e.txid.clone(),
                    index: e.index,
                    utxo: Utxo { value: e.utxo.value, script_pubkey: e.utxo.script_pubkey.clone() },
                },
            );
            i = i + 1;
        }
        assert(records_of(held@) =~= records_of(self.utxos@));
        UtxoSet { utxos: held }
    }
}

impl UtxoSet {
    /// No key is held twice.
    #[verifier::type_invariant]
    pub closed spec fn wf(&self) -> bool {
        keys_distinct(records_of(self.utxos@))
    }

    /// A well-formed set holds each key once.
    pub proof fn lemma_wf_distinct(&self)
        requires
            self.wf(),
        ensures
            keys_distinct(self@),
    {
    }

    /// The empty set.
    pub fn new() -> (set: Self)
        ensures
            set@ == Seq::<UtxoRecord>::empty(),
    {
        let set = UtxoSet { utxos: Vec::new() };
        assert(set@ =~= Seq::<UtxoRecord>::empty());
        set
    }

    /// The number of unspent outputs.
    pub fn len(&self) -> (n: usize)
        ensures
            n == self@.len(),
    {
        self.utxos.len()
    }

    fn find(&self, txid: &String, output_index: usize) -> (place: Option<usize>)
        ensures
            match place {
                Some(p) => p < self@.len() && self@[p as int].key() == (
                    txid@,
                    output_index as nat,
                ) && p == position_of(self@, (txid@, output_index as nat)) && holds_key(
                    self@,
                    (txid@, output_index as nat),
                ),
                None => !holds_key(self@, (txid@, output_index as nat)),
            },
    {
        proof {
            use_type_invariant(self);
        }
        let ghost key: OutputKey = (txid@, output_index as nat);
        let mut i: usize = 0;
        while i < self.utxos.len()
            invariant
                0 <= i <= self.utxos@.len(),
                key == (txid@, output_index as nat),
                keys_distinct(self@),
                forall|j: int| 0 <= j < i ==> (#[trigger] self@[j]).key() != key,
            decreases self.utxos@.len() - i,
        {
            if self.utxos[i].index == output_index && self.utxos[i].txid == *txid {
                proof {
                    assert(self@[i as int].key() == key);
                    lemma_position_of(self@, i as int);
                }
                return Some(i);
            }
            assert(self@[i as int].key() != key);
            i = i + 1;
        }
        None
    }

    /// Whether the output `output_index` of transaction `txid` is unspent.
    pub fn contains(&self, txid: &String, output_index: usize) -> (held: bool)
        ensures
            held == holds_key(self@, (txid@, output_index as nat)),
    {
        self.find(txid, output_index).is_some()
    }

    /// The amount stored for output `output_index` of transaction `txid`, if
    /// it is unspent.
    pub fn value_of(&self, txid: &String, output_index: usize) -> (value: Option<u64>)
        ensures
            value == if holds_key(self@, (txid@, output_index as nat)) {
                Some(self@[position_of(self@, (txid@, output_index as nat))].value)
            } else {
                None
            },
    {
        match self.find(txid, output_index) {
            Some(p) => Some(self.utxos[p].utxo.value),
            None => None,
        }
    }

    /// What is stored for output `output_index` of transaction `txid`, if it
    /// is unspent.
    pub fn get(&self, txid: &String, output_index: usize) -> (utxo: Option<Utxo>)
        ensures
            match utxo {
                Some(u) => {
                    &&& holds_key(self@, (txid@, output_index as nat))
                    &&& u.value == self@[position_of(self@, (txid@, output_index as nat))].value
                    &&& u.script_pubkey@ == self@[position_of(
                        self@,
                        (txid@, output_index as nat),
                    )].script_pubkey
                },
                None => !holds_key(self@, (txid@, output_index as nat)),
            },
    {
        match self.find(txid, output_index) {
            Some(p) => Some(
                Utxo {
                    value: self.utxos[p].utxo.value,
                    script_pubkey: self.utxos[p].utxo.script_pubkey.clone(),
                },
            ),
            None => None,
        }
    }

    /// Records an unspent output under the key `(txid, output_index)`. A
    /// record already kept under that key is replaced where it stands.
    pub fn add_utxo(&mut self, txid: String, output_index: usize, value: u64, script_pubkey: String)
        ensures
            final(self)@ == with_record(
                old(self)@,
                UtxoRecord {
                    txid: txid@,
                    index: output_index as nat,
                    value,
                    script_pubkey: script_pubkey@,
                },
            ),
    {
        proof {
            use_type_invariant(&*self);
        }
        let ghost before = self@;
        let ghost record = UtxoRecord {
            txid: txid@,
            index: output_index as nat,
            value,
            script_pubkey: script_pubkey@,
        };
        let place = self.find(&txid, output_index);
        let entry = UtxoEntry { txid, index: output_index, utxo: Utxo { value, script_pubkey } };
        let mut held: Vec<UtxoEntry> = Vec::new();
        core::mem::swap(&mut self.utxos, &mut held);
        match place {
            Some(p) => {
                held.remove(p);
                held.insert(p, entry);
                assert(records_of(held@) =~= before.update(p as int, record));
            },
            None => {
                held.push(entry);
                assert(records_of(held@) =~= before.push(record));
            },
        }
        proof {
            lemma_with_record(before, record);
        }
        self.utxos = held;
    }

    /// Spends the output `output_index` of transaction `txid`: takes its
    /// record out. Where no such output is unspent, nothing changes and the
    /// error is `DoubleSpend`.
    pub fn spend(&mut self, txid: String, output_index: usize) -> (res: Result<
        (),
        BlockValidationErr,
    >)
        ensures
            res is Ok <==> holds_key(old(self)@, (txid@, output_index as nat)),
            res is Err ==> res == Err::<(), BlockValidationErr>(BlockValidationErr::DoubleSpend),
            final(self)@ == without_key(old(self)@, (txid@, output_index as nat)),
            res is Err ==> final(self)@ == old(self)@,
    {
        proof {
            use_type_invariant(&*self);
        }
        let ghost before = self@;
        match self.find(&txid, output_index) {
            Some(p) => {
                let mut held: Vec<UtxoEntry> = Vec::new();
                core::mem::swap(&mut self.utxos, &mut held);
                held.remove(p);
                proof {
                    assert(records_of(held@) =~= before.remove(p as int));
                    lemma_without_key(before, (txid@, output_index as nat));
                }
                self.utxos = held;
                Ok(())
            },
            None => Err(BlockValidationErr::DoubleSpend),
        }
    }

    /// The sum of all unspent amounts. It is exact: as many amounts as the
    /// set holds cannot exceed 128 bits.
    pub fn get_balance(&self) -> (balance: u128)
        ensures
            balance == total_value(self@),
    {
        let mut balance: u128 = 0;
        let mut i: usize = 0;
        while i < self.utxos.len()
            invariant
                0 <= i <= self.utxos@.len(),
                balance == total_value(self@.take(i as int)),
            decreases self.utxos@.len() - i,
        {
            proof {
                lemma_total_value_bound(self@.take(i as int));
                lemma_count_times_amount_fits(i as nat);
                assert(self@.take(i + 1).drop_last() =~= self@.take(i as int));
            }
            balance = balance + self.utxos[i].utxo.value as u128;
            i = i + 1;
        }
        assert(self@.take(self@.len() as int) =~= self@);
        balance
    }

    /// Selects unspent outputs to cover `target_value`, largest amount first
    /// and, among equal amounts, the one added first: outputs are taken while
    /// what is gathered is below the target. Where all unspent outputs
    /// together do not reach the target, the error is `InsufficientFunds`.
    pub fn get_optimal_inputs(&self, target_value: u64) -> (res: Result<
        Vec<(String, usize, u64, String)>,
        BlockValidationErr,
    >)
        ensures
            res is Ok <==> total_value(self@) >= target_value,
            res is Err ==> res == Err::<Vec<(String, usize, u64, String)>, BlockValidationErr>(
                BlockValidationErr::InsufficientFunds,
            ),
            res matches Ok(inputs) ==> selected_records(inputs@) == select_largest_first(
                self@,
                target_value as nat,
                0,
            ) && total_value(selected_records(inputs@)) >= target_value,
    {
        let balance: u128 = self.get_balance();
        if balance < target_value as u128 {
            return Err(BlockValidationErr::InsufficientFunds);
        }
        let ghost all = self@;
        let n: usize = self.utxos.len();
        // The places of the outputs not yet taken, in their order.
        let mut left: Vec<usize> = Vec::new();
        let mut k: usize = 0;
        while k < n
            invariant
                0 <= k <= n,
                n == self.utxos@.len(),
                left@.len() == k,
                forall|j: int| 0 <= j < k ==> left@[j] == j,
            decreases n - k,
        {
            left.push(k);
            k = k + 1;
        }
        let ghost pool: Seq<UtxoRecord> = all;
        let mut inputs: Vec<(String, usize, u64, String)> = Vec::new();
        let mut gathered: u128 = 0;
        assert(selected_records(inputs@) =~= Seq::<UtxoRecord>::empty());
        while gathered < target_value as u128 && left.len() > 0
            invariant
                all == self@,
                n == self.utxos@.len(),
                pool.len() == left@.len(),
                left@.len() + inputs@.len() == n,
                forall|j: int| 0 <= j < left@.len() ==> 0 <= #[trigger] left@[j] < n,
                forall|j: int| 0 <= j < left@.len() ==> pool[j] == all[#[trigger] left@[j] as int],
                gathered <= inputs@.len() * 0xffff_ffff_ffff_ffff,
                selected_records(inputs@) + select_largest_first(
                    pool,
                    target_value as nat,
                    gathered as nat,
                ) == select_largest_first(all, target_value as nat, 0),
            decreases left@.len(),
        {
            // The first of the largest amounts among those left.
            let mut best: usize = 0;
            let mut j: usize = 1;
            assert(pool.take(1).drop_last() =~= pool.take(0));
            while j < left.len()
                invariant
                    1 <= j <= left@.len(),
                    0 <= best < j,
                    all == self@,
                    n == self.utxos@.len(),
                    pool.len() == left@.len(),
                    forall|m: int| 0 <= m < left@.len() ==> 0 <= #[trigger] left@[m] < n,
                    forall|m: int|
                        0 <= m < left@.len() ==> pool[m] == all[#[trigger] left@[m] as int],
                    best == first_largest(pool.take(j as int)),
                decreases left@.len() - j,
            {
                proof {
                    assert(pool.take(j + 1).drop_last() =~= pool.take(j as int));
                    assert(pool.take(j + 1).last() == pool[j as int]);
                    assert(pool.take(j as int)[best as int] == pool[best as int]);
                    assert(pool.take(j + 1)[best as int] == pool[best as int]);
                    assert(pool[j as int] == all[left@[j as int] as int]);
                    assert(pool[best as int] == all[left@[best as int] as int]);
                }
                if self.utxos[left[j]].utxo.value > self.utxos[left[best]].utxo.value {
                    best = j;
                }
                j = j + 1;
            }
            proof {
                assert(pool.take(pool.len() as int) =~= pool);
                assert(pool[best as int] == all[left@[best as int] as int]);
            }
            let at: usize = left[best];
            let entry = &self.utxos[at];
            let taken: (String, usize, u64, String) = (
                entry.txid.clone(),
                entry.index,
                entry.utxo.value,
                entry.utxo.script_pubkey.clone(),
            );
            proof {
                assert(selected_record(taken) == pool[best as int]);
                lemma_count_times_amount_fits(inputs@.len());
                assert((inputs@.len() + 1) * 0xffff_ffff_ffff_ffff == inputs@.len()
                    * 0xffff_ffff_ffff_ffff + 0xffff_ffff_ffff_ffff) by (nonlinear_arith);
            }
            let ghost chosen = selected_records(inputs@);
            let ghost rest = pool.remove(best as int);
            gathered = gathered + entry.utxo.value as u128;
            inputs.push(taken);
            left.remove(best);
            proof {
                assert(selected_records(inputs@) =~= chosen + seq![pool[best as int]]);
                assert(chosen + (seq![pool[best as int]] + select_largest_first(
                    rest,
                    target_value as nat,
                    gathered as nat,
                )) =~= chosen + seq![pool[best as int]] + select_largest_first(
                    rest,
                    target_value as nat,
                    gathered as nat,
                ));
                pool = rest;
            }
        }
        proof {
            lemma_selection_reaches_target(all, target_value as nat, 0);
            assert(select_largest_first(pool, target_value as nat, gathered as nat)
                =~= Seq::<UtxoRecord>::empty());
            assert(selected_records(inputs@) + Seq::<UtxoRecord>::empty() =~= selected_records(
                inputs@,
            ));
        }
        Ok(inputs)
    }
}

} // verus!
