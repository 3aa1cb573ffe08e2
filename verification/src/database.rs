//! The account database over a shard, and the choice of the databases that
//! a pool gives up.

use vstd::prelude::*;
use vstd::string::StringExecFns;
use crate::decimal::{decimal_text, to_decimal};
use crate::shardable::ShardDB;

verus! {

/// The text of the bytes `key` as a list: in brackets, in decimal, with a
/// comma and a space between them.
pub open spec fn list_text(key: Seq<u8>) -> Seq<char> {
    seq!['['] + items_text(key) + seq![']']
}

/// The bytes `key` in decimal, with a comma and a space between them.
pub open spec fn items_text(key: Seq<u8>) -> Seq<char>
    decreases key.len(),
{
    if key.len() == 0 {
        Seq::empty()
    } else if key.len() == 1 {
        decimal_text(key[0] as nat)
    } else {
        items_text(key.drop_last()) + seq![',', ' '] + decimal_text(key.last() as nat)
    }
}

/// What is answered for the account `key` where it is missing.
pub open spec fn missing_account(key: Seq<u8>) -> Seq<char> {
    "Error: The "@ + list_text(key) + " account ID does not exist"@
}

/// What is answered for the account `key` where it exists already.
pub open spec fn existing_account(key: Seq<u8>) -> Seq<char> {
    "Error: The "@ + list_text(key) + " account ID already exists"@
}

/// What is answered for the account `key` where it cannot be updated for
/// want of existing.
pub open spec fn absent_account(key: Seq<u8>) -> Seq<char> {
    "Error: The "@ + list_text(key) + " account ID is not exist"@
}

fn list_string(key: &[u8]) -> (text: String)
    ensures
        text@ == list_text(key@),
{
    proof {
        reveal_strlit("[");
        reveal_strlit("]");
        reveal_strlit(", ");
    }
    let mut text: String = String::from_str("[");
    let mut i: usize = 0;
    while i < key.len()
        invariant
            0 <= i <= key@.len(),
            text@ == seq!['['] + items_text(key@.take(i as int)),
        decreases key@.len() - i,
    {
        proof {
            assert(key@.take(i + 1).drop_last() =~= key@.take(i as int));
            assert(key@.take(i + 1).last() == key@[i as int]);
            assert(key@.take(i + 1)[0] == key@[0]);
        }
        let digits: String = to_decimal(key[i] as u64);
        if i > 0 {
            text = text.concat(", ");
        }
        text = text.concat(digits.as_str());
        proof {
            if i == 0 {
                assert(items_text(key@.take(0)) =~= Seq::<char>::empty());
                assert(text@ =~= seq!['['] + items_text(key@.take(1)));
            } else {
                reveal_strlit(", ");
                assert(", "@ =~= seq![',', ' ']);
                assert(key@.take(i + 1).len() > 1);
                assert(items_text(key@.take(i + 1)) == items_text(key@.take(i as int)) + seq![
                    ',',
                    ' ',
                ] + decimal_text(key@[i as int] as nat));
                assert(text@ =~= seq!['['] + items_text(key@.take(i + 1)));
            }
        }
        i = i + 1;
    }
    proof {
        assert(key@.take(key@.len() as int) =~= key@);
    }
    text.concat("]")
}

/// The accounts of one shard.
pub struct Database<D: ShardDB> {
    pub db: D,
}

impl<D: ShardDB> Database<D> {
    /// The account database over the shard `db`.
    pub fn new(db: D) -> (database: Self)
        ensures
            database.db == db,
    {
        Database { db }
    }

    /// The data of the account `key`. A missing account is an error.
    pub fn get(&self, key: &[u8]) -> (res: Result<Option<Vec<u8>>, String>)
        ensures
            if self.db.contents().contains_key(key@) {
                res matches Ok(Some(v)) && v@ == self.db.contents()[key@]
            } else {
                res matches Err(e) && e@ == missing_account(key@)
            },
    {
        match self.db.read(key) {
            Some(v) => Ok(Some(v)),
            None => {
                let message: String = String::from_str("Error: The ").concat(
                    list_string(key).as_str(),
                ).concat(" account ID does not exist");
                Err(message)
            },
        }
    }

    /// Stores `value` for the new account `key`. An account that exists
    /// already is an error, and nothing changes.
    pub fn create_account(&mut self, key: &[u8], value: &[u8]) -> (res: Result<(), String>)
        ensures
            if old(self).db.contents().contains_key(key@) {
                &&& res matches Err(e) && e@ == existing_account(key@)
                &&& final(self).db.contents() == old(self).db.contents()
            } else {
                &&& res is Ok
                &&& final(self).db.contents() == old(self).db.contents().insert(key@, value@)
            },
    {
        match self.db.read(key) {
            Some(_) => {
                let message: String = String::from_str("Error: The ").concat(
                    list_string(key).as_str(),
                ).concat(" account ID already exists");
                Err(message)
            },
            None => {
                self.db.write(key, value);
                Ok(())
            },
        }
    }

    /// Stores `value` for the account `key`, which must exist. Else nothing
    /// changes.
    pub fn update(&mut self, key: &[u8], value: &[u8]) -> (res: Result<(), String>)
        ensures
            if old(self).db.contents().contains_key(key@) {
                &&& res is Ok
                &&& final(self).db.contents() == old(self).db.contents().insert(key@, value@)
            } else {
                &&& res matches Err(e) && e@ == absent_account(key@)
                &&& final(self).db.contents() == old(self).db.contents()
            },
    {
        match self.db.read(key) {
            Some(_) => {
                self.db.write(key, value);
                Ok(())
            },
            None => {
                let message: String = String::from_str("Error: The ").concat(
                    list_string(key).as_str(),
                ).concat(" account ID is not exist");
                Err(message)
            },
        }
    }
}

/// How many databases a pool of `held` gives up at once: a quarter of them,
/// and one at least.
pub open spec fn spec_give_up_count(held: nat) -> nat {
    if held / 4 >= 1 {
        held / 4
    } else {
        1
    }
}

/// How many databases a pool of `held` gives up at once.
pub fn give_up_count(held: usize) -> (count: usize)
    ensures
        count == spec_give_up_count(held as nat),
{
    let quarter: usize = held / 4;
    if quarter >= 1 {
        quarter
    } else {
        1
    }
}

/// The place of the smallest of `usage`, the first of them where several
/// are equal.
pub open spec fn first_smallest(usage: Seq<u64>) -> int
    decreases usage.len(),
{
    if usage.len() <= 1 {
        0
    } else {
        let before = first_smallest(usage.drop_last());
        if usage.last() < usage[before] {
            usage.len() - 1
        } else {
            before
        }
    }
}

/// `first_smallest` names a place of `usage`.
pub proof fn lemma_first_smallest(usage: Seq<u64>)
    requires
        usage.len() > 0,
    ensures
        0 <= first_smallest(usage) < usage.len(),
        forall|j: int| 0 <= j < usage.len() ==> usage[first_smallest(usage)] <= #[trigger] usage[j],
    decreases usage.len(),
{
    if usage.len() > 1 {
        lemma_first_smallest(usage.drop_last());
        let before = first_smallest(usage.drop_last());
        assert(usage.drop_last()[before] == usage[before]);
        assert forall|j: int| 0 <= j < usage.len() implies usage[first_smallest(usage)]
            <= #[trigger] usage[j] by {
            if j < usage.len() - 1 {
                assert(usage.drop_last()[j] == usage[j]);
            }
        }
    }
}

/// The places of the `count` least used among the databases that stand at
/// `places` with the usage `usage`, least used first and, among equals, the
/// one that stands first.
pub open spec fn least_used(places: Seq<usize>, usage: Seq<u64>, count: nat) -> Seq<usize>
    decreases count,
{
    if count == 0 || usage.len() == 0 || places.len() != usage.len() {
        Seq::empty()
    } else {
        let i = first_smallest(usage);
        seq![places[i]] + least_used(places.remove(i), usage.remove(i), (count - 1) as nat)
    }
}


/// The places in `usage` of the databases that a pool gives up: the
/// `give_up_count` least used of them.
pub fn pick_least_used(usage: &Vec<u64>) -> (picked: Vec<usize>)
    ensures
        picked@ == least_used(
            Seq::new(usage@.len(), |i: int| i as usize),
            usage@,
            spec_give_up_count(usage@.len()),
        ),
{
    let n: usize = usage.len();
    let mut places: Vec<usize> = Vec::new();
    let mut left: Vec<u64> = Vec::new();
    let mut k: usize = 0;
    while k < n
        invariant
            0 <= k <= n,
            n == usage@.len(),
            places@ =~= Seq::new(k as nat, |i: int| i as usize),
            left@ =~= usage@.take(k as int),
        decreases n - k,
    {
        places.push(k);
        left.push(usage[k]);
        k = k + 1;
    }
    proof {
        assert(usage@.take(n as int) =~= usage@);
    }
    let ghost all_places = places@;
    let goal: usize = give_up_count(n);
    let mut picked: Vec<usize> = Vec::new();
    let mut taken: usize = 0;
    while taken < goal && left.len() > 0
        invariant
            0 <= taken <= goal,
            places@.len() == left@.len(),
            picked@ + least_used(places@, left@, (goal - taken) as nat) == least_used(
                all_places,
                usage@,
                goal as nat,
            ),
        decreases goal - taken,
    {
        let mut best: usize = 0;
        let mut j: usize = 1;
        assert(left@.take(1).drop_last() =~= left@.take(0));
        while j < left.len()
            invariant
                1 <= j <= left@.len(),
                0 <= best < j,
                best == first_smallest(left@.take(j as int)),
            decreases left@.len() - j,
        {
            proof {
                assert(left@.take(j + 1).drop_last() =~= left@.take(j as int));
                assert(left@.take(j + 1).last() == left@[j as int]);
                assert(left@.take(j as int)[best as int] == left@[best as int]);
            }
            if left[j] < left[best] {
                best = j;
            }
            j = j + 1;
        }
        proof {
            assert(left@.take(left@.len() as int) =~= left@);
        }
        let ghost chosen = picked@;
        let ghost rest_places = places@.remove(best as int);
        let ghost rest_left = left@.remove(best as int);
        let place: usize = places[best];
        picked.push(place);
        places.remove(best);
        left.remove(best);
        proof {
            assert(picked@ =~= chosen + seq![place]);
            assert(chosen + (seq![place] + least_used(
                rest_places,
                rest_left,
                (goal - taken - 1) as nat,
            )) =~= chosen + seq![place] + least_used(
                rest_places,
                rest_left,
                (goal - taken - 1) as nat,
            ));
        }
        taken = taken + 1;
    }
    proof {
        assert(least_used(places@, left@, (goal - taken) as nat) =~= Seq::<usize>::empty());
        assert(picked@ + Seq::<usize>::empty() =~= picked@);
    }
    picked
}

/// The seconds after which a database that was not used is forgotten.
pub const FORGET_AFTER_SECS: u64 = 14400;

/// Whether a pool forgets a database that was last used `elapsed_secs`
/// seconds ago: it does once the time is up, unless the database is among
/// those whose usage it has just measured and kept.
pub fn forgets(elapsed_secs: u64, measured: bool) -> (forget: bool)
    ensures
        forget == (elapsed_secs >= FORGET_AFTER_SECS && !measured),
{
    elapsed_secs >= FORGET_AFTER_SECS && !measured
}

} // verus!
