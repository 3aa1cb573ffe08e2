//! What a shard database must offer, and the merging of accounts into one.

use vstd::prelude::*;

verus! {

/// A shard database: a store of values under byte-string keys.
pub trait ShardDB: Sized {
    /// What the database holds. A database that does not say so holds what
    /// nothing is known of.
    open spec fn contents(&self) -> Map<Seq<u8>, Seq<u8>> {
        arbitrary()
    }

    /// Opens the database at `path`.
    fn open(path: &str) -> Self;

    /// Stores `value` under `key`, in the place of what was there.
    fn write(&mut self, key: &[u8], value: &[u8])
        ensures
            final(self).contents() == old(self).contents().insert(key@, value@),
    ;

    /// What is stored under `key`, if anything.
    fn read(&self, key: &[u8]) -> (value: Option<Vec<u8>>)
        ensures
            match value {
                Some(v) => self.contents().contains_key(key@) && v@ == self.contents()[key@],
                None => !self.contents().contains_key(key@),
            },
    ;
}

/// `contents` after the accounts `accounts`, each an identity with its data,
/// were written in order.
pub open spec fn with_accounts(contents: Map<Seq<u8>, Seq<u8>>, accounts: Seq<(Vec<u8>, Vec<u8>)>) -> Map<
    Seq<u8>,
    Seq<u8>,
>
    decreases accounts.len(),
{
    if accounts.len() == 0 {
        contents
    } else {
        with_accounts(contents, accounts.drop_last()).insert(
            accounts.last().0@,
            accounts.last().1@,
        )
    }
}

/// Writes each account of `accounts`, an identity with its data, to the
/// shard `db`.
pub fn merge_accounts_into_shards<D: ShardDB>(accounts: Vec<(Vec<u8>, Vec<u8>)>, db: &mut D)
    ensures
        final(db).contents() == with_accounts(old(db).contents(), accounts@),
{
    let mut i: usize = 0;
    while i < accounts.len()
        invariant
            0 <= i <= accounts@.len(),
            db.contents() == with_accounts(old(db).contents(), accounts@.take(i as int)),
        decreases accounts@.len() - i,
    {
        proof {
            assert(accounts@.take(i + 1).drop_last() =~= accounts@.take(i as int));
            assert(accounts@.take(i + 1).last() == accounts@[i as int]);
        }
        db.write(accounts[i].0.as_slice(), accounts[i].1.as_slice());
        i = i + 1;
    }
    proof {
        assert(accounts@.take(accounts@.len() as int) =~= accounts@);
    }
}

/// Whether two byte strings are the same.
pub fn bytes_equal(a: &[u8], b: &[u8]) -> (same: bool)
    ensures
        same == (a@ == b@),
{
    if a.len() != b.len() {
        return false;
    }
    let mut i: usize = 0;
    while i < a.len()
        invariant
            0 <= i <= a@.len(),
            a@.len() == b@.len(),
            forall|j: int| 0 <= j < i ==> a@[j] == b@[j],
        decreases a@.len() - i,
    {
        if a[i] != b[i] {
            return false;
        }
        i = i + 1;
    }
    assert(a@ =~= b@);
    true
}

/// What a log of writes leaves stored.
pub open spec fn log_contents(log: Seq<(Vec<u8>, Vec<u8>)>) -> Map<Seq<u8>, Seq<u8>> {
    with_accounts(Map::empty(), log)
}

/// A shard database that lives in memory: the log of what was written.
pub struct MemoryShard {
    log: Vec<(Vec<u8>, Vec<u8>)>,
}

impl MemoryShard {
    /// The empty database.
    pub fn new() -> (db: Self)
        ensures
            db.contents() == Map::<Seq<u8>, Seq<u8>>::empty(),
    {
        MemoryShard { log: Vec::new() }
    }
}

impl ShardDB for MemoryShard {
    closed spec fn contents(&self) -> Map<Seq<u8>, Seq<u8>> {
        log_contents(self.log@)
    }

    /// A database in memory has no path: it opens empty.
    fn open(path: &str) -> (db: Self)
        ensures
            db.contents() == Map::<Seq<u8>, Seq<u8>>::empty(),
    {
        MemoryShard { log: Vec::new() }
    }

    fn write(&mut self, key: &[u8], value: &[u8]) {
        let ghost before = self.log@;
        let mut k: Vec<u8> = Vec::new();
        k.extend_from_slice(key);
        let mut v: Vec<u8> = Vec::new();
        v.extend_from_slice(value);
        self.log.push((k, v));
        proof {
            assert(self.log@.drop_last() =~= before);
            assert(self.log@.last().0@ == key@);
            assert(self.log@.last().1@ == value@);
            assert(log_contents(self.log@) == log_contents(before).insert(key@, value@));
        }
    }

    fn read(&self, key: &[u8]) -> (value: Option<Vec<u8>>) {
        let mut i: usize = self.log.len();
        proof {
            assert(self.log@.take(self.log@.len() as int) =~= self.log@);
        }
        while i > 0
            invariant
                0 <= i <= self.log@.len(),
                log_contents(self.log@).contains_key(key@) == log_contents(
                    self.log@.take(i as int),
                ).contains_key(key@),
                log_contents(self.log@).contains_key(key@) ==> log_contents(self.log@)[key@]
                    == log_contents(self.log@.take(i as int))[key@],
            decreases i,
        {
            proof {
                assert(self.log@.take(i as int).drop_last() =~= self.log@.take(i - 1));
                assert(self.log@.take(i as int).last() == self.log@[i - 1]);
            }
            if bytes_equal(self.log[i - 1].0.as_slice(), key) {
                let mut v: Vec<u8> = Vec::new();
                v.extend_from_slice(self.log[i - 1].1.as_slice());
                return Some(v);
            }
            i = i - 1;
        }
        None
    }
}

} // verus!
