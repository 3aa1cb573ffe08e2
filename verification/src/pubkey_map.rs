//! A map from identities to amounts, kept in byte order of the identities so
//! that walking it is canonical.

use vstd::prelude::*;
use crate::keys::{lemma_lex_irreflexive, lemma_lex_transitive, lex_lt, KeyOrder, Pubkey};

verus! {

/// Whether the identities of `s` strictly ascend in byte order.
pub open spec fn keys_sorted<V>(s: Seq<(Pubkey, V)>) -> bool {
    forall|i: int, j: int| #![trigger s[i], s[j]] 0 <= i < j < s.len() ==> lex_lt(s[i].0@, s[j].0@)
}

/// Whether some entry of `s` belongs to the identity with bytes `k`.
pub open spec fn has_key<V>(s: Seq<(Pubkey, V)>, k: Seq<u8>) -> bool {
    exists|i: int| 0 <= i < s.len() && (#[trigger] s[i]).0@ == k
}

/// The place in `s` of an entry that belongs to the identity with bytes `k`.
pub open spec fn index_of_key<V>(s: Seq<(Pubkey, V)>, k: Seq<u8>) -> int {
    choose|i: int| 0 <= i < s.len() && (#[trigger] s[i]).0@ == k
}

/// The map that the entries `s` stand for.
pub open spec fn entries_map<V>(s: Seq<(Pubkey, V)>) -> Map<Seq<u8>, V> {
    Map::new(|k: Seq<u8>| has_key(s, k), |k: Seq<u8>| s[index_of_key(s, k)].1)
}

/// In sorted entries each identity has one place, and the map gives it what
/// stands there.
pub proof fn lemma_entry_in_map<V>(s: Seq<(Pubkey, V)>, i: int)
    requires
        keys_sorted(s),
        0 <= i < s.len(),
    ensures
        has_key(s, s[i].0@),
        index_of_key(s, s[i].0@) == i,
        entries_map(s).contains_key(s[i].0@),
        entries_map(s)[s[i].0@] == s[i].1,
{
    let k = s[i].0@;
    assert(has_key(s, k));
    let j = index_of_key(s, k);
    lemma_lex_irreflexive(k);
    if j < i {
        assert(lex_lt(s[j].0@, s[i].0@));
    } else if i < j {
        assert(lex_lt(s[i].0@, s[j].0@));
    }
}

/// Sorted entries are determined by the map they stand for.
pub proof fn lemma_entries_determined<V>(a: Seq<(Pubkey, V)>, b: Seq<(Pubkey, V)>)
    requires
        keys_sorted(a),
        keys_sorted(b),
        entries_map(a) == entries_map(b),
    ensures
        a.len() == b.len(),
        forall|i: int| 0 <= i < a.len() ==> a[i].0@ == b[i].0@ && a[i].1 == b[i].1,
    decreases a.len(),
{
    if a.len() == 0 {
        if b.len() > 0 {
            lemma_entry_in_map(b, 0);
            assert(entries_map(a).contains_key(b[0].0@));
        }
    } else if b.len() == 0 {
        lemma_entry_in_map(a, 0);
        assert(entries_map(b).contains_key(a[0].0@));
    } else {
        // The last entries agree: each is the largest identity of the map.
        let la = a.len() - 1;
        let lb = b.len() - 1;
        lemma_entry_in_map(a, la);
        lemma_entry_in_map(b, lb);
        assert(entries_map(b).contains_key(a[la].0@));
        assert(entries_map(a).contains_key(b[lb].0@));
        let ia = index_of_key(b, a[la].0@);
        let ib = index_of_key(a, b[lb].0@);
        lemma_lex_irreflexive(a[la].0@);
        if ia < lb {
            assert(lex_lt(b[ia].0@, b[lb].0@));
            if ib < la {
                assert(lex_lt(a[ib].0@, a[la].0@));
                lemma_lex_transitive(a[la].0@, b[lb].0@, a[la].0@);
            }
        }
        assert(a[la].0@ == b[lb].0@);
        assert(a[la].1 == b[lb].1);
        let a0 = a.drop_last();
        let b0 = b.drop_last();
        assert(keys_sorted(a0)) by {
            assert forall|i: int, j: int| 0 <= i < j < a0.len() implies lex_lt(
                (#[trigger] a0[i]).0@,
                (#[trigger] a0[j]).0@,
            ) by {
                assert(lex_lt(a[i].0@, a[j].0@));
            }
        }
        assert(keys_sorted(b0)) by {
            assert forall|i: int, j: int| 0 <= i < j < b0.len() implies lex_lt(
                (#[trigger] b0[i]).0@,
                (#[trigger] b0[j]).0@,
            ) by {
                assert(lex_lt(b[i].0@, b[j].0@));
            }
        }
        assert(entries_map(a0) =~= entries_map(b0)) by {
            lemma_drop_last_map(a);
            lemma_drop_last_map(b);
        }
        lemma_entries_determined(a0, b0);
        assert forall|i: int| 0 <= i < a.len() implies a[i].0@ == b[i].0@ && a[i].1 == b[i].1 by {
            if i < la {
                assert(a0[i] == a[i]);
                assert(b0[i] == b[i]);
            }
        }
    }
}

/// Without their last entry, sorted entries stand for the map without the
/// last identity.
pub proof fn lemma_drop_last_map<V>(s: Seq<(Pubkey, V)>)
    requires
        keys_sorted(s),
        s.len() > 0,
    ensures
        entries_map(s.drop_last()) =~= entries_map(s).remove(s.last().0@),
{
    let t = s.drop_last();
    let last = s.len() - 1;
    assert(keys_sorted(t)) by {
        assert forall|i: int, j: int| 0 <= i < j < t.len() implies lex_lt(
            (#[trigger] t[i]).0@,
            (#[trigger] t[j]).0@,
        ) by {
            assert(lex_lt(s[i].0@, s[j].0@));
        }
    }
    lemma_lex_irreflexive(s[last].0@);
    assert forall|k: Seq<u8>| entries_map(t).contains_key(k) <==> entries_map(s).remove(
        s.last().0@,
    ).contains_key(k) by {
        if has_key(t, k) {
            let i = index_of_key(t, k);
            assert(s[i].0@ == k);
            assert(lex_lt(s[i].0@, s[last].0@));
        }
        if has_key(s, k) && k != s.last().0@ {
            let i = index_of_key(s, k);
            assert(t[i].0@ == k);
        }
    }
    assert forall|k: Seq<u8>| entries_map(t).contains_key(k) implies entries_map(t)[k]
        == entries_map(s).remove(s.last().0@)[k] by {
        let i = index_of_key(t, k);
        lemma_entry_in_map(t, i);
        assert(s[i] == t[i]);
        lemma_entry_in_map(s, i);
    }
}

/// A map from identities to values of type `V`.
pub struct PubkeyMap<V> {
    entries: Vec<(Pubkey, V)>,
}

impl<V> View for PubkeyMap<V> {
    type V = Map<Seq<u8>, V>;

    open spec fn view(&self) -> Map<Seq<u8>, V> {
        entries_map(self.spec_entries())
    }
}

impl<V> PubkeyMap<V> {
    /// The entries in byte order of their identities.
    pub closed spec fn spec_entries(&self) -> Seq<(Pubkey, V)> {
        self.entries@
    }

    /// The entries are kept strictly sorted, so no identity occurs twice.
    #[verifier::type_invariant]
    pub open spec fn wf(&self) -> bool {
        keys_sorted(self.spec_entries())
    }
}

impl<V> PubkeyMap<V> {
    /// The empty map.
    pub fn new() -> (m: Self)
        ensures
            m@ == Map::<Seq<u8>, V>::empty(),
            m.spec_entries() == Seq::<(Pubkey, V)>::empty(),
            m.wf(),
    {
        let m = PubkeyMap { entries: Vec::new() };
        assert(m@ =~= Map::<Seq<u8>, V>::empty());
        m
    }

    /// The number of identities in the map.
    pub fn len(&self) -> (n: usize)
        ensures
            n == self.spec_entries().len(),
    {
        self.entries.len()
    }

    /// The first place whose identity is not before `key`, and whether `key`
    /// stands there.
    fn position(&self, key: &Pubkey) -> (r: (usize, bool))
        ensures
            r.0 <= self.spec_entries().len(),
            r.1 ==> r.0 < self.spec_entries().len() && self.spec_entries()[r.0 as int].0@ == key@,
            !r.1 ==> !has_key(self.spec_entries(), key@),
            forall|j: int| 0 <= j < r.0 ==> lex_lt((#[trigger] self.spec_entries()[j]).0@, key@),
            forall|j: int|
                r.0 <= j < self.spec_entries().len() && !(r.1 && j == r.0) ==> lex_lt(
                    key@,
                    (#[trigger] self.spec_entries()[j]).0@,
                ),
    {
        proof {
            use_type_invariant(self);
        }
        let ghost s = self.entries@;
        let n: usize = self.entries.len();
        let mut i: usize = 0;
        while i < n
            invariant
                0 <= i <= n,
                n == s.len(),
                s == self.entries@,
                keys_sorted(s),
                forall|j: int| 0 <= j < i ==> lex_lt((#[trigger] s[j]).0@, key@),
            decreases n - i,
        {
            let o = self.entries[i].0.order(key);
            match o {
                KeyOrder::Before => {},
                KeyOrder::Same => {
                    proof {
                        assert forall|j: int| i < j < s.len() implies lex_lt(
                            key@,
                            (#[trigger] s[j]).0@,
                        ) by {
                            assert(lex_lt(s[i as int].0@, s[j].0@));
                        }
                    }
                    return (i, true);
                },
                KeyOrder::After => {
                    proof {
                        assert forall|j: int| i <= j < s.len() implies lex_lt(
                            key@,
                            (#[trigger] s[j]).0@,
                        ) by {
                            if i < j {
                                assert(lex_lt(s[i as int].0@, s[j].0@));
                                lemma_lex_transitive(key@, s[i as int].0@, s[j].0@);
                            }
                        }
                        lemma_lex_irreflexive(key@);
                    }
                    return (i, false);
                },
            }
            i = i + 1;
        }
        proof {
            lemma_lex_irreflexive(key@);
        }
        (n, false)
    }

    /// Whether `key` has an entry.
    pub fn contains_key(&self, key: &Pubkey) -> (found: bool)
        ensures
            found == self@.contains_key(key@),
    {
        let r = self.position(key);
        r.1
    }

    /// What the map holds for `key`, if anything, where it lies.
    pub fn get_ref(&self, key: &Pubkey) -> (value: Option<&V>)
        ensures
            match value {
                Some(v) => self@.contains_key(key@) && *v == self@[key@],
                None => !self@.contains_key(key@),
            },
    {
        proof {
            use_type_invariant(self);
        }
        let r = self.position(key);
        if r.1 {
            proof {
                lemma_entry_in_map(self.entries@, r.0 as int);
            }
            Some(&self.entries[r.0].1)
        } else {
            None
        }
    }

    /// Sets what the map holds for `key` to `value`, whether or not `key` had
    /// an entry.
    pub fn insert(&mut self, key: Pubkey, value: V)
        ensures
            final(self)@ == old(self)@.insert(key@, value),
            final(self).wf(),
    {
        proof {
            use_type_invariant(&*self);
        }
        let ghost before = self.entries@;
        let r = self.position(&key);
        proof {
            if r.1 {
                lemma_update_map(before, r.0 as int, key, value);
            } else {
                lemma_insert_map(before, r.0 as int, key, value);
            }
        }
        let mut held: Vec<(Pubkey, V)> = Vec::new();
        core::mem::swap(&mut self.entries, &mut held);
        if r.1 {
            held.remove(r.0);
        }
        held.insert(r.0, (key, value));
        proof {
            if r.1 {
                assert(held@ =~= before.update(r.0 as int, (key, value)));
            } else {
                assert(held@ =~= before.insert(r.0 as int, (key, value)));
            }
        }
        self.entries = held;
    }
}

impl<V: Copy> Clone for PubkeyMap<V> {
    fn clone(&self) -> (copy: Self)
        ensures
            copy.spec_entries() == self.spec_entries(),
            copy@ == self@,
    {
        proof {
            use_type_invariant(self);
        }
        let mut entries: Vec<(Pubkey, V)> = Vec::new();
        let mut i: usize = 0;
        while i < self.entries.len()
            invariant
                0 <= i <= self.entries@.len(),
                entries@ =~= self.entries@.take(i as int),
            decreases self.entries@.len() - i,
        {
            entries.push(self.entries[i]);
            i = i + 1;
        }
        assert(self.entries@.take(self.entries@.len() as int) =~= self.entries@);
        PubkeyMap { entries }
    }
}

impl<V: Copy> PubkeyMap<V> {
    /// What the map holds for `key`, if anything.
    pub fn get(&self, key: &Pubkey) -> (value: Option<V>)
        ensures
            value == if self@.contains_key(key@) {
                Some(self@[key@])
            } else {
                None
            },
    {
        match self.get_ref(key) {
            Some(v) => Some(*v),
            None => None,
        }
    }

    /// The entry at place `i` in byte order of the identities.
    pub fn entry(&self, i: usize) -> (e: (Pubkey, V))
        requires
            i < self.spec_entries().len(),
        ensures
            e == self.spec_entries()[i as int],
    {
        self.entries[i]
    }
}

/// Replacing the value of an entry keeps the entries sorted and sets the
/// identity's value in the map.
proof fn lemma_update_map<V>(s: Seq<(Pubkey, V)>, p: int, key: Pubkey, value: V)
    requires
        keys_sorted(s),
        0 <= p < s.len(),
        s[p].0@ == key@,
    ensures
        keys_sorted(s.update(p, (key, value))),
        entries_map(s.update(p, (key, value))) == entries_map(s).insert(key@, value),
{
    let t = s.update(p, (key, value));
    assert forall|i: int, j: int| 0 <= i < j < t.len() implies lex_lt(
        (#[trigger] t[i]).0@,
        (#[trigger] t[j]).0@,
    ) by {
        assert(lex_lt(s[i].0@, s[j].0@));
    }
    assert(keys_sorted(t));
    lemma_lex_irreflexive(key@);
    assert forall|k: Seq<u8>| has_key(t, k) <==> (k == key@ || has_key(s, k)) by {
        if has_key(t, k) {
            let i = index_of_key(t, k);
            assert(s[i].0@ == k);
        }
        if has_key(s, k) {
            let i = index_of_key(s, k);
            assert(t[i].0@ == k);
        }
        if k == key@ {
            assert(t[p].0@ == k);
        }
    }
    assert forall|k: Seq<u8>| has_key(t, k) implies #[trigger] entries_map(t)[k] == entries_map(
        s,
    ).insert(key@, value)[k] by {
        let i = index_of_key(t, k);
        lemma_entry_in_map(t, i);
        lemma_entry_in_map(t, p);
        lemma_entry_in_map(s, i);
        if k != key@ {
            assert(s[i].0@ == k);
            assert(entries_map(s)[k] == s[i].1);
        }
    }
    assert(entries_map(t) =~= entries_map(s).insert(key@, value));
}

/// Putting a new identity at its place in byte order keeps the entries
/// sorted and adds the identity to the map.
proof fn lemma_insert_map<V>(s: Seq<(Pubkey, V)>, p: int, key: Pubkey, value: V)
    requires
        keys_sorted(s),
        0 <= p <= s.len(),
        forall|j: int| 0 <= j < p ==> lex_lt((#[trigger] s[j]).0@, key@),
        forall|j: int| p <= j < s.len() ==> lex_lt(key@, (#[trigger] s[j]).0@),
    ensures
        keys_sorted(s.insert(p, (key, value))),
        entries_map(s.insert(p, (key, value))) == entries_map(s).insert(key@, value),
{
    let t = s.insert(p, (key, value));
    assert forall|i: int, j: int| 0 <= i < j < t.len() implies lex_lt(
        (#[trigger] t[i]).0@,
        (#[trigger] t[j]).0@,
    ) by {
        if j < p {
            assert(lex_lt(s[i].0@, s[j].0@));
        } else if j == p {
            assert(lex_lt(s[i].0@, key@));
        } else if i < p {
            assert(lex_lt(s[i].0@, s[j - 1].0@));
        } else if i == p {
            assert(lex_lt(key@, s[j - 1].0@));
        } else {
            assert(lex_lt(s[i - 1].0@, s[j - 1].0@));
        }
    }
    assert(keys_sorted(t));
    lemma_lex_irreflexive(key@);
    assert forall|k: Seq<u8>| has_key(t, k) <==> (k == key@ || has_key(s, k)) by {
        if has_key(t, k) {
            let i = index_of_key(t, k);
            if i < p {
                assert(s[i].0@ == k);
            } else if i > p {
                assert(s[i - 1].0@ == k);
            }
        }
        if has_key(s, k) {
            let i = index_of_key(s, k);
            if i < p {
                assert(t[i].0@ == k);
            } else {
                assert(t[i + 1].0@ == k);
            }
        }
        if k == key@ {
            assert(t[p].0@ == k);
        }
    }
    assert forall|k: Seq<u8>| has_key(t, k) implies #[trigger] entries_map(t)[k] == entries_map(
        s,
    ).insert(key@, value)[k] by {
        let i = index_of_key(t, k);
        lemma_entry_in_map(t, i);
        lemma_entry_in_map(t, p);
        if i < p {
            lemma_entry_in_map(s, i);
            assert(s[i].0@ == k);
            assert(entries_map(s)[k] == s[i].1);
        } else if i > p {
            lemma_entry_in_map(s, i - 1);
            assert(s[i - 1].0@ == k);
            assert(entries_map(s)[k] == s[i - 1].1);
        }
    }
    assert(entries_map(t) =~= entries_map(s).insert(key@, value));
}

} // verus!
