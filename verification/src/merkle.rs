//! The Merkle aggregator: folds an ordered sequence of leaf hashes into one
//! root hash.

use vstd::prelude::*;
use crate::digest::{digest, sha256};

verus! {

/// `hashes` made even in number by repeating the last one.
pub open spec fn pad_even(hashes: Seq<Seq<u8>>) -> Seq<Seq<u8>> {
    if hashes.len() % 2 == 1 {
        hashes.push(hashes.last())
    } else {
        hashes
    }
}

/// The level above `hashes`: the digest of each adjacent pair, joined.
pub open spec fn parent_level(hashes: Seq<Seq<u8>>) -> Seq<Seq<u8>> {
    Seq::new(hashes.len() / 2, |i: int| sha256(hashes[2 * i] + hashes[2 * i + 1]))
}

/// The Merkle root of the leaves `hashes`: a single leaf is its own root;
/// more are padded to an even number, paired, and the pairs' digests are
/// folded in the same way.
pub open spec fn spec_merkle_root(hashes: Seq<Seq<u8>>) -> Seq<u8>
    decreases hashes.len(),
{
    if hashes.len() <= 1 {
        if hashes.len() == 1 {
            hashes[0]
        } else {
            Seq::empty()
        }
    } else {
        spec_merkle_root(parent_level(pad_even(hashes)))
    }
}

/// The byte strings of a sequence of hashes.
pub open spec fn hash_views(hashes: Seq<crate::digest::Hash>) -> Seq<Seq<u8>> {
    Seq::new(hashes.len(), |i: int| hashes[i]@)
}

/// The Merkle root of `hashes`, which holds at least one leaf.
pub fn merkle_root(hashes: &[crate::digest::Hash]) -> (root: crate::digest::Hash)
    requires
        hashes@.len() > 0,
    ensures
        root@ == spec_merkle_root(hash_views(hashes@)),
{
    let mut level: Vec<crate::digest::Hash> = Vec::new();
    let mut k: usize = 0;
    while k < hashes.len()
        invariant
            0 <= k <= hashes@.len(),
            level@ =~= hashes@.take(k as int),
        decreases hashes@.len() - k,
    {
        level.push(hashes[k]);
        k = k + 1;
    }
    assert(hashes@.take(hashes@.len() as int) =~= hashes@);
    while level.len() > 1
        invariant
            level@.len() > 0,
            spec_merkle_root(hash_views(level@)) == spec_merkle_root(hash_views(hashes@)),
        decreases level@.len(),
    {
        let ghost unpadded = hash_views(level@);
        if level.len() % 2 == 1 {
            let last: crate::digest::Hash = level[level.len() - 1];
            level.push(last);
        }
        assert(hash_views(level@) =~= pad_even(unpadded));
        let ghost padded = hash_views(level@);
        let n: usize = level.len();
        let mut parents: Vec<crate::digest::Hash> = Vec::new();
        let mut i: usize = 0;
        while i < n
            invariant
                0 <= i <= n,
                n == level@.len(),
                n % 2 == 0,
                i % 2 == 0,
                padded == hash_views(level@),
                parents@.len() == i / 2,
                forall|j: int|
                    0 <= j < parents@.len() ==> (#[trigger] parents@[j])@ == sha256(
                        padded[2 * j] + padded[2 * j + 1],
                    ),
            decreases n - i,
        {
            let mut pair: Vec<u8> = Vec::new();
            pair.extend_from_slice(&level[i].0);
            pair.extend_from_slice(&level[i + 1].0);
            let parent: crate::digest::Hash = digest(pair.as_slice());
            proof {
                assert(padded[i as int] == level@[i as int]@);
                assert(padded[i + 1] == level@[i + 1]@);
                assert(pair@ =~= padded[i as int] + padded[i + 1]);
                assert(2 * (i as int / 2) == i);
            }
            let ghost done = parents@;
            parents.push(parent);
            proof {
                assert forall|j: int| 0 <= j < parents@.len() implies (#[trigger] parents@[j])@
                    == sha256(padded[2 * j] + padded[2 * j + 1]) by {
                    if j < done.len() {
                        assert(parents@[j] == done[j]);
                    }
                }
            }
            i = i + 2;
        }
        assert(hash_views(parents@) =~= parent_level(padded));
        level = parents;
    }
    assert(hash_views(level@)[0] == level@[0]@);
    level[0]
}

} // verus!
