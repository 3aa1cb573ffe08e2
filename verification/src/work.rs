//! Proof of work: the difficulty predicate in its two modes, and the search
//! for a nonce that meets it.

use vstd::prelude::*;
use crate::block::{Block, Seal};
use crate::digest::{sha256, Hashable};
use crate::le_bytes::{difficulty_bytes_as_u128, le_value};

verus! {

/// The number of one bits of `b`.
pub open spec fn ones(b: u8) -> nat
    decreases b,
{
    if b == 0 {
        0
    } else {
        (b % 2) as nat + ones(b / 2)
    }
}

/// The number of one bits of `bytes`.
pub open spec fn bit_count(bytes: Seq<u8>) -> nat
    decreases bytes.len(),
{
    if bytes.len() == 0 {
        0
    } else {
        bit_count(bytes.drop_last()) + ones(bytes.last())
    }
}

/// A byte has at most eight one bits.
pub proof fn lemma_ones_bound(b: u8)
    ensures
        ones(b) <= 8,
{
    reveal_with_fuel(ones, 10);
}

/// `n` bytes have at most `8 * n` one bits.
pub proof fn lemma_bit_count_bound(bytes: Seq<u8>)
    ensures
        bit_count(bytes) <= 8 * bytes.len(),
    decreases bytes.len(),
{
    if bytes.len() > 0 {
        lemma_bit_count_bound(bytes.drop_last());
        lemma_ones_bound(bytes.last());
    }
}

/// How hard a seal must be to find. A deployment picks one mode and one
/// threshold; neither mode implies the other.
#[derive(Debug, Clone, Copy, PartialEq, Eq, Structural)]
pub enum Difficulty {
    /// The upper half of the hash, read as a little-endian number, must be
    /// below the target.
    Target(u128),
    /// The hash must have more one bits than the threshold: a cheap filter
    /// against spam, no proof of security.
    BitCount(u64),
}

/// Whether the hash bytes `hash` are below `target`: bytes 16 to 31, read as
/// a little-endian number, are less than it.
pub open spec fn below_target(hash: Seq<u8>, target: u128) -> bool {
    le_value(hash.subrange(16, 32)) < target
}

/// Whether the hash bytes `hash` have more than `threshold` one bits.
pub open spec fn above_bit_count(hash: Seq<u8>, threshold: u64) -> bool {
    bit_count(hash) > threshold
}

/// Whether the hash bytes `hash` meet `difficulty`.
pub open spec fn difficulty_met(difficulty: Difficulty, hash: Seq<u8>) -> bool {
    match difficulty {
        Difficulty::Target(target) => below_target(hash, target),
        Difficulty::BitCount(threshold) => above_bit_count(hash, threshold),
    }
}

/// Whether `hash` is below the target `difficulty`.
pub fn check_difficulty(hash: &crate::digest::Hash, difficulty: u128) -> (met: bool)
    ensures
        met == below_target(hash@, difficulty),
{
    difficulty > difficulty_bytes_as_u128(&hash.0)
}

/// The number of one bits of `hash`.
pub fn count_bits(hash: &crate::digest::Hash) -> (count: u64)
    ensures
        count == bit_count(hash@),
{
    let mut count: u64 = 0;
    let mut i: usize = 0;
    while i < 32
        invariant
            0 <= i <= 32,
            count == bit_count(hash@.take(i as int)),
            count <= 8 * i,
        decreases 32 - i,
    {
        let mut rest: u8 = hash.0[i];
        let mut seen: u64 = 0;
        while rest > 0
            invariant
                seen + ones(rest) == ones(hash@[i as int]),
                seen <= 8,
            decreases rest,
        {
            proof {
                lemma_ones_bound(hash@[i as int]);
            }
            seen = seen + (rest % 2) as u64;
            rest = rest / 2;
        }
        proof {
            assert(hash@.take(i + 1).drop_last() =~= hash@.take(i as int));
            assert(hash@.take(i + 1).last() == hash@[i as int]);
            lemma_ones_bound(hash@[i as int]);
        }
        count = count + seen;
        i = i + 1;
    }
    assert(hash@.take(32) =~= hash@);
    count
}

/// Whether `hash` meets `difficulty`.
pub fn check_seal(difficulty: &Difficulty, hash: &crate::digest::Hash) -> (met: bool)
    ensures
        met == difficulty_met(*difficulty, hash@),
{
    match difficulty {
        Difficulty::Target(target) => check_difficulty(hash, *target),
        Difficulty::BitCount(threshold) => count_bits(hash) > *threshold,
    }
}

/// `block` with its seal replaced by the proof-of-work seal of `nonce`.
pub open spec fn with_nonce(block: Block, nonce: u64) -> Block {
    Block { seal: Seal::Work { nonce }, ..block }
}

/// The digest that `block` has when sealed with `nonce`.
pub open spec fn work_hash(block: Block, nonce: u64) -> Seq<u8> {
    sha256(with_nonce(block, nonce).spec_bytes())
}

/// Whether `nonce` is the first nonce from `from` on, and below `upto`,
/// with which `block` meets `difficulty`.
pub open spec fn first_nonce_between(
    block: Block,
    difficulty: Difficulty,
    from: u64,
    upto: u64,
    nonce: u64,
) -> bool {
    &&& from <= nonce < upto
    &&& difficulty_met(difficulty, work_hash(block, nonce))
    &&& forall|m: u64|
        from <= m < nonce ==> !difficulty_met(difficulty, #[trigger] work_hash(block, m))
}

/// Whether `nonce` is the first nonce with which `block` meets `difficulty`.
pub open spec fn first_nonce(block: Block, difficulty: Difficulty, nonce: u64) -> bool {
    first_nonce_between(block, difficulty, 0, u64::MAX, nonce)
}

/// Whether `sealed` is `block` sealed by proof of work with `nonce`: nothing
/// but the seal and the hash differs, and the hash is the digest of the
/// sealed block.
pub open spec fn sealed_with(block: Block, sealed: Block, nonce: u64) -> bool {
    &&& sealed == (Block { hash: sealed.hash, ..with_nonce(block, nonce) })
    &&& sealed.hash@ == work_hash(block, nonce)
}

/// Whether `sealed` is `block` sealed by proof of work with `nonce`, the
/// first nonce that meets `difficulty`.
pub open spec fn mined_with(block: Block, sealed: Block, difficulty: Difficulty, nonce: u64) -> bool {
    &&& first_nonce(block, difficulty, nonce)
    &&& sealed_with(block, sealed, nonce)
}

impl Block {
    /// The spam filter: whether the digest of the block, computed afresh,
    /// has more than `difficulty` one bits.
    pub fn verify_tiny_pow(&self, difficulty: u64) -> (met: bool)
        ensures
            met == above_bit_count(sha256(self.spec_bytes()), difficulty),
    {
        let h = self.hash();
        count_bits(&h) > difficulty
    }

    /// Tries one nonce: seals the block with it, and stores the hash if it
    /// meets `difficulty`. A search that must be open to cancellation calls
    /// this once per round.
    pub fn try_nonce(&mut self, nonce: u64, difficulty: &Difficulty) -> (found: bool)
        ensures
            found == difficulty_met(*difficulty, work_hash(*old(self), nonce)),
            found ==> *final(self) == (Block {
                hash: final(self).hash,
                ..with_nonce(*old(self), nonce)
            }) && final(self).hash@ == work_hash(*old(self), nonce),
            !found ==> *final(self) == with_nonce(*old(self), nonce),
    {
        self.seal = Seal::Work { nonce };
        let h = self.hash();
        if check_seal(difficulty, &h) {
            self.hash = h;
            true
        } else {
            false
        }
    }

    /// Searches the nonces from `from` on and below `upto`, in order, and
    /// seals the block with the first whose hash meets `difficulty`. It
    /// returns whether one was found. A producer that must be able to give
    /// a search up searches one range after the other.
    pub fn mine_between(&mut self, difficulty: &Difficulty, from: u64, upto: u64) -> (found: bool)
        ensures
            found ==> exists|nonce: u64|
                #[trigger] first_nonce_between(*old(self), *difficulty, from, upto, nonce)
                    && sealed_with(*old(self), *final(self), nonce),
            found ==> final(self).spec_hash_valid() && difficulty_met(
                *difficulty,
                final(self).hash@,
            ),
            !found ==> forall|m: u64|
                from <= m < upto ==> !difficulty_met(
                    *difficulty,
                    #[trigger] work_hash(*old(self), m),
                ),
            !found ==> final(self).hash == old(self).hash,
            !found && from >= upto ==> *final(self) == *old(self),
            !found && from < upto ==> *final(self) == with_nonce(*old(self), (upto - 1) as u64),
    {
        if from >= upto {
            return false;
        }
        let ghost start = *self;
        let mut nonce: u64 = from;
        while nonce < upto
            invariant
                from <= nonce <= upto,
                start == *old(self),
                forall|m: u64|
                    from <= m < nonce ==> !difficulty_met(
                        *difficulty,
                        #[trigger] work_hash(start, m),
                    ),
                nonce == from ==> *self == start,
                nonce > from ==> *self == with_nonce(start, (nonce - 1) as u64),
            decreases upto - nonce,
        {
            let ghost at = *self;
            assert(with_nonce(at, nonce) == with_nonce(start, nonce));
            if self.try_nonce(nonce, difficulty) {
                proof {
                    assert(work_hash(at, nonce) == work_hash(start, nonce));
                    assert(*self == (Block { hash: self.hash, ..with_nonce(start, nonce) }));
                    assert(self.spec_bytes() == with_nonce(start, nonce).spec_bytes());
                    assert(first_nonce_between(start, *difficulty, from, upto, nonce));
                    assert(sealed_with(start, *self, nonce));
                }
                return true;
            }
            nonce = nonce + 1;
        }
        false
    }

    /// Seals the block by proof of work: tries the nonces 0, 1, 2, ... below
    /// the largest and keeps the first whose hash meets `difficulty`. It
    /// returns whether one was found.
    pub fn mine(&mut self, difficulty: &Difficulty) -> (found: bool)
        ensures
            found ==> exists|nonce: u64| #[trigger]
                mined_with(*old(self), *final(self), *difficulty, nonce),
            found ==> final(self).spec_hash_valid() && difficulty_met(
                *difficulty,
                final(self).hash@,
            ),
            !found ==> forall|m: u64|
                m < u64::MAX ==> !difficulty_met(*difficulty, #[trigger] work_hash(*old(self), m)),
            !found ==> final(self).hash == old(self).hash,
    {
        let found: bool = self.mine_between(difficulty, 0, u64::MAX);
        proof {
            if found {
                let nonce = choose|nonce: u64|
                    #[trigger] first_nonce_between(*old(self), *difficulty, 0, u64::MAX, nonce)
                        && sealed_with(*old(self), *self, nonce);
                assert(mined_with(*old(self), *self, *difficulty, nonce));
            }
        }
        found
    }
}

} // verus!
