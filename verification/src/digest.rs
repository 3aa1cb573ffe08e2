//! The digest engine: a 256-bit one-way hash of canonical bytes.

use vstd::prelude::*;
use vstd::std_specs::cmp::PartialEqSpecImpl;

verus! {

/// The SHA-256 digest of `data`.
pub uninterp spec fn sha256(data: Seq<u8>) -> Seq<u8>;

/// Calls `crypto_hash::digest` with `Algorithm::SHA256`. The contract claims
/// that the bytes returned are the SHA-256 digest of `data`, a function of
/// `data` alone, and that there are 32 of them.
#[verifier::external_body]
fn sha256_digest(data: &[u8]) -> (out: Vec<u8>)
    ensures
        out@ == sha256(data@),
        out@.len() == 32,
{
    crypto_hash::digest(crypto_hash::Algorithm::SHA256, data)
}

/// A 32-byte digest. Two hashes are equal when their bytes are.
#[derive(Clone, Copy, Debug)]
pub struct Hash(pub [u8; 32]);

impl View for Hash {
    type V = Seq<u8>;

    open spec fn view(&self) -> Seq<u8> {
        self.0@
    }
}

/// The bytes of the sentinel that stands where a genesis block has no parent.
pub open spec fn zero_hash_bytes() -> Seq<u8> {
    Seq::new(32, |i: int| 0u8)
}

impl Hash {
    /// The all-zero sentinel.
    pub fn zero() -> (h: Hash)
        ensures
            h@ == zero_hash_bytes(),
    {
        let h = Hash([0u8; 32]);
        assert(h@ =~= zero_hash_bytes());
        h
    }

    /// A random hash.
    pub fn new_rand() -> (h: Hash) {
        Hash(crate::random::random_bytes32())
    }

    /// Whether this is the all-zero sentinel.
    pub fn is_zero(&self) -> (z: bool)
        ensures
            z == (self@ == zero_hash_bytes()),
    {
        let mut i: usize = 0;
        while i < 32
            invariant
                0 <= i <= 32,
                forall|j: int| 0 <= j < i ==> self.0@[j] == 0u8,
            decreases 32 - i,
        {
            if self.0[i] != 0 {
                assert(zero_hash_bytes()[i as int] == 0u8);
                return false;
            }
            i = i + 1;
        }
        assert(self@ =~= zero_hash_bytes());
        true
    }

    /// The 32 bytes as a vector.
    pub fn to_vec(&self) -> (v: Vec<u8>)
        ensures
            v@ == self@,
    {
        let mut v: Vec<u8> = Vec::new();
        let mut i: usize = 0;
        while i < 32
            invariant
                0 <= i <= 32,
                v@ =~= self.0@.subrange(0, i as int),
            decreases 32 - i,
        {
            v.push(self.0[i]);
            i = i + 1;
        }
        assert(self.0@.subrange(0, 32) =~= self.0@);
        v
    }
}

/// Hashes with the same bytes are the same hash.
pub proof fn lemma_hash_view_injective(a: Hash, b: Hash)
    requires
        a@ == b@,
    ensures
        a == b,
{
    assert forall|i: int| 0 <= i < 32 implies a.0[i] == b.0[i] by {
        assert(a.0@[i] == b.0@[i]);
    }
    assert(a.0 =~= b.0);
}

impl PartialEq for Hash {
    fn eq(&self, other: &Hash) -> (equal: bool) {
        let mut i: usize = 0;
        while i < 32
            invariant
                0 <= i <= 32,
                forall|j: int| 0 <= j < i ==> self.0@[j] == other.0@[j],
            decreases 32 - i,
        {
            if self.0[i] != other.0[i] {
                return false;
            }
            i = i + 1;
        }
        assert(self.0@ =~= other.0@);
        true
    }
}

impl PartialEqSpecImpl for Hash {
    open spec fn obeys_eq_spec() -> bool {
        true
    }

    open spec fn eq_spec(&self, other: &Hash) -> bool {
        self@ == other@
    }
}

/// The digest of `data`.
pub fn digest(data: &[u8]) -> (h: Hash)
    ensures
        h@ == sha256(data@),
{
    let raw: Vec<u8> = sha256_digest(data);
    let mut out: [u8; 32] = [0u8; 32];
    let mut i: usize = 0;
    while i < 32
        invariant
            0 <= i <= 32,
            raw@.len() == 32,
            forall|j: int| 0 <= j < i ==> out@[j] == raw@[j],
        decreases 32 - i,
    {
        out[i] = raw[i];
        i = i + 1;
    }
    assert(out@ =~= raw@);
    Hash(out)
}

/// The sixteen lowercase hexadecimal digits, in order of their value.
pub open spec fn hex_digits() -> Seq<char> {
    seq!['0', '1', '2', '3', '4', '5', '6', '7', '8', '9', 'a', 'b', 'c', 'd', 'e', 'f']
}

/// The lowercase hexadecimal text of `bytes`: two digits a byte, the high
/// half-byte first.
pub open spec fn hex_text(bytes: Seq<u8>) -> Seq<char> {
    Seq::new(
        2 * bytes.len(),
        |i: int|
            if i % 2 == 0 {
                hex_digits()[(bytes[i / 2] / 16) as int]
            } else {
                hex_digits()[(bytes[i / 2] % 16) as int]
            },
    )
}

/// Calls `hex::encode`. The contract claims that the string returned holds
/// two lowercase hexadecimal digits for each byte of `data`, in order, the
/// high half-byte first.
#[verifier::external_body]
fn hex_encode(data: &[u8]) -> (text: String)
    ensures
        text@ == hex_text(data@),
{
    hex::encode(data)
}

/// Something with a canonical byte serialization, and so with a digest.
pub trait Hashable {
    /// The canonical bytes.
    spec fn spec_bytes(&self) -> Seq<u8>;

    /// Serializes the value into its canonical bytes.
    fn bytes(&self) -> (out: Vec<u8>)
        ensures
            out@ == self.spec_bytes(),
    ;

    /// The digest of the canonical bytes.
    fn hash(&self) -> (h: Hash)
        ensures
            h@ == sha256(self.spec_bytes()),
    {
        let out = self.bytes();
        digest(out.as_slice())
    }
}

/// The identifier under which a value's digest is written in text: its
/// lowercase hexadecimal form.
pub open spec fn spec_hex_id(bytes: Seq<u8>) -> Seq<char> {
    hex_text(sha256(bytes))
}

/// The hexadecimal text of a hash.
pub fn hash_to_hex(h: &Hash) -> (text: String)
    ensures
        text@ == hex_text(h@),
{
    hex_encode(&h.0)
}

} // verus!
