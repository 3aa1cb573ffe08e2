//! Ed25519 signatures: signing with a private key and verifying with a
//! public one.

use vstd::prelude::*;
use crate::keys::Pubkey;
use crate::random::random_bytes32;

verus! {

/// The error of `ring` that tells nothing more than that something failed.
#[verifier::external_type_specification]
#[verifier::external_body]
pub struct ExUnspecified(ring::error::Unspecified);

/// Whether `signature` is a valid Ed25519 signature of `message` under the
/// public key `pubkey`.
pub uninterp spec fn ed25519_verifies(pubkey: Seq<u8>, message: Seq<u8>, signature: Seq<u8>) -> bool;

/// The Ed25519 public key of the private key seed `seed`.
pub uninterp spec fn ed25519_public_key(seed: Seq<u8>) -> Seq<u8>;

/// The Ed25519 signature of `message` under the private key seed `seed`.
pub uninterp spec fn ed25519_signature(seed: Seq<u8>, message: Seq<u8>) -> Seq<u8>;

/// Calls `verify` on a `ring::signature::UnparsedPublicKey` made of `ED25519`
/// and `pubkey`. The contract claims that the call succeeds exactly when
/// the signature is valid, which depends on the three byte strings alone.
#[verifier::external_body]
fn ring_verify(pubkey: &[u8], message: &[u8], signature: &[u8]) -> (res: Result<
    (),
    ring::error::Unspecified,
>)
    ensures
        res is Ok <==> ed25519_verifies(pubkey@, message@, signature@),
{
    ring::signature::UnparsedPublicKey::new(&ring::signature::ED25519, pubkey).verify(
        message,
        signature,
    )
}

/// Makes a `ring::signature::Ed25519KeyPair` of `seed` with
/// `from_seed_unchecked` and returns the bytes of its `public_key`. The
/// contract claims that they are 32 bytes that depend on the seed alone. A
/// seed of 32 bytes is never rejected.
#[verifier::external_body]
fn ring_public_key(seed: &[u8; 32]) -> (key: [u8; 32])
    ensures
        key@ == ed25519_public_key(seed@),
{
    let pair = ring::signature::Ed25519KeyPair::from_seed_unchecked(seed).unwrap();
    ring::signature::KeyPair::public_key(&pair).as_ref().try_into().unwrap()
}

/// Makes a `ring::signature::Ed25519KeyPair` of `seed` with
/// `from_seed_unchecked` and returns the bytes of what its `sign` gives for
/// `message`. The contract claims that they are 64 bytes that depend on the
/// seed and the message alone: Ed25519 signs without randomness.
#[verifier::external_body]
fn ring_sign(seed: &[u8; 32], message: &[u8]) -> (signature: [u8; 64])
    ensures
        signature@ == ed25519_signature(seed@, message@),
{
    let pair = ring::signature::Ed25519KeyPair::from_seed_unchecked(seed).unwrap();
    pair.sign(message).as_ref().try_into().unwrap()
}

/// A signature did not verify.
#[derive(Debug, Clone, Copy, PartialEq, Eq, Structural)]
pub struct SignatureError;

/// Verifies that `signature` is a valid signature of `message` under the
/// public key `pubkey`.
pub fn verify(pubkey: &[u8], message: &[u8], signature: &[u8]) -> (res: Result<(), SignatureError>)
    ensures
        res is Ok <==> ed25519_verifies(pubkey@, message@, signature@),
{
    match ring_verify(pubkey, message, signature) {
        Ok(_) => Ok(()),
        Err(_) => Err(SignatureError),
    }
}

/// A private key: the seed that its key pair is made of.
pub struct Privatekey {
    seed: [u8; 32],
}

impl Privatekey {
    /// The seed of the key.
    pub closed spec fn spec_seed(&self) -> Seq<u8> {
        self.seed@
    }

    /// The private key of the seed `seed`.
    pub fn from_seed(seed: [u8; 32]) -> (key: Self)
        ensures
            key.spec_seed() == seed@,
    {
        Privatekey { seed }
    }

    /// A private key of a fresh random seed.
    pub fn new() -> (key: Self) {
        Privatekey { seed: random_bytes32() }
    }

    /// The signature of `message` under this key.
    pub fn sign(&self, message: &[u8]) -> (signature: [u8; 64])
        ensures
            signature@ == ed25519_signature(self.spec_seed(), message@),
    {
        ring_sign(&self.seed, message)
    }

    /// The public key that belongs to this key.
    pub fn pubkey(&self) -> (key: Pubkey)
        ensures
            key@ == ed25519_public_key(self.spec_seed()),
    {
        Pubkey(ring_public_key(&self.seed))
    }

    /// The key pair as it is shown to its owner once: the 32 bytes of the
    /// seed, then the 32 bytes of the public key.
    pub fn keypair_bytes(&self) -> (pair: [u8; 64])
        ensures
            pair@ == self.spec_seed() + ed25519_public_key(self.spec_seed()),
    {
        let public: [u8; 32] = ring_public_key(&self.seed);
        let mut pair: [u8; 64] = [0u8; 64];
        let mut i: usize = 0;
        while i < 32
            invariant
                0 <= i <= 32,
                forall|j: int| 0 <= j < i ==> pair@[j] == self.seed@[j],
                forall|j: int| 0 <= j < i ==> pair@[32 + j] == public@[j],
            decreases 32 - i,
        {
            pair[i] = self.seed[i];
            pair[i + 32] = public[i];
            i = i + 1;
        }
        assert(pair@ =~= self.seed@ + public@);
        pair
    }
}

} // verus!
