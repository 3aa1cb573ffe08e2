//! Random bytes from the operating system.

use vstd::prelude::*;

verus! {

/// Fills 32 bytes from `rand::rngs::OsRng` with `Rng::fill`. Nothing is
/// claimed of the bytes: each call gives others.
#[verifier::external_body]
pub(crate) fn random_bytes32() -> (bytes: [u8; 32]) {
    let mut bytes = [0u8; 32];
    rand::Rng::fill(&mut rand::rngs::OsRng, &mut bytes);
    bytes
}

} // verus!
