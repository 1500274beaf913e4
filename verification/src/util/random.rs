//! Fresh seeds from the operating system.

use vstd::prelude::*;

verus! {

/// Asks the operating system for 32 random bytes through
/// `try_fill_bytes` of `rand`'s `OsRng`. Returns them, or nothing where the
/// operating system gave an error. Nothing is claimed of the bytes: two
/// calls may differ.
#[verifier::external_body]
pub(crate) fn try_random_seed() -> (seed: Option<[u8; 32]>) {
    let mut seed = [0u8; 32];
    match rand::RngCore::try_fill_bytes(&mut rand::rngs::OsRng, &mut seed) {
        Ok(()) => Some(seed),
        Err(_) => None,
    }
}

} // verus!
