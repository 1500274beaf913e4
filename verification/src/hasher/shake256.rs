//! SHAKE-256 with 32 bytes of output.

use crate::hasher::{as_digest, Hasher};
use vstd::prelude::*;

verus! {

/// The first 32 bytes that `sha3`'s SHAKE-256 returns for `data`.
pub uninterp spec fn shake256_digest(data: Seq<u8>) -> Seq<u8>;

/// Calls `digest_xof` of the `sha3` crate's SHAKE-256 with an output buffer
/// of 32 bytes. The contract gives the bytes written the name
/// `shake256_digest(data)`; nothing else is claimed of them.
#[verifier::external_body]
fn shake256(data: &[u8]) -> (digest: [u8; 32])
    ensures
        digest@ == shake256_digest(data@),
{
    let mut digest = [0u8; 32];
    <sha3::Shake256 as sha3::digest::ExtendableOutput>::digest_xof(data, &mut digest);
    digest
}

/// Streaming SHAKE-256.
pub struct Shake256Hasher {
    buffer: Vec<u8>,
}

impl Hasher for Shake256Hasher {
    const OUTPUT_SIZE: u16 = 32;

    open spec fn digest_of(data: Seq<u8>) -> Seq<u8> {
        as_digest(shake256_digest(data))
    }

    closed spec fn absorbed(&self) -> Seq<u8> {
        self.buffer@
    }

    proof fn lemma_digest_len(data: Seq<u8>) {
    }

    fn new() -> (hasher: Self) {
        Shake256Hasher { buffer: Vec::new() }
    }

    fn update(&mut self, data: &[u8]) {
        self.buffer.extend_from_slice(data);
    }

    fn chain(self, data: &[u8]) -> (hasher: Self) {
        let mut hasher = self;
        hasher.buffer.extend_from_slice(data);
        hasher
    }

    fn finalize(self) -> (digest: [u8; 32]) {
        shake256(self.buffer.as_slice())
    }

    fn finalize_reset(&mut self) -> (digest: [u8; 32]) {
        let digest = shake256(self.buffer.as_slice());
        self.buffer.clear();
        digest
    }
}

} // verus!
