//! SHA-256.

use crate::hasher::{as_digest, Hasher};
use vstd::prelude::*;

verus! {

/// What `sha2`'s SHA-256 returns for `data`.
pub uninterp spec fn sha256_digest(data: Seq<u8>) -> Seq<u8>;

/// Calls `sha2::Sha256::digest`, the one-shot SHA-256 of the `sha2` crate.
/// The contract gives the 32 bytes it returns the name `sha256_digest(data)`;
/// nothing else is claimed of them.
#[verifier::external_body]
fn sha256(data: &[u8]) -> (digest: [u8; 32])
    ensures
        digest@ == sha256_digest(data@),
{
    <sha2::Sha256 as sha2::Digest>::digest(data).into()
}

/// Streaming SHA-256.
pub struct Sha256Hasher {
    buffer: Vec<u8>,
}

impl Hasher for Sha256Hasher {
    const OUTPUT_SIZE: u16 = 32;

    open spec fn digest_of(data: Seq<u8>) -> Seq<u8> {
        as_digest(sha256_digest(data))
    }

    closed spec fn absorbed(&self) -> Seq<u8> {
        self.buffer@
    }

    proof fn lemma_digest_len(data: Seq<u8>) {
    }

    fn new() -> (hasher: Self) {
        Sha256Hasher { buffer: Vec::new() }
    }

    fn update(&mut self, data: &[u8]) {
        self.buffer.extend_from_slice(data);
    }

    fn chain(self, data: &[u8]) -> (hasher: Self) {
        let mut hasher = self;
        hasher.buffer.extend_from_slice(data);
        hasher
    }

    fn finalize(self) -> (digest: [u8; 32]) {
        sha256(self.buffer.as_slice())
    }

    fn finalize_reset(&mut self) -> (digest: [u8; 32]) {
        let digest = sha256(self.buffer.as_slice());
        self.buffer.clear();
        digest
    }
}

} // verus!
