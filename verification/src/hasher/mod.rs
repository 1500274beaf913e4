//! The hash interface: a streaming hasher with a fixed output size.
//!
//! The model of a hasher is the byte string it has absorbed so far; its
//! digest is a function of that string alone.

pub mod sha256;
pub mod shake256;

use crate::constants::MAX_HASH_SIZE;
use vstd::prelude::*;

verus! {

/// `s` if it has the length of a digest, else the all-zero digest.
///
/// The digest functions of the outside crates are named, not defined, so
/// nothing but a call tells the length of what they return. A hasher's
/// `digest_of` passes the named result through this function: it then has the
/// digest length on every input, and equals the named result wherever a call
/// has returned it.
pub open spec fn as_digest(s: Seq<u8>) -> Seq<u8> {
    if s.len() == MAX_HASH_SIZE {
        s
    } else {
        Seq::new(MAX_HASH_SIZE as nat, |i: int| 0u8)
    }
}

/// A hash function with 32 bytes of output, fed piece by piece.
pub trait Hasher: Sized {
    /// The number of bytes of a digest.
    const OUTPUT_SIZE: u16;

    /// The digest of `data`.
    spec fn digest_of(data: Seq<u8>) -> Seq<u8>;

    /// The bytes fed to this hasher since it was created or last reset.
    spec fn absorbed(&self) -> Seq<u8>;

    /// Every digest has 32 bytes.
    proof fn lemma_digest_len(data: Seq<u8>)
        ensures
            Self::digest_of(data).len() == MAX_HASH_SIZE,
    ;

    /// A hasher that has absorbed nothing.
    fn new() -> (hasher: Self)
        ensures
            hasher.absorbed() == Seq::<u8>::empty(),
    ;

    /// Feeds `data`.
    fn update(&mut self, data: &[u8])
        ensures
            final(self).absorbed() == old(self).absorbed() + data@,
    ;

    /// Feeds `data` and hands the hasher back, for fluent composition.
    fn chain(self, data: &[u8]) -> (hasher: Self)
        ensures
            hasher.absorbed() == self.absorbed() + data@,
    ;

    /// The digest of everything absorbed.
    fn finalize(self) -> (digest: [u8; 32])
        ensures
            digest@ == Self::digest_of(self.absorbed()),
    ;

    /// The digest of everything absorbed; the hasher starts over.
    fn finalize_reset(&mut self) -> (digest: [u8; 32])
        ensures
            digest@ == Self::digest_of(old(self).absorbed()),
            final(self).absorbed() == Seq::<u8>::empty(),
    ;
}

/// The digest of `data` under `H`.
pub open spec fn hash<H: Hasher>(data: Seq<u8>) -> Seq<u8> {
    H::digest_of(data)
}

/// Hashes `data` in one go.
pub fn digest<H: Hasher>(data: &[u8]) -> (digest: [u8; 32])
    ensures
        digest@ == hash::<H>(data@),
{
    let hasher = H::new().chain(data);
    assert(hasher.absorbed() =~= data@);
    hasher.finalize()
}

} // verus!
