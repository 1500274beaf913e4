//! The mathematical model of LM-OTS, and the hash computations it is built
//! from.
//!
//! A one-time key is determined by the seed of its tree, the tree identifier
//! `I` and the number `q` of its leaf. Chain values are kept as one flat byte
//! string, 32 bytes per chain.

use crate::constants::{D_MESG, D_PBLC, D_RANDOMIZER, D_SECRET};
use crate::hasher::{digest, hash, Hasher};
use crate::lm_ots::parameter::{appended_with_checksum, LmotsAlgorithm, LmotsParameter};
use crate::util::coef::coef_spec;
use crate::util::ustr::{be16, be32, u16str, u32str};
use vstd::prelude::*;

verus! {

/// One step of chain `i` at position `j`: the hash of
/// `I ‖ u32(q) ‖ u16(i) ‖ u8(j) ‖ x`.
pub open spec fn chain_step<H: Hasher>(id: Seq<u8>, q: u32, i: u16, j: u8, x: Seq<u8>) -> Seq<u8> {
    hash::<H>(id + be32(q) + be16(i) + seq![j] + x)
}

/// The value at position `to` of chain `i`, given the value `x` at position
/// `from`.
pub open spec fn chain<H: Hasher>(id: Seq<u8>, q: u32, i: u16, from: int, to: int, x: Seq<u8>) -> Seq<
    u8,
>
    decreases to - from,
{
    if to <= from {
        x
    } else {
        chain_step::<H>(id, q, i, (to - 1) as u8, chain::<H>(id, q, i, from, to - 1, x))
    }
}

/// The secret start of chain `i`: the hash of
/// `I ‖ u32(q) ‖ u16(i) ‖ 0xff ‖ seed`.
pub open spec fn chain_secret<H: Hasher>(seed: Seq<u8>, id: Seq<u8>, q: u32, i: u16) -> Seq<u8> {
    hash::<H>(id + be32(q) + be16(i) + seq![D_SECRET] + seed)
}

/// The ends of the first `k` chains, one after the other.
pub open spec fn public_words<H: Hasher>(
    alg: LmotsAlgorithm,
    seed: Seq<u8>,
    id: Seq<u8>,
    q: u32,
    k: nat,
) -> Seq<u8>
    decreases k,
{
    if k == 0 {
        Seq::empty()
    } else {
        public_words::<H>(alg, seed, id, q, (k - 1) as nat) + chain::<H>(
            id,
            q,
            (k - 1) as u16,
            0,
            alg.max_digit(),
            chain_secret::<H>(seed, id, q, (k - 1) as u16),
        )
    }
}

/// The commitment `K` to a list of chain ends: the hash of
/// `I ‖ u32(q) ‖ D_PBLC ‖ ends`.
pub open spec fn commitment<H: Hasher>(id: Seq<u8>, q: u32, ends: Seq<u8>) -> Seq<u8> {
    hash::<H>(id + be32(q) + be16(D_PBLC) + ends)
}

/// The public key `K` of leaf `q`.
pub open spec fn public_key<H: Hasher>(alg: LmotsAlgorithm, seed: Seq<u8>, id: Seq<u8>, q: u32) -> Seq<
    u8,
> {
    commitment::<H>(id, q, public_words::<H>(alg, seed, id, q, alg.p() as nat))
}

/// The randomizer `C` that a signature of leaf `q` uses unless it is given
/// another: derived from the seed like a chain start, under a chain number of
/// its own.
pub open spec fn randomizer<H: Hasher>(seed: Seq<u8>, id: Seq<u8>, q: u32) -> Seq<u8> {
    chain_secret::<H>(seed, id, q, D_RANDOMIZER)
}

/// The randomized message hash `Q`: the hash of
/// `I ‖ u32(q) ‖ D_MESG ‖ C ‖ message`.
pub open spec fn message_digest<H: Hasher>(id: Seq<u8>, q: u32, c: Seq<u8>, message: Seq<u8>) -> Seq<
    u8,
> {
    hash::<H>(id + be32(q) + be16(D_MESG) + c + message)
}

/// `Q` followed by its checksum: the string whose digits say how far each
/// chain is advanced.
pub open spec fn signed_digits<H: Hasher>(
    alg: LmotsAlgorithm,
    id: Seq<u8>,
    q: u32,
    c: Seq<u8>,
    message: Seq<u8>,
) -> Seq<u8> {
    appended_with_checksum(message_digest::<H>(id, q, c, message), 32, alg.w())
}

/// The first `k` chain values of a signature over `digits`: chain `i`
/// advanced from its secret start by the `i`-th digit.
pub open spec fn signature_words<H: Hasher>(
    alg: LmotsAlgorithm,
    seed: Seq<u8>,
    id: Seq<u8>,
    q: u32,
    digits: Seq<u8>,
    k: nat,
) -> Seq<u8>
    decreases k,
{
    if k == 0 {
        Seq::empty()
    } else {
        signature_words::<H>(alg, seed, id, q, digits, (k - 1) as nat) + chain::<H>(
            id,
            q,
            (k - 1) as u16,
            0,
            coef_spec(digits, k - 1, alg.w()),
            chain_secret::<H>(seed, id, q, (k - 1) as u16),
        )
    }
}

/// The first `k` chain ends that a verifier reaches from the chain values
/// `y`: chain `i` advanced from the `i`-th digit to the end.
pub open spec fn candidate_words<H: Hasher>(
    alg: LmotsAlgorithm,
    id: Seq<u8>,
    q: u32,
    digits: Seq<u8>,
    y: Seq<u8>,
    k: nat,
) -> Seq<u8>
    decreases k,
{
    if k == 0 {
        Seq::empty()
    } else {
        candidate_words::<H>(alg, id, q, digits, y, (k - 1) as nat) + chain::<H>(
            id,
            q,
            (k - 1) as u16,
            coef_spec(digits, k - 1, alg.w()),
            alg.max_digit(),
            y.subrange(32 * (k - 1), 32 * (k as int)),
        )
    }
}

/// The public key `K'` that a signature `(c, y)` over `message` leads to.
pub open spec fn public_key_candidate<H: Hasher>(
    alg: LmotsAlgorithm,
    id: Seq<u8>,
    q: u32,
    c: Seq<u8>,
    y: Seq<u8>,
    message: Seq<u8>,
) -> Seq<u8> {
    commitment::<H>(
        id,
        q,
        candidate_words::<H>(alg, id, q, signed_digits::<H>(alg, id, q, c, message), y, alg.p() as nat),
    )
}

/// A chain value has 32 bytes if the value it starts from has.
pub proof fn lemma_chain_len<H: Hasher>(id: Seq<u8>, q: u32, i: u16, from: int, to: int, x: Seq<u8>)
    requires
        x.len() == 32,
    ensures
        chain::<H>(id, q, i, from, to, x).len() == 32,
{
    if to > from {
        H::lemma_digest_len(
            id + be32(q) + be16(i) + seq![(to - 1) as u8] + chain::<H>(id, q, i, from, to - 1, x),
        );
    }
}

/// Advancing a chain in two stages is advancing it in one.
pub proof fn lemma_chain_compose<H: Hasher>(
    id: Seq<u8>,
    q: u32,
    i: u16,
    from: int,
    mid: int,
    to: int,
    x: Seq<u8>,
)
    requires
        from <= mid <= to,
    ensures
        chain::<H>(id, q, i, mid, to, chain::<H>(id, q, i, from, mid, x)) == chain::<H>(
            id,
            q,
            i,
            from,
            to,
            x,
        ),
    decreases to - mid,
{
    if to > mid {
        lemma_chain_compose::<H>(id, q, i, from, mid, to - 1, x);
    }
}

/// The first `k` chain values of a signature take `32·k` bytes, and the
/// `j`-th of them is chain `j` advanced by the `j`-th digit.
pub proof fn lemma_signature_words<H: Hasher>(
    alg: LmotsAlgorithm,
    seed: Seq<u8>,
    id: Seq<u8>,
    q: u32,
    digits: Seq<u8>,
    k: nat,
    j: int,
)
    requires
        0 <= j < k,
    ensures
        signature_words::<H>(alg, seed, id, q, digits, k).len() == 32 * k,
        signature_words::<H>(alg, seed, id, q, digits, k).subrange(32 * j, 32 * (j + 1))
            == chain::<H>(
            id,
            q,
            j as u16,
            0,
            coef_spec(digits, j, alg.w()),
            chain_secret::<H>(seed, id, q, j as u16),
        ),
    decreases k,
{
    let head = signature_words::<H>(alg, seed, id, q, digits, (k - 1) as nat);
    let secret = chain_secret::<H>(seed, id, q, (k - 1) as u16);
    let last = chain::<H>(id, q, (k - 1) as u16, 0, coef_spec(digits, k - 1, alg.w()), secret);
    H::lemma_digest_len(id + be32(q) + be16((k - 1) as u16) + seq![D_SECRET] + seed);
    lemma_chain_len::<H>(id, q, (k - 1) as u16, 0, coef_spec(digits, k - 1, alg.w()), secret);
    lemma_words_len::<H>(alg, seed, id, q, digits, (k - 1) as nat);
    if j < k - 1 {
        lemma_signature_words::<H>(alg, seed, id, q, digits, (k - 1) as nat, j);
        assert((head + last).subrange(32 * j, 32 * (j + 1)) =~= head.subrange(32 * j, 32 * (j + 1)));
    } else {
        assert((head + last).subrange(32 * j, 32 * (j + 1)) =~= last);
    }
}

/// The first `k` chain values of a signature take `32·k` bytes.
pub proof fn lemma_words_len<H: Hasher>(
    alg: LmotsAlgorithm,
    seed: Seq<u8>,
    id: Seq<u8>,
    q: u32,
    digits: Seq<u8>,
    k: nat,
)
    ensures
        signature_words::<H>(alg, seed, id, q, digits, k).len() == 32 * k,
    decreases k,
{
    if k > 0 {
        let secret = chain_secret::<H>(seed, id, q, (k - 1) as u16);
        H::lemma_digest_len(id + be32(q) + be16((k - 1) as u16) + seq![D_SECRET] + seed);
        lemma_chain_len::<H>(id, q, (k - 1) as u16, 0, coef_spec(digits, k - 1, alg.w()), secret);
        lemma_words_len::<H>(alg, seed, id, q, digits, (k - 1) as nat);
    }
}

/// From the chain values that the signer publishes the verifier reaches the
/// ends of the chains.
pub proof fn lemma_candidate_words<H: Hasher>(
    alg: LmotsAlgorithm,
    seed: Seq<u8>,
    id: Seq<u8>,
    q: u32,
    digits: Seq<u8>,
    k: nat,
)
    requires
        k <= alg.p(),
    ensures
        candidate_words::<H>(
            alg,
            id,
            q,
            digits,
            signature_words::<H>(alg, seed, id, q, digits, alg.p() as nat),
            k,
        ) == public_words::<H>(alg, seed, id, q, k),
    decreases k,
{
    if k > 0 {
        lemma_candidate_words::<H>(alg, seed, id, q, digits, (k - 1) as nat);
        lemma_signature_words::<H>(alg, seed, id, q, digits, alg.p() as nat, k - 1);
        alg.lemma_of_type();
        crate::util::coef::lemma_coef_bound(digits, k - 1, alg.w());
        lemma_chain_compose::<H>(
            id,
            q,
            (k - 1) as u16,
            0,
            coef_spec(digits, k - 1, alg.w()),
            alg.max_digit(),
            chain_secret::<H>(seed, id, q, (k - 1) as u16),
        );
    }
}

/// The public key that an honest signature leads to is the signer's,
/// whatever the message and the randomizer.
pub proof fn lemma_sign_then_verify<H: Hasher>(
    alg: LmotsAlgorithm,
    seed: Seq<u8>,
    id: Seq<u8>,
    q: u32,
    c: Seq<u8>,
    message: Seq<u8>,
)
    ensures
        public_key_candidate::<H>(
            alg,
            id,
            q,
            c,
            signature_words::<H>(
                alg,
                seed,
                id,
                q,
                signed_digits::<H>(alg, id, q, c, message),
                alg.p() as nat,
            ),
            message,
        ) == public_key::<H>(alg, seed, id, q),
{
    alg.lemma_of_type();
    lemma_candidate_words::<H>(
        alg,
        seed,
        id,
        q,
        signed_digits::<H>(alg, id, q, c, message),
        alg.p() as nat,
    );
}

/// One step of a hash chain.
pub fn hash_chain_step<H: Hasher>(id: &[u8; 16], q: u32, i: u16, j: u8, x: &[u8; 32]) -> (next: [u8; 32])
    ensures
        next@ == chain_step::<H>(id@, q, i, j, x@),
{
    let mut preimage: Vec<u8> = Vec::new();
    preimage.extend_from_slice(id.as_slice());
    preimage.extend_from_slice(u32str(q).as_slice());
    preimage.extend_from_slice(u16str(i).as_slice());
    preimage.push(j);
    preimage.extend_from_slice(x.as_slice());
    assert(preimage@ =~= id@ + be32(q) + be16(i) + seq![j] + x@);
    digest::<H>(preimage.as_slice())
}

/// Advances chain `i` from position `from` to position `to`.
pub fn hash_chain<H: Hasher>(id: &[u8; 16], q: u32, i: u16, from: u8, to: u8, x: &[u8; 32]) -> (end: [u8; 32])
    ensures
        end@ == chain::<H>(id@, q, i, from as int, to as int, x@),
{
    let mut value: [u8; 32] = *x;
    let mut j: u8 = from;
    while j < to
        invariant
            from <= j <= to || j == from,
            value@ == chain::<H>(id@, q, i, from as int, j as int, x@),
        decreases to - j,
    {
        value = hash_chain_step::<H>(id, q, i, j, &value);
        j = j + 1;
    }
    value
}

/// The secret start of chain `i`.
pub fn derive_chain_secret<H: Hasher>(seed: &[u8; 32], id: &[u8; 16], q: u32, i: u16) -> (secret: [u8; 32])
    ensures
        secret@ == chain_secret::<H>(seed@, id@, q, i),
{
    let mut preimage: Vec<u8> = Vec::new();
    preimage.extend_from_slice(id.as_slice());
    preimage.extend_from_slice(u32str(q).as_slice());
    preimage.extend_from_slice(u16str(i).as_slice());
    preimage.push(D_SECRET);
    preimage.extend_from_slice(seed.as_slice());
    assert(preimage@ =~= id@ + be32(q) + be16(i) + seq![D_SECRET] + seed@);
    digest::<H>(preimage.as_slice())
}

/// The message hash `Q` followed by its checksum.
pub fn compute_signed_digits<H: Hasher>(
    alg: LmotsAlgorithm,
    id: &[u8; 16],
    q: u32,
    c: &[u8; 32],
    message: &[u8],
) -> (digits: Vec<u8>)
    ensures
        digits@ == signed_digits::<H>(alg, id@, q, c@, message@),
        digits@.len() == 34,
{
    let mut hasher = H::new();
    hasher.update(id.as_slice());
    hasher.update(u32str(q).as_slice());
    hasher.update(u16str(D_MESG).as_slice());
    hasher.update(c.as_slice());
    hasher.update(message);
    assert(hasher.absorbed() =~= id@ + be32(q) + be16(D_MESG) + c@ + message@);
    let message_hash = hasher.finalize();
    alg.get_appended_with_checksum(message_hash.as_slice())
}

/// The commitment `K` to a list of chain ends.
pub fn compute_commitment<H: Hasher>(id: &[u8; 16], q: u32, ends: &[u8]) -> (k: [u8; 32])
    ensures
        k@ == commitment::<H>(id@, q, ends@),
{
    let mut hasher = H::new();
    hasher.update(id.as_slice());
    hasher.update(u32str(q).as_slice());
    hasher.update(u16str(D_PBLC).as_slice());
    hasher.update(ends);
    assert(hasher.absorbed() =~= id@ + be32(q) + be16(D_PBLC) + ends@);
    hasher.finalize()
}

} // verus!
