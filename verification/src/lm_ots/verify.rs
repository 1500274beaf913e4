//! LM-OTS verification: from a signature and a claimed message to the public
//! key they lead to.

use crate::hasher::Hasher;
use crate::lm_ots::definitions::{
    candidate_words, compute_commitment, compute_signed_digits, hash_chain,
    public_key_candidate, signed_digits,
};
use crate::lm_ots::parameter::{lemma_derived_values, LmotsAlgorithm, LmotsParameter};
use crate::lm_ots::signing::LmotsSignature;
use crate::util::coef::{coef, coef_spec, lemma_coef_bound};
use crate::util::helper::{bytes_eq, to_array32};
use vstd::prelude::*;

verus! {

/// The public key `K'` that `signature` leads to if it signs `message` for
/// leaf `q` of tree `id`: every chain is continued from the position that the
/// message hash gives to its end, and the ends are hashed.
pub fn generate_public_key_candidate<H: Hasher>(
    signature: &LmotsSignature,
    id: &[u8; 16],
    q: u32,
    message: &[u8],
) -> (k: [u8; 32])
    requires
        signature.wf(),
    ensures
        k@ == public_key_candidate::<H>(
            signature@.alg,
            id@,
            q,
            signature@.randomizer,
            signature@.words,
            message@,
        ),
{
    let alg = signature.lmots_parameter;
    let p = alg.get_p();
    let w = alg.get_w();
    let max_digit = alg.get_max_digit();
    let digits = compute_signed_digits::<H>(alg, id, q, &signature.signature_randomizer, message);
    let mut ends: Vec<u8> = Vec::new();
    let mut i: u16 = 0;
    while i < p
        invariant
            i <= p,
            p == alg.p(),
            w == alg.w(),
            max_digit == alg.max_digit(),
            digits@.len() == 34,
            signature.signature_data@.len() == 32 * p,
            ends@ == candidate_words::<H>(
                alg,
                id@,
                q,
                digits@,
                signature.signature_data@,
                i as nat,
            ),
        decreases p - i,
    {
        proof {
            lemma_derived_values(w as int);
            lemma_coef_bound(digits@, i as int, w as int);
            assert((i * w) / 8 < 34) by (nonlinear_arith)
                requires
                    (p * w) / 8 <= 34,
                    0 <= i < p,
                    1 <= w <= 8,
                    w == 8 ==> p == 34,
                    w < 8 ==> (p * w) / 8 < 34,
            ;
        }
        let a = coef(digits.as_slice(), i as u64, w as u64);
        let start: usize = 32 * (i as usize);
        let value = to_array32(&signature.signature_data.as_slice()[start..start + 32]);
        let end = hash_chain::<H>(id, q, i, a as u8, max_digit, &value);
        ends.extend_from_slice(end.as_slice());
        i = i + 1;
    }
    compute_commitment::<H>(id, q, ends.as_slice())
}

/// Whether `signature` signs `message` for the one-time key with public key
/// `key`.
pub fn verify_signature<H: Hasher>(
    signature: &LmotsSignature,
    key: &[u8; 32],
    id: &[u8; 16],
    q: u32,
    message: &[u8],
) -> (valid: bool)
    requires
        signature.wf(),
    ensures
        valid == (public_key_candidate::<H>(
            signature@.alg,
            id@,
            q,
            signature@.randomizer,
            signature@.words,
            message@,
        ) == key@),
{
    let candidate = generate_public_key_candidate::<H>(signature, id, q, message);
    bytes_eq(candidate.as_slice(), key.as_slice())
}

/// The number of chain steps that a verifier makes for the first `k`
/// chains when the digits are those of `digits`: chain `j` is continued
/// from its digit to the end, `2^w − 1 − digit` steps.
pub open spec fn verifier_steps(alg: LmotsAlgorithm, digits: Seq<u8>, k: nat) -> int
    decreases k,
{
    if k == 0 {
        0
    } else {
        verifier_steps(alg, digits, (k - 1) as nat) + (alg.max_digit() - coef_spec(digits, k - 1, alg.w()))
    }
}

/// The number of chain steps that verifying a signature with randomizer `c`
/// over `message` takes.
pub open spec fn verification_steps<H: Hasher>(
    alg: LmotsAlgorithm,
    id: Seq<u8>,
    q: u32,
    c: Seq<u8>,
    message: Seq<u8>,
) -> int {
    verifier_steps(alg, signed_digits::<H>(alg, id, q, c, message), alg.p() as nat)
}

/// A verifier makes at most `2^w − 1` steps for each chain.
pub proof fn lemma_verifier_steps_bound(alg: LmotsAlgorithm, digits: Seq<u8>, k: nat)
    ensures
        0 <= verifier_steps(alg, digits, k) <= k * 255,
    decreases k,
{
    if k > 0 {
        lemma_verifier_steps_bound(alg, digits, (k - 1) as nat);
        alg.lemma_of_type();
        lemma_coef_bound(digits, k - 1, alg.w());
        vstd::arithmetic::power2::lemma2_to64();
    }
}

/// The number of chain steps that verifying a signature with randomizer `c`
/// over `message` takes.
pub fn count_verification_steps<H: Hasher>(
    alg: LmotsAlgorithm,
    id: &[u8; 16],
    q: u32,
    c: &[u8; 32],
    message: &[u8],
) -> (steps: u32)
    ensures
        steps == verification_steps::<H>(alg, id@, q, c@, message@),
        steps <= 265 * 255,
{
    let p = alg.get_p();
    let w = alg.get_w();
    let max_digit = alg.get_max_digit();
    let digits = compute_signed_digits::<H>(alg, id, q, c, message);
    let mut steps: u32 = 0;
    let mut i: u16 = 0;
    while i < p
        invariant
            i <= p,
            p == alg.p(),
            p <= 265,
            w == alg.w(),
            max_digit == alg.max_digit(),
            digits@.len() == 34,
            steps == verifier_steps(alg, digits@, i as nat),
            steps <= i * 255,
        decreases p - i,
    {
        proof {
            lemma_derived_values(w as int);
            lemma_coef_bound(digits@, i as int, w as int);
            lemma_verifier_steps_bound(alg, digits@, (i + 1) as nat);
            assert((i * w) / 8 < 34) by (nonlinear_arith)
                requires
                    (p * w) / 8 <= 34,
                    0 <= i < p,
                    1 <= w <= 8,
                    w == 8 ==> p == 34,
                    w < 8 ==> (p * w) / 8 < 34,
            ;
        }
        let a = coef(digits.as_slice(), i as u64, w as u64);
        steps = steps + (max_digit as u32 - a as u32);
        i = i + 1;
    }
    steps
}

} // verus!
