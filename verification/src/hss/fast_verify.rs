//! Signing for fast verification: the signer searches for a message tail
//! under which the verifier has less to do.
//!
//! The last 32 bytes of the message buffer are the signer's to choose. The
//! signer derives a fixed number of candidates for them from the seed of
//! the signing tree, counts for each the hash chain steps that verifying the
//! signature of the last level would take, and writes the candidate with the
//! fewest steps into the buffer. Verification is what it always is.

use crate::constants::MAX_HSS_SIGNATURE_LENGTH;
use crate::error::ErrorKind;
use crate::hasher::Hasher;
use crate::hss::aux::{aux_faithful, hss_prepare_aux_data, write_bytes};
use crate::hss::definitions::{hss_public_key, level_tree, HssPrivateKey};
use crate::hss::parameter::level_index;
use crate::hss::reference_impl_private_key::{
    lemma_decode_encode, lemma_encode_decode, PrivateKeyView, ReferenceImplPrivateKey,
};
use crate::hss::signing::{lemma_encode_len, HssSignature};
use crate::hss::verify::{count_hash_iterations, hash_iterations};
use crate::hss::{aux_evolves, aux_kept};
use crate::lm_ots::definitions::{chain_secret, derive_chain_secret, randomizer};
use crate::lm_ots::signing::derive_randomizer;
use crate::lm_ots::verify::{count_verification_steps, verification_steps};
use crate::lms::definitions::LmsPrivateKey;
use crate::lms::helper::lemma_empty_cache_faithful;
use crate::lms::tree::Tree;
use crate::util::helper::is_zero;
use vstd::prelude::*;

verus! {

/// The number of candidates that the signer tries.
pub const FAST_VERIFY_TRIALS: u16 = 32;

/// The chain number under which the first candidate is derived; the others
/// follow.
pub const D_FAST_VERIFY: u16 = 0xff00;

/// Whether every byte of `s` is zero.
pub open spec fn all_zero(s: Seq<u8>) -> bool {
    forall|j: int| 0 <= j < s.len() ==> s[j] == 0
}

/// The last 32 bytes of `message`.
pub open spec fn tail_of(message: Seq<u8>) -> Seq<u8> {
    message.subrange(message.len() - 32, message.len() as int)
}

/// `message` with its last 32 bytes replaced by `tail`.
pub open spec fn with_tail(message: Seq<u8>, tail: Seq<u8>) -> Seq<u8> {
    message.subrange(0, message.len() - 32) + tail
}

/// The `i`-th candidate for the tail of a message that leaf `q` of the
/// tree with seed `seed` and identifier `id` signs: derived from the seed
/// like the start of a chain, under a chain number of its own, and made to
/// differ from zero.
pub open spec fn candidate_tail<H: Hasher>(seed: Seq<u8>, id: Seq<u8>, q: u32, i: u16) -> Seq<u8> {
    let raw = chain_secret::<H>(seed, id, q, (D_FAST_VERIFY + i) as u16);
    if all_zero(raw) {
        raw.update(0, 1u8)
    } else {
        raw
    }
}

/// The number of chain steps that verifying the signature of leaf `q` of
/// tree `t` takes under the `i`-th candidate.
pub open spec fn trial_steps<H: Hasher>(t: Tree, q: u32, message: Seq<u8>, i: u16) -> int {
    verification_steps::<H>(
        t.ots,
        t.id,
        q,
        randomizer::<H>(t.seed, t.id, q),
        with_tail(message, candidate_tail::<H>(t.seed, t.id, q, i)),
    )
}

/// The best of the first `k` candidates: the first among those with the
/// fewest steps.
pub open spec fn best_trial<H: Hasher>(t: Tree, q: u32, message: Seq<u8>, k: nat) -> nat
    decreases k,
{
    if k <= 1 {
        0
    } else {
        let best = best_trial::<H>(t, q, message, (k - 1) as nat);
        if trial_steps::<H>(t, q, message, (k - 1) as u16) < trial_steps::<H>(
            t,
            q,
            message,
            best as u16,
        ) {
            (k - 1) as nat
        } else {
            best
        }
    }
}

/// `message` with the tail that the search chooses for leaf `q` of tree
/// `t`.
pub open spec fn optimized<H: Hasher>(t: Tree, q: u32, message: Seq<u8>) -> Seq<u8> {
    with_tail(
        message,
        candidate_tail::<H>(
            t.seed,
            t.id,
            q,
            best_trial::<H>(t, q, message, FAST_VERIFY_TRIALS as nat) as u16,
        ),
    )
}

/// `message` with the tail that the search chooses for the key `key`.
pub open spec fn optimized_message<H: Hasher>(key: PrivateKeyView, message: Seq<u8>) -> Seq<u8> {
    let last = (key.params.len() - 1) as nat;
    optimized::<H>(level_tree::<H>(key, last), level_index(key.params, key.q, last as int), message)
}

/// Whether a message buffer may be handed to the search: it is not shorter
/// than the tail, and the tail is zero.
pub open spec fn tail_free(message: Seq<u8>) -> bool {
    message.len() >= 32 && all_zero(tail_of(message))
}

/// The best of the first `k` candidates is one of them, and verifying
/// under it takes no more chain steps than under any other of them.
pub proof fn lemma_best_trial_is_best<H: Hasher>(t: Tree, q: u32, message: Seq<u8>, k: nat, i: nat)
    requires
        i < k,
    ensures
        best_trial::<H>(t, q, message, k) < k,
        trial_steps::<H>(t, q, message, best_trial::<H>(t, q, message, k) as u16) <= trial_steps::<H>(
            t,
            q,
            message,
            i as u16,
        ),
    decreases k,
{
    if k > 1 {
        if i < k - 1 {
            lemma_best_trial_is_best::<H>(t, q, message, (k - 1) as nat, i);
        } else {
            lemma_best_trial_is_best::<H>(t, q, message, (k - 1) as nat, 0);
        }
    }
}

/// A candidate has 32 bytes and is not zero; a message that carries it is
/// as long as before and no longer free.
pub proof fn lemma_candidate<H: Hasher>(seed: Seq<u8>, id: Seq<u8>, q: u32, i: u16, message: Seq<u8>)
    requires
        message.len() >= 32,
    ensures
        candidate_tail::<H>(seed, id, q, i).len() == 32,
        !all_zero(candidate_tail::<H>(seed, id, q, i)),
        with_tail(message, candidate_tail::<H>(seed, id, q, i)).len() == message.len(),
        !tail_free(with_tail(message, candidate_tail::<H>(seed, id, q, i))),
{
    let raw = chain_secret::<H>(seed, id, q, (D_FAST_VERIFY + i) as u16);
    H::lemma_digest_len(
        id + crate::util::ustr::be32(q) + crate::util::ustr::be16((D_FAST_VERIFY + i) as u16)
            + seq![crate::constants::D_SECRET] + seed,
    );
    let tail = candidate_tail::<H>(seed, id, q, i);
    if all_zero(raw) {
        assert(tail[0] == 1);
    } else {
        let j = choose|j: int| 0 <= j < raw.len() && raw[j] != 0;
        assert(tail[j] != 0);
    }
    let changed = with_tail(message, tail);
    assert(tail_of(changed) =~= tail);
}

/// The `i`-th candidate for the tail.
pub fn generate_candidate_tail<H: Hasher>(seed: &[u8; 32], id: &[u8; 16], q: u32, i: u16) -> (tail: [u8; 32])
    requires
        i < FAST_VERIFY_TRIALS,
    ensures
        tail@ == candidate_tail::<H>(seed@, id@, q, i),
{
    let mut tail = derive_chain_secret::<H>(seed, id, q, D_FAST_VERIFY + i);
    if is_zero(tail.as_slice()) {
        tail[0] = 1;
    }
    assert(tail@ =~= candidate_tail::<H>(seed@, id@, q, i));
    tail
}

/// Searches the candidates for the tail under which verifying the
/// signature of the next leaf of `key` takes the fewest chain steps, and
/// writes it into the last 32 bytes of `message_mut`.
pub fn optimize_message<H: Hasher>(key: &LmsPrivateKey, message_mut: &mut [u8])
    requires
        old(message_mut)@.len() >= 32,
    ensures
        final(message_mut)@ == optimized::<H>(key.tree(), key.used_leafs_index, old(message_mut)@),
        final(message_mut)@.len() == old(message_mut)@.len(),
{
    let q = key.used_leafs_index;
    let c = derive_randomizer::<H>(&key.seed, &key.lms_tree_identifier, q);
    let offset = message_mut.len() - 32;
    let ghost t = key.tree();
    let ghost initial = message_mut@;
    let mut best: u16 = 0;
    let mut best_steps: u32 = 0;
    let mut i: u16 = 0;
    while i < FAST_VERIFY_TRIALS
        invariant
            i <= FAST_VERIFY_TRIALS,
            t == key.tree(),
            q == key.used_leafs_index,
            c@ == randomizer::<H>(t.seed, t.id, q),
            initial.len() >= 32,
            offset == initial.len() - 32,
            message_mut@.len() == initial.len(),
            message_mut@.subrange(0, offset as int) == initial.subrange(0, offset as int),
            best == best_trial::<H>(t, q, initial, i as nat),
            i >= 1 ==> best < i && best_steps == trial_steps::<H>(t, q, initial, best),
        decreases FAST_VERIFY_TRIALS - i,
    {
        let tail = generate_candidate_tail::<H>(&key.seed, &key.lms_tree_identifier, q, i);
        proof {
            lemma_candidate::<H>(t.seed, t.id, q, i, initial);
        }
        write_bytes(message_mut, offset, tail.as_slice());
        assert(message_mut@ =~= with_tail(initial, tail@));
        let steps = count_verification_steps::<H>(
            key.lmots_parameter,
            &key.lms_tree_identifier,
            q,
            &c,
            message_mut,
        );
        if i == 0 || steps < best_steps {
            best = i;
            best_steps = steps;
        }
        i = i + 1;
    }
    let tail = generate_candidate_tail::<H>(&key.seed, &key.lms_tree_identifier, q, best);
    proof {
        lemma_candidate::<H>(t.seed, t.id, q, best, initial);
    }
    write_bytes(message_mut, offset, tail.as_slice());
    assert(message_mut@ =~= with_tail(initial, tail@));
}

/// Signs the content of `message_mut` with `key` after the search has
/// chosen the message's tail. Returns the serialized signature, the stored
/// form of the key's next state, and the number of chain steps that
/// verifying the signature takes.
pub fn sign_with_key_mut<H: Hasher>(message_mut: &mut [u8], key: ReferenceImplPrivateKey, aux: &mut [u8]) -> (r:
    Result<(Vec<u8>, Vec<u8>, u16), ErrorKind>)
    requires
        key.wf(),
        old(message_mut)@.len() >= 32,
    ensures
        aux_evolves::<H>(old(aux)@, final(aux)@, key@),
        final(message_mut)@.len() == old(message_mut)@.len(),
        key@.q >= key@.end_count() ==> r == Err::<(Vec<u8>, Vec<u8>, u16), ErrorKind>(
            ErrorKind::Exhausted,
        ) && final(message_mut)@ == old(message_mut)@,
        key@.q < key@.end_count() ==> (r matches Ok((signature, next, steps)) && final(message_mut)@
            == optimized_message::<H>(key@, old(message_mut)@) && next@ == key@.advanced().encode()
            && signature@.len() <= MAX_HSS_SIGNATURE_LENGTH && (aux_faithful::<H>(old(aux)@, key@) ==> {
            let model = crate::hss::signing::signature::<H>(key@, final(message_mut)@);
            &&& signature@ == model.encode()
            &&& steps == hash_iterations::<H>(hss_public_key::<H>(key@).key, model, final(message_mut)@)
        })),
{
    let mut key = key;
    if key.compressed_used_leafs_indexes >= key.get_end_count() {
        return Err(ErrorKind::Exhausted);
    }
    let content = hss_prepare_aux_data::<H>(aux, &key);
    let empty: Vec<u8> = Vec::new();
    proof {
        lemma_empty_cache_faithful::<H>(level_tree::<H>(key@, 0), empty@);
    }
    let nodes = if content == 0 {
        empty.as_slice()
    } else {
        &aux[1..content]
    };
    let expanded = match HssPrivateKey::from::<H>(&key, nodes) {
        Ok(expanded) => expanded,
        Err(e) => {
            return Err(ErrorKind::Exhausted);
        },
    };
    proof {
        expanded.lemma_bottom_ready();
        expanded.lemma_bottom_tree::<H>();
        reveal(HssPrivateKey::well_shaped);
    }
    let levels = expanded.private_key.len();
    optimize_message::<H>(&expanded.private_key[levels - 1], message_mut);
    let signature = match HssSignature::sign::<H>(&expanded, message_mut, nodes) {
        Ok(signature) => signature,
        Err(e) => {
            return Err(ErrorKind::Exhausted);
        },
    };
    proof {
        lemma_encode_len(signature@);
    }
    let public_key = expanded.get_public_key::<H>();
    let steps = count_hash_iterations::<H>(&signature, &public_key.public_key, message_mut);
    let bytes = signature.to_binary_representation();
    key.increment();
    let next = key.to_binary_representation();
    Ok((bytes, next, steps))
}

/// Signs the content of `message_mut` with the key stored in `private_key`
/// after the search has chosen the message's tail.
///
/// Fails with `FastVerifyMisuse`, before anything else is looked at, where
/// the buffer is shorter than the tail or the tail is not zero.
pub fn sign_message_mut<H: Hasher>(message_mut: &mut [u8], private_key: &[u8], aux: &mut [u8]) -> (r:
    Result<(Vec<u8>, Vec<u8>, u16), ErrorKind>)
    ensures
        final(aux)@.len() == old(aux)@.len(),
        final(message_mut)@.len() == old(message_mut)@.len(),
        !tail_free(old(message_mut)@) ==> r == Err::<(Vec<u8>, Vec<u8>, u16), ErrorKind>(
            ErrorKind::FastVerifyMisuse,
        ) && final(aux)@ == old(aux)@,
        r is Err ==> final(message_mut)@ == old(message_mut)@,
        tail_free(old(message_mut)@) ==> aux_kept::<H>(old(aux)@, final(aux)@, private_key@)
            && match PrivateKeyView::decode(private_key@) {
            None => r == Err::<(Vec<u8>, Vec<u8>, u16), ErrorKind>(ErrorKind::Parse),
            Some(key) => if key.q >= key.end_count() {
                r == Err::<(Vec<u8>, Vec<u8>, u16), ErrorKind>(ErrorKind::Exhausted)
            } else {
                r matches Ok((signature, next, steps)) && final(message_mut)@ == optimized_message::<H>(
                    key,
                    old(message_mut)@,
                ) && next@ == key.advanced().encode() && next@.len() == private_key@.len()
                    && signature@.len() <= MAX_HSS_SIGNATURE_LENGTH && (aux_faithful::<H>(
                    old(aux)@,
                    key,
                ) ==> {
                    let model = crate::hss::signing::signature::<H>(key, final(message_mut)@);
                    &&& signature@ == model.encode()
                    &&& steps == hash_iterations::<H>(
                        hss_public_key::<H>(key).key,
                        model,
                        final(message_mut)@,
                    )
                })
            },
        },
{
    if message_mut.len() < 32 {
        return Err(ErrorKind::FastVerifyMisuse);
    }
    let offset = message_mut.len() - 32;
    if !is_zero(&message_mut[offset..message_mut.len()]) {
        return Err(ErrorKind::FastVerifyMisuse);
    }
    let key = match ReferenceImplPrivateKey::from_binary_representation(private_key) {
        Ok(key) => key,
        Err(e) => {
            return Err(ErrorKind::Parse);
        },
    };
    proof {
        lemma_encode_decode(private_key@);
        if key@.q < key@.end_count() {
            key@.lemma_advanced();
            lemma_decode_encode(key@.advanced());
        }
        lemma_decode_encode(key@);
    }
    sign_with_key_mut::<H>(message_mut, key, aux)
}

} // verus!
