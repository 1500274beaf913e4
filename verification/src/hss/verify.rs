//! HSS verification: every level vouches for the next, and the last for the
//! message.

use crate::hasher::Hasher;
use crate::hss::definitions::{
    hss_public_key, lemma_level_tree, level_public_key, level_tree, signed_public_key,
    HssPublicKey, HssPublicKeyView,
};
use crate::hss::parameter::{lemma_level_index, level_index};
use crate::hss::reference_impl_private_key::PrivateKeyView;
use crate::hss::signing::{lemma_signature_wf, signature_with, HssSignature, HssSignatureView};
use crate::lm_ots::definitions::randomizer;
use crate::lms::definitions::{encode_public_key, LmsPublicKey, LmsPublicKeyView};
use crate::lms::signing::LmsSignatureView;
use crate::lms::verify::lemma_sign_then_verify_lms;
use vstd::prelude::*;

verus! {

/// Whether, from the `i`-th signed public key on, every public key is
/// signed by the key before it, the first of them by `key`, and the last
/// public key signs `message`.
pub open spec fn chain_verifies<H: Hasher>(
    key: LmsPublicKeyView,
    sig: HssSignatureView,
    i: int,
    message: Seq<u8>,
) -> bool
    decreases sig.signed_keys.len() - i,
{
    if i < 0 || i >= sig.signed_keys.len() {
        crate::lms::verify::verifies::<H>(key, sig.sig, message)
    } else {
        &&& crate::lms::verify::verifies::<H>(
            key,
            sig.signed_keys[i].sig,
            encode_public_key(sig.signed_keys[i].public_key),
        )
        &&& chain_verifies::<H>(sig.signed_keys[i].public_key, sig, i + 1, message)
    }
}

/// Whether `sig` is a signature of `message` under `key`: it has one signed
/// public key less than the key has levels, and the chain from the key to
/// the message holds.
pub open spec fn verifies<H: Hasher>(key: HssPublicKeyView, sig: HssSignatureView, message: Seq<u8>) -> bool {
    &&& sig.signed_keys.len() + 1 == key.levels
    &&& chain_verifies::<H>(key.key, sig, 0, message)
}

/// Whether the bytes `signature` are a signature of `message` under the
/// public key that the bytes `public_key` hold: both are well-formed, and
/// the one verifies under the other.
pub open spec fn hss_verifies<H: Hasher>(message: Seq<u8>, signature: Seq<u8>, public_key: Seq<u8>) -> bool {
    match (HssSignatureView::decode(signature), HssPublicKeyView::decode(public_key)) {
        (Some(sig), Some(key)) => verifies::<H>(key, sig, message),
        _ => false,
    }
}

/// In a signature of an honest signer the chain holds from every level on.
pub proof fn lemma_chain_verifies<H: Hasher>(key: PrivateKeyView, c: Seq<u8>, message: Seq<u8>, i: int)
    requires
        key.wf(),
        0 <= i < key.params.len(),
    ensures
        chain_verifies::<H>(
            level_public_key::<H>(key, i as nat),
            signature_with::<H>(key, c, message),
            i,
            message,
        ),
    decreases key.params.len() - i,
{
    let sig = signature_with::<H>(key, c, message);
    let t = level_tree::<H>(key, i as nat);
    let q = level_index(key.params, key.q, i);
    lemma_level_index(key.params, key.q, i);
    lemma_level_tree::<H>(key, i as nat);
    if i >= key.params.len() - 1 {
        lemma_sign_then_verify_lms::<H>(t, q, c, message);
    } else {
        let child = encode_public_key(level_public_key::<H>(key, (i + 1) as nat));
        lemma_sign_then_verify_lms::<H>(t, q, randomizer::<H>(t.seed, t.id, q), child);
        assert(sig.signed_keys[i].sig == signed_public_key::<H>(key, i as nat));
        lemma_chain_verifies::<H>(key, c, message, i + 1);
    }
}

/// Sign, then verify: the signature that a well-formed key makes over a
/// message verifies for that message under the key's public key, whatever
/// the counter and the randomizer of the last level.
pub proof fn lemma_sign_then_verify<H: Hasher>(key: PrivateKeyView, c: Seq<u8>, message: Seq<u8>)
    requires
        key.wf(),
        c.len() == 32,
    ensures
        verifies::<H>(hss_public_key::<H>(key), signature_with::<H>(key, c, message), message),
        hss_verifies::<H>(
            message,
            signature_with::<H>(key, c, message).encode(),
            hss_public_key::<H>(key).encode(),
        ),
{
    lemma_chain_verifies::<H>(key, c, message, 0);
    lemma_signature_wf::<H>(key, c, message);
    crate::hss::signing::lemma_decode_encode(signature_with::<H>(key, c, message));
    lemma_level_tree::<H>(key, 0);
    hss_public_key::<H>(key).lemma_decode_encode();
}

/// Sign, then verify, with what signing and key generation give: the
/// signature of a well-formed key over a message, serialized, verifies for
/// that message under the serialized public key of the fresh key, whatever
/// the key's counter.
pub proof fn lemma_signature_verifies<H: Hasher>(key: PrivateKeyView, message: Seq<u8>)
    requires
        key.wf(),
    ensures
        hss_verifies::<H>(
            message,
            crate::hss::signing::signature::<H>(key, message).encode(),
            hss_public_key::<H>(PrivateKeyView { q: 0, ..key }).encode(),
        ),
{
    lemma_signature_wf::<H>(key, Seq::new(32, |i: int| 0u8), message);
    lemma_sign_then_verify::<H>(key, crate::hss::signing::derived_randomizer::<H>(key), message);
    lemma_public_key_stays::<H>(key);
}

/// The public key of a key does not change as the key is used, until the
/// key is used up and its seed wiped: it is that of the fresh key.
pub proof fn lemma_public_key_stays<H: Hasher>(key: PrivateKeyView)
    ensures
        hss_public_key::<H>(key) == hss_public_key::<H>(PrivateKeyView { q: 0, ..key }),
        key.q + 1 != key.end_count() ==> hss_public_key::<H>(key.advanced()) == hss_public_key::<H>(
            key,
        ),
{
    crate::hss::definitions::lemma_top_tree::<H>(key, PrivateKeyView { q: 0, ..key });
    if key.q + 1 != key.end_count() {
        crate::hss::definitions::lemma_top_tree::<H>(key.advanced(), key);
    }
}

/// Whether `signature` is a signature of `message` under `public_key`.
pub fn verify<H: Hasher>(signature: &HssSignature, public_key: &HssPublicKey, message: &[u8]) -> (valid: bool)
    requires
        signature.wf(),
    ensures
        valid == verifies::<H>(public_key@, signature@, message@),
{
    let n = signature.signed_public_keys.len();
    if n as u64 + 1 != public_key.level as u64 {
        return false;
    }
    let mut key: LmsPublicKey = public_key.public_key;
    let mut i: usize = 0;
    while i < n
        invariant
            i <= n,
            n == signature.signed_public_keys@.len(),
            n == signature@.signed_keys.len(),
            signature.wf(),
            chain_verifies::<H>(key@, signature@, i as int, message@) == chain_verifies::<H>(
                public_key@.key,
                signature@,
                0,
                message@,
            ),
        decreases n - i,
    {
        let signed = &signature.signed_public_keys[i];
        assert(signature@.signed_keys[i as int] == signed@);
        assert(signature@.signed_keys[i as int].wf());
        let child = signed.public_key.to_binary_representation();
        match crate::lms::verify::verify::<H>(&signed.sig, &key, child.as_slice()) {
            Ok(true) => {},
            _ => {
                return false;
            },
        }
        key = signed.public_key;
        i = i + 1;
    }
    match crate::lms::verify::verify::<H>(&signature.signature, &key, message) {
        Ok(valid) => valid,
        Err(e) => false,
    }
}

/// The number of chain steps that verifying the LMS signature `sig` over
/// `message` in the tree with identifier `id` takes.
pub open spec fn lms_steps<H: Hasher>(id: Seq<u8>, sig: LmsSignatureView, message: Seq<u8>) -> int {
    crate::lm_ots::verify::verification_steps::<H>(sig.ots.alg, id, sig.q, sig.ots.randomizer, message)
}

/// The number of chain steps that the verification of `sig` takes from the
/// `i`-th signed public key on, `key` being the public key that signs it.
pub open spec fn chain_steps<H: Hasher>(
    key: LmsPublicKeyView,
    sig: HssSignatureView,
    i: int,
    message: Seq<u8>,
) -> int
    decreases sig.signed_keys.len() - i,
{
    if i < 0 || i >= sig.signed_keys.len() {
        lms_steps::<H>(key.id, sig.sig, message)
    } else {
        lms_steps::<H>(
            key.id,
            sig.signed_keys[i].sig,
            encode_public_key(sig.signed_keys[i].public_key),
        ) + chain_steps::<H>(sig.signed_keys[i].public_key, sig, i + 1, message)
    }
}

/// The number of chain steps that the verification of `sig` over `message`
/// under `key` takes, on all levels together; 65535 if there are more.
pub open spec fn hash_iterations<H: Hasher>(key: LmsPublicKeyView, sig: HssSignatureView, message: Seq<u8>) -> int {
    let steps = chain_steps::<H>(key, sig, 0, message);
    if steps > 0xffff {
        0xffff
    } else {
        steps
    }
}

/// Counts the chain steps that the verification of `signature` over
/// `message` under `public_key` takes.
pub fn count_hash_iterations<H: Hasher>(
    signature: &HssSignature,
    public_key: &LmsPublicKey,
    message: &[u8],
) -> (steps: u16)
    requires
        signature@.signed_keys.len() <= 7,
    ensures
        steps == hash_iterations::<H>(public_key@, signature@, message@),
{
    let n = signature.signed_public_keys.len();
    let mut key: LmsPublicKey = *public_key;
    let mut total: u32 = 0;
    let mut i: usize = 0;
    while i < n
        invariant
            i <= n <= 7,
            n == signature.signed_public_keys@.len(),
            n == signature@.signed_keys.len(),
            total <= i * 67575,
            total + chain_steps::<H>(key@, signature@, i as int, message@) == chain_steps::<H>(
                public_key@,
                signature@,
                0,
                message@,
            ),
        decreases n - i,
    {
        let signed = &signature.signed_public_keys[i];
        assert(signature@.signed_keys[i as int] == signed@);
        let child = signed.public_key.to_binary_representation();
        let steps = crate::lm_ots::verify::count_verification_steps::<H>(
            signed.sig.lmots_signature.lmots_parameter,
            &key.lms_tree_identifier,
            signed.sig.lms_leaf_identifier,
            &signed.sig.lmots_signature.signature_randomizer,
            child.as_slice(),
        );
        total = total + steps;
        key = signed.public_key;
        i = i + 1;
    }
    let steps = crate::lm_ots::verify::count_verification_steps::<H>(
        signature.signature.lmots_signature.lmots_parameter,
        &key.lms_tree_identifier,
        signature.signature.lms_leaf_identifier,
        &signature.signature.lmots_signature.signature_randomizer,
        message,
    );
    total = total + steps;
    if total > 0xffff {
        0xffff
    } else {
        total as u16
    }
}

} // verus!
