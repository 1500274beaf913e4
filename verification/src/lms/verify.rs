//! LMS verification: from a signature to the root it leads to.

use crate::error::ErrorKind;
use crate::hasher::Hasher;
use crate::lm_ots::definitions::{lemma_sign_then_verify, public_key_candidate};
use crate::lm_ots::verify::generate_public_key_candidate;
use crate::lms::definitions::{public_key_of, LmsPublicKey, LmsPublicKeyView};
use crate::lms::helper::{hash_inner, hash_leaf};
use crate::lms::signing::{signature_with, LmsSignature, LmsSignatureView};
use crate::lms::tree::{climb, leaf_value, lemma_climb_reaches_root, root, Tree};
use crate::util::helper::bytes_eq;
use vstd::arithmetic::power2::pow2;
use vstd::prelude::*;

verus! {

/// The root that `sig` leads to if it signs `message` in the tree with
/// identifier `id`: the leaf over the one-time public key that the LM-OTS
/// signature leads to, climbed along the path.
pub open spec fn root_candidate<H: Hasher>(id: Seq<u8>, sig: LmsSignatureView, message: Seq<u8>) -> Seq<
    u8,
> {
    let r = pow2(sig.lms.height()) + sig.q as nat;
    climb::<H>(
        id,
        sig.lms.height(),
        sig.path,
        0,
        r,
        leaf_value::<H>(
            id,
            r,
            public_key_candidate::<H>(sig.ots.alg, id, sig.q, sig.ots.randomizer, sig.ots.words, message),
        ),
    )
}

/// Whether the type codes of `sig` are those of `key`.
pub open spec fn types_match(key: LmsPublicKeyView, sig: LmsSignatureView) -> bool {
    sig.lms == key.lms && sig.ots.alg == key.ots
}

/// Whether `sig` is a signature of `message` under `key`: the parameter
/// sets are those of the key, the leaf is one of the tree, and the
/// signature leads to the key's root.
pub open spec fn verifies<H: Hasher>(key: LmsPublicKeyView, sig: LmsSignatureView, message: Seq<u8>) -> bool {
    &&& types_match(key, sig)
    &&& sig.q < sig.lms.leaves()
    &&& root_candidate::<H>(key.id, sig, message) == key.root
}

/// A signature of an honest signer verifies under the public key of the
/// signer's tree, whatever the leaf, the message and the randomizer.
pub proof fn lemma_sign_then_verify_lms<H: Hasher>(t: Tree, q: u32, c: Seq<u8>, message: Seq<u8>)
    requires
        q < t.lms.leaves(),
    ensures
        verifies::<H>(public_key_of::<H>(t), signature_with::<H>(t, q, c, message), message),
{
    lemma_sign_then_verify::<H>(t.ots, t.seed, t.id, q, c, message);
    t.lms.lemma_of_type();
    lemma_climb_reaches_root::<H>(t, q as nat, 0);
}

/// The root that `signature` leads to.
pub fn generate_root_candidate<H: Hasher>(signature: &LmsSignature, id: &[u8; 16], message: &[u8]) -> (value:
    [u8; 32])
    requires
        signature.wf(),
        signature@.q < signature@.lms.leaves(),
    ensures
        value@ == root_candidate::<H>(id@, signature@, message@),
{
    let h = signature.lms_parameter.get_tree_height();
    let leaves = signature.lms_parameter.number_of_lm_ots_keys();
    let q = signature.lms_leaf_identifier;
    let candidate = generate_public_key_candidate::<H>(&signature.lmots_signature, id, q, message);
    let mut r: u32 = leaves + q;
    let mut value = hash_leaf::<H>(id, r, &candidate);
    let mut k: u8 = 0;
    while k < h
        invariant
            k <= h,
            h == signature@.lms.height(),
            h <= 25,
            signature.authentication_path@.len() == 32 * h,
            climb::<H>(id@, h as nat, signature.authentication_path@, k as nat, r as nat, value@)
                == root_candidate::<H>(id@, signature@, message@),
        decreases h - k,
    {
        let start: usize = 32 * (k as usize);
        let other = &signature.authentication_path.as_slice()[start..start + 32];
        value =
        if r % 2 == 1 {
            hash_inner::<H>(id, r / 2, other, value.as_slice())
        } else {
            hash_inner::<H>(id, r / 2, value.as_slice(), other)
        };
        r = r / 2;
        k = k + 1;
    }
    value
}

/// Verifies `signature` over `message` under `public_key`. Fails when the
/// parameter sets of the signature are not those of the key; otherwise says
/// whether the signature is valid.
pub fn verify<H: Hasher>(signature: &LmsSignature, public_key: &LmsPublicKey, message: &[u8]) -> (r: Result<
    bool,
    ErrorKind,
>)
    requires
        signature.wf(),
    ensures
        !types_match(public_key@, signature@) ==> r == Err::<bool, ErrorKind>(ErrorKind::ParamMismatch),
        types_match(public_key@, signature@) ==> r == Ok::<bool, ErrorKind>(
            verifies::<H>(public_key@, signature@, message@),
        ),
{
    if signature.lms_parameter != public_key.lms_parameter
        || signature.lmots_signature.lmots_parameter != public_key.lmots_parameter {
        return Err(ErrorKind::ParamMismatch);
    }
    if signature.lms_leaf_identifier >= signature.lms_parameter.number_of_lm_ots_keys() {
        return Ok(false);
    }
    let candidate = generate_root_candidate::<H>(signature, &public_key.lms_tree_identifier, message);
    Ok(bytes_eq(candidate.as_slice(), public_key.key.as_slice()))
}

} // verus!
