//! The Hierarchical Signature System (HSS): a chain of LMS trees, each
//! signing the public key of the next.
//!
//! This module holds the outer interface: key generation, signing with an
//! update callback, verification and the lifetime query, on serialized keys
//! and signatures.

pub mod aux;
pub mod definitions;
pub mod fast_verify;
pub mod parameter;
pub mod reference_impl_private_key;
pub mod signing;
pub mod verify;

use crate::constants::{
    MAX_HSS_PUBLIC_KEY_LENGTH, MAX_HSS_SIGNATURE_LENGTH, MAX_PRIVATE_KEY_LENGTH, SEED_LEN,
};
use crate::error::{collapse, ErrorKind};
use crate::hasher::Hasher;
use crate::hss::aux::{aux_faithful, aux_nodes, aux_usable, hss_prepare_aux_data};
use crate::hss::definitions::{hss_public_key, level_tree, HssPrivateKey, HssPublicKey};
use crate::hss::fast_verify::{optimized_message, sign_message_mut, tail_free};
use crate::hss::parameter::{params_valid, HssParameter};
use crate::hss::reference_impl_private_key::{
    lemma_decode_encode, lemma_encode_decode, PrivateKeyView, ReferenceImplPrivateKey,
};
use crate::hss::signing::{lemma_encode_len, HssSignature};
use crate::hss::verify::{hash_iterations, hss_verifies};
use crate::lms::helper::lemma_empty_cache_faithful;
use crate::util::helper::to_array32;
use crate::util::random::try_random_seed;
use arrayvec::ArrayVec;
use vstd::prelude::*;

verus! {

/// The bounded vector of the `arrayvec` crate.
#[verifier::external_type_specification]
#[verifier::external_body]
#[verifier::reject_recursive_types(T)]
pub struct ExArrayVec<T, const CAP: usize>(ArrayVec<T, CAP>);

/// The bytes that a private key buffer holds.
pub uninterp spec fn private_key_bytes(v: ArrayVec<u8, MAX_PRIVATE_KEY_LENGTH>) -> Seq<u8>;

/// The bytes that a public key buffer holds.
pub uninterp spec fn public_key_bytes(v: ArrayVec<u8, MAX_HSS_PUBLIC_KEY_LENGTH>) -> Seq<u8>;

/// The bytes that a signature buffer holds.
pub uninterp spec fn signature_bytes(v: ArrayVec<u8, MAX_HSS_SIGNATURE_LENGTH>) -> Seq<u8>;

/// Calls `ArrayVec::try_from` on a slice that fits the capacity: the new
/// vector holds the bytes of `s`.
#[verifier::external_body]
fn private_key_from_slice(s: &[u8]) -> (v: ArrayVec<u8, MAX_PRIVATE_KEY_LENGTH>)
    requires
        s@.len() <= MAX_PRIVATE_KEY_LENGTH,
    ensures
        private_key_bytes(v) == s@,
{
    ArrayVec::try_from(s).unwrap()
}

/// Calls `ArrayVec::try_from` on a slice that fits the capacity: the new
/// vector holds the bytes of `s`.
#[verifier::external_body]
fn public_key_from_slice(s: &[u8]) -> (v: ArrayVec<u8, MAX_HSS_PUBLIC_KEY_LENGTH>)
    requires
        s@.len() <= MAX_HSS_PUBLIC_KEY_LENGTH,
    ensures
        public_key_bytes(v) == s@,
{
    ArrayVec::try_from(s).unwrap()
}

/// Calls `ArrayVec::try_from` on a slice that fits the capacity: the new
/// vector holds the bytes of `s`.
#[verifier::external_body]
fn signature_from_slice(s: &[u8]) -> (v: ArrayVec<u8, MAX_HSS_SIGNATURE_LENGTH>)
    requires
        s@.len() <= MAX_HSS_SIGNATURE_LENGTH,
    ensures
        signature_bytes(v) == s@,
{
    ArrayVec::try_from(s).unwrap()
}

/// Calls `ArrayVec::as_slice`: the slice of the bytes that the vector
/// holds, which are never more than its capacity.
#[verifier::external_body]
fn private_key_as_slice(v: &ArrayVec<u8, MAX_PRIVATE_KEY_LENGTH>) -> (s: &[u8])
    ensures
        s@ == private_key_bytes(*v),
        s@.len() <= MAX_PRIVATE_KEY_LENGTH,
{
    v.as_slice()
}

/// Calls `ArrayVec::as_mut_slice`: the slice of the bytes that the vector
/// holds, through which they can be overwritten; their number stays.
#[verifier::external_body]
fn private_key_as_mut_slice(v: &mut ArrayVec<u8, MAX_PRIVATE_KEY_LENGTH>) -> (s: &mut [u8])
    ensures
        s@ == private_key_bytes(*old(v)),
        private_key_bytes(*final(v)) == final(s)@,
{
    v.as_mut_slice()
}

/// Calls `ArrayVec::as_slice`: the slice of the bytes that the vector
/// holds, which are never more than its capacity.
#[verifier::external_body]
fn public_key_as_slice(v: &ArrayVec<u8, MAX_HSS_PUBLIC_KEY_LENGTH>) -> (s: &[u8])
    ensures
        s@ == public_key_bytes(*v),
        s@.len() <= MAX_HSS_PUBLIC_KEY_LENGTH,
{
    v.as_slice()
}

/// Calls `ArrayVec::as_slice`: the slice of the bytes that the vector
/// holds, which are never more than its capacity.
#[verifier::external_body]
fn signature_as_slice(v: &ArrayVec<u8, MAX_HSS_SIGNATURE_LENGTH>) -> (s: &[u8])
    ensures
        s@ == signature_bytes(*v),
        s@.len() <= MAX_HSS_SIGNATURE_LENGTH,
{
    v.as_slice()
}

/// A serialized HSS signature.
pub struct Signature {
    pub bytes: ArrayVec<u8, MAX_HSS_SIGNATURE_LENGTH>,
}

impl Clone for Signature {
    fn clone(&self) -> (copy: Self)
        ensures
            signature_bytes(copy.bytes) == signature_bytes(self.bytes),
    {
        Signature { bytes: signature_from_slice(signature_as_slice(&self.bytes)) }
    }
}

impl Signature {
    /// The bytes of the signature.
    pub fn as_slice(&self) -> (s: &[u8])
        ensures
            s@ == signature_bytes(self.bytes),
    {
        signature_as_slice(&self.bytes)
    }

    /// A signature that holds `bytes`. Fails when they are more than the
    /// longest signature has.
    pub fn from_bytes(bytes: &[u8]) -> (r: Result<Signature, signature::Error>)
        ensures
            r is Ok <==> bytes@.len() <= MAX_HSS_SIGNATURE_LENGTH,
            r matches Ok(sig) ==> signature_bytes(sig.bytes) == bytes@,
    {
        if bytes.len() <= MAX_HSS_SIGNATURE_LENGTH {
            Ok(Signature { bytes: signature_from_slice(bytes) })
        } else {
            Err(collapse(ErrorKind::Parse))
        }
    }
}

/// A public key and the private key that belongs to it.
pub struct HssKeyPair {
    pub public_key: VerifyingKey,
    pub private_key: SigningKey,
}

impl HssKeyPair {
    fn new(public_key: VerifyingKey, private_key: SigningKey) -> (pair: Self)
        ensures
            pair.public_key == public_key,
            pair.private_key == private_key,
    {
        Self { public_key, private_key }
    }
}

/// A serialized private key.
pub struct SigningKey {
    pub bytes: ArrayVec<u8, MAX_PRIVATE_KEY_LENGTH>,
}

impl Clone for SigningKey {
    fn clone(&self) -> (copy: Self)
        ensures
            copy@ == self@,
    {
        SigningKey { bytes: private_key_from_slice(private_key_as_slice(&self.bytes)) }
    }
}

impl SigningKey {
    /// The bytes of the key.
    pub open spec fn view(&self) -> Seq<u8> {
        private_key_bytes(self.bytes)
    }

    /// The bytes of the key.
    pub fn as_slice(&self) -> (s: &[u8])
        ensures
            s@ == self@,
    {
        private_key_as_slice(&self.bytes)
    }

    /// The bytes of the key, to overwrite them.
    pub fn as_mut_slice(&mut self) -> (s: &mut [u8])
        ensures
            s@ == old(self)@,
            final(self)@ == final(s)@,
    {
        private_key_as_mut_slice(&mut self.bytes)
    }

    /// A key that holds `bytes`. Fails when they are more than the longest
    /// private key has.
    pub fn from_bytes(bytes: &[u8]) -> (r: Result<SigningKey, signature::Error>)
        ensures
            r is Ok <==> bytes@.len() <= MAX_PRIVATE_KEY_LENGTH,
            r matches Ok(key) ==> key@ == bytes@,
    {
        if bytes.len() <= MAX_PRIVATE_KEY_LENGTH {
            Ok(SigningKey { bytes: private_key_from_slice(bytes) })
        } else {
            Err(collapse(ErrorKind::Parse))
        }
    }

    /// Signs `msg` and moves this key on to its next state. Where signing
    /// fails the key stays as it is.
    pub fn try_sign_with_aux<H: Hasher>(&mut self, msg: &[u8], aux_data: Option<&mut &mut [u8]>) -> (r:
        Result<Signature, signature::Error>)
        ensures
            r is Ok <==> can_sign(old(self)@),
            r is Err ==> final(self)@ == old(self)@,
            r is Ok ==> final(self)@ == PrivateKeyView::decode(old(self)@)->0.advanced().encode(),
            match aux_data {
                Some(a) => aux_kept::<H>((*a)@, (*final(a))@, old(self)@) && final(*final(a))@
                    == final(*a)@,
                None => true,
            },
            r matches Ok(sig) ==> ({
                let key = PrivateKeyView::decode(old(self)@)->0;
                (match aux_data {
                    Some(a) => aux_faithful::<H>((*a)@, key),
                    None => true,
                }) ==> signature_bytes(sig.bytes) == crate::hss::signing::signature::<H>(
                    key,
                    msg@,
                ).encode()
            }),
    {
        let mut none: Vec<u8> = Vec::new();
        let outcome = match aux_data {
            Some(a) => sign_message::<H>(msg, self.as_slice(), *a),
            None => {
                proof {
                    lemma_no_aux::<H>(none@, self@);
                }
                sign_message::<H>(msg, self.as_slice(), none.as_mut_slice())
            },
        };
        match outcome {
            Ok((signature, next)) => {
                self.bytes = private_key_from_slice(next.as_slice());
                Ok(Signature { bytes: signature_from_slice(signature.as_slice()) })
            },
            Err(kind) => Err(collapse(kind)),
        }
    }

    /// Signs `msg` without auxiliary data and moves this key on to its next
    /// state. Where signing fails the key stays as it is.
    pub fn try_sign<H: Hasher>(&mut self, msg: &[u8]) -> (r: Result<Signature, signature::Error>)
        ensures
            r is Ok <==> can_sign(old(self)@),
            r is Err ==> final(self)@ == old(self)@,
            r is Ok ==> final(self)@ == PrivateKeyView::decode(old(self)@)->0.advanced().encode(),
            r matches Ok(sig) ==> signature_bytes(sig.bytes) == crate::hss::signing::signature::<H>(
                PrivateKeyView::decode(old(self)@)->0,
                msg@,
            ).encode(),
    {
        self.try_sign_with_aux::<H>(msg, None)
    }
}

/// A serialized public key.
pub struct VerifyingKey {
    pub bytes: ArrayVec<u8, MAX_HSS_PUBLIC_KEY_LENGTH>,
}

impl Clone for VerifyingKey {
    fn clone(&self) -> (copy: Self)
        ensures
            copy@ == self@,
    {
        VerifyingKey { bytes: public_key_from_slice(public_key_as_slice(&self.bytes)) }
    }
}

impl VerifyingKey {
    /// The bytes of the key.
    pub open spec fn view(&self) -> Seq<u8> {
        public_key_bytes(self.bytes)
    }

    /// The bytes of the key.
    pub fn as_slice(&self) -> (s: &[u8])
        ensures
            s@ == self@,
    {
        public_key_as_slice(&self.bytes)
    }

    /// A key that holds `bytes`. Fails when they are more than a public key
    /// has.
    pub fn from_bytes(bytes: &[u8]) -> (r: Result<VerifyingKey, signature::Error>)
        ensures
            r is Ok <==> bytes@.len() <= MAX_HSS_PUBLIC_KEY_LENGTH,
            r matches Ok(key) ==> key@ == bytes@,
    {
        if bytes.len() <= MAX_HSS_PUBLIC_KEY_LENGTH {
            Ok(VerifyingKey { bytes: public_key_from_slice(bytes) })
        } else {
            Err(collapse(ErrorKind::Parse))
        }
    }

    /// Succeeds if `signature` is a signature of `msg` under this key, and
    /// fails if not.
    pub fn verify<H: Hasher>(&self, msg: &[u8], signature: &Signature) -> (r: Result<(), signature::Error>)
        ensures
            r is Ok <==> hss_verifies::<H>(msg@, signature_bytes(signature.bytes), self@),
    {
        if !hss_verify::<H>(msg, signature.as_slice(), self.as_slice()) {
            return Err(collapse(ErrorKind::Parse));
        }
        Ok(())
    }
}

/// Whether `private_key` is the stored form of a key that can still sign.
pub open spec fn can_sign(private_key: Seq<u8>) -> bool {
    PrivateKeyView::decode(private_key) matches Some(key) && key.q < key.end_count()
}

/// What signing with `key` does to auxiliary data: the length stays;
/// nothing changes where the key cannot sign or the data is usable as it
/// is; data that was faithful stays so; and data that was not usable and
/// has room for the root is usable and faithful afterwards.
pub open spec fn aux_evolves<H: Hasher>(before: Seq<u8>, after: Seq<u8>, key: PrivateKeyView) -> bool {
    &&& after.len() == before.len()
    &&& key.q >= key.end_count() ==> after == before
    &&& aux_usable::<H>(before, key.seed) ==> after == before
    &&& aux_faithful::<H>(before, key) ==> aux_faithful::<H>(after, key)
    &&& key.q < key.end_count() && !aux_usable::<H>(before, key.seed) && before.len() >= 65
        ==> aux_usable::<H>(after, key.seed) && aux_faithful::<H>(after, key)
}

/// What signing with the key stored in `private_key` does to auxiliary
/// data: nothing where the key does not parse, and see [`aux_evolves`]
/// where it does.
pub open spec fn aux_kept<H: Hasher>(before: Seq<u8>, after: Seq<u8>, private_key: Seq<u8>) -> bool {
    match PrivateKeyView::decode(private_key) {
        None => after == before,
        Some(key) => aux_evolves::<H>(before, after, key),
    }
}

/// An empty buffer offers nothing, so it is faithful to every key.
pub proof fn lemma_no_aux<H: Hasher>(aux: Seq<u8>, private_key: Seq<u8>)
    requires
        aux.len() == 0,
    ensures
        PrivateKeyView::decode(private_key) matches Some(key) ==> aux_faithful::<H>(aux, key),
{
    match PrivateKeyView::decode(private_key) {
        Some(key) => {
            lemma_empty_cache_faithful::<H>(level_tree::<H>(key, 0), aux_nodes::<H>(aux, key.seed));
        },
        None => {},
    }
}

/// Signs `message` with the key stored in `private_key`. Returns the
/// serialized signature and the stored form of the key's next state; the
/// caller has to store the latter before it lets the signature out.
///
/// `aux` is auxiliary data for the key's top-level tree: it is used if its
/// tag matches, and filled if not. The signature does not depend on it as
/// long as it is faithful.
pub fn sign_message<H: Hasher>(message: &[u8], private_key: &[u8], aux: &mut [u8]) -> (r: Result<
    (Vec<u8>, Vec<u8>),
    ErrorKind,
>)
    ensures
        aux_kept::<H>(old(aux)@, final(aux)@, private_key@),
        match PrivateKeyView::decode(private_key@) {
            None => r == Err::<(Vec<u8>, Vec<u8>), ErrorKind>(ErrorKind::Parse),
            Some(key) => if key.q >= key.end_count() {
                r == Err::<(Vec<u8>, Vec<u8>), ErrorKind>(ErrorKind::Exhausted)
            } else {
                r matches Ok((signature, next)) && next@ == key.advanced().encode()
                    && signature@.len() <= MAX_HSS_SIGNATURE_LENGTH && next@.len() == private_key@.len()
                    && (aux_faithful::<H>(old(aux)@, key) ==> signature@
                    == crate::hss::signing::signature::<H>(key, message@).encode())
            },
        },
{
    let key = match ReferenceImplPrivateKey::from_binary_representation(private_key) {
        Ok(key) => key,
        Err(e) => {
            return Err(ErrorKind::Parse);
        },
    };
    proof {
        lemma_encode_decode(private_key@);
        if key@.q < key@.end_count() {
            key@.lemma_advanced();
            lemma_decode_encode(key@.advanced());
        }
        lemma_decode_encode(key@);
    }
    sign_with_key::<H>(message, key, aux)
}

/// Signs `message` with `key`. Returns the serialized signature and the
/// stored form of the key's next state.
pub fn sign_with_key<H: Hasher>(message: &[u8], key: ReferenceImplPrivateKey, aux: &mut [u8]) -> (r:
    Result<(Vec<u8>, Vec<u8>), ErrorKind>)
    requires
        key.wf(),
    ensures
        aux_evolves::<H>(old(aux)@, final(aux)@, key@),
        key@.q >= key@.end_count() ==> r == Err::<(Vec<u8>, Vec<u8>), ErrorKind>(ErrorKind::Exhausted),
        key@.q < key@.end_count() ==> (r matches Ok((signature, next)) && next@
            == key@.advanced().encode() && signature@.len() <= MAX_HSS_SIGNATURE_LENGTH && (
        aux_faithful::<H>(old(aux)@, key@) ==> signature@ == crate::hss::signing::signature::<H>(
            key@,
            message@,
        ).encode())),
{
    let mut key = key;
    if key.compressed_used_leafs_indexes >= key.get_end_count() {
        return Err(ErrorKind::Exhausted);
    }
    let content = hss_prepare_aux_data::<H>(aux, &key);
    let empty: Vec<u8> = Vec::new();
    proof {
        lemma_empty_cache_faithful::<H>(level_tree::<H>(key@, 0), empty@);
    }
    let nodes = if content == 0 {
        empty.as_slice()
    } else {
        &aux[1..content]
    };
    let expanded = match HssPrivateKey::from::<H>(&key, nodes) {
        Ok(expanded) => expanded,
        Err(e) => {
            return Err(ErrorKind::Exhausted);
        },
    };
    proof {
        expanded.lemma_bottom_ready();
    }
    let signature = match HssSignature::sign::<H>(&expanded, message, nodes) {
        Ok(signature) => signature,
        Err(e) => {
            return Err(ErrorKind::Exhausted);
        },
    };
    proof {
        lemma_encode_len(signature@);
    }
    let bytes = signature.to_binary_representation();
    key.increment();
    let next = key.to_binary_representation();
    Ok((bytes, next))
}

/// What becomes of a signature once the update callback has been asked to
/// store the key's next state: it is let out if the callback succeeded, and
/// dropped if not.
pub fn conclude_signing(signature: Vec<u8>, stored: Result<(), ()>) -> (r: Result<Vec<u8>, ErrorKind>)
    ensures
        stored is Ok ==> r == Ok::<Vec<u8>, ErrorKind>(signature),
        stored is Err ==> r == Err::<Vec<u8>, ErrorKind>(ErrorKind::CallbackFailure),
{
    match stored {
        Ok(()) => Ok(signature),
        Err(()) => Err(ErrorKind::CallbackFailure),
    }
}

/// Generates the key pair of the master seed `seed`. Returns the
/// serialized public key and the stored form of the private key. `aux` is
/// auxiliary data for the top-level tree: it is used if its tag matches,
/// and filled if not.
pub fn generate_key_pair<H: Hasher>(parameters: &[HssParameter], seed: &[u8; 32], aux: &mut [u8]) -> (r:
    Result<(Vec<u8>, Vec<u8>), ErrorKind>)
    ensures
        final(aux)@.len() == old(aux)@.len(),
        !params_valid(parameters@) ==> r == Err::<(Vec<u8>, Vec<u8>), ErrorKind>(
            ErrorKind::InvalidParameter,
        ) && final(aux)@ == old(aux)@,
        params_valid(parameters@) ==> r is Ok,
        r matches Ok((public_key, private_key)) ==> ({
            let key = PrivateKeyView { q: 0, params: parameters@, seed: seed@, sst: None };
            &&& key.wf()
            &&& private_key@ == key.encode()
            &&& private_key@.len() == 48
            &&& public_key@.len() == 60
            &&& aux_kept::<H>(old(aux)@, final(aux)@, private_key@)
            &&& aux_faithful::<H>(old(aux)@, key) ==> public_key@ == hss_public_key::<H>(key).encode()
        }),
{
    let key = match ReferenceImplPrivateKey::generate(parameters, seed) {
        Ok(key) => key,
        Err(e) => {
            return Err(ErrorKind::InvalidParameter);
        },
    };
    proof {
        lemma_decode_encode(key@);
        key@.lemma_counts();
    }
    let content = hss_prepare_aux_data::<H>(aux, &key);
    let empty: Vec<u8> = Vec::new();
    proof {
        lemma_empty_cache_faithful::<H>(level_tree::<H>(key@, 0), empty@);
    }
    let nodes = if content == 0 {
        empty.as_slice()
    } else {
        &aux[1..content]
    };
    let expanded = match HssPrivateKey::from::<H>(&key, nodes) {
        Ok(expanded) => expanded,
        Err(e) => {
            return Err(ErrorKind::InvalidParameter);
        },
    };
    let public_key = expanded.get_public_key::<H>().to_binary_representation();
    let private_key = key.to_binary_representation();
    Ok((public_key, private_key))
}

/// The number of signatures that the key stored in `private_key` can still
/// make.
pub fn remaining_lifetime(private_key: &[u8]) -> (r: Result<u64, ErrorKind>)
    ensures
        match PrivateKeyView::decode(private_key@) {
            None => r == Err::<u64, ErrorKind>(ErrorKind::Parse),
            Some(key) => r matches Ok(lifetime) && lifetime == key.remaining(),
        },
{
    match ReferenceImplPrivateKey::from_binary_representation(private_key) {
        Ok(key) => Ok(key.get_lifetime()),
        Err(e) => Err(ErrorKind::Parse),
    }
}

/// Whether `signature` is a signature of `message` under `public_key`.
/// Malformed signatures and keys verify nothing.
pub fn hss_verify<H: Hasher>(message: &[u8], signature: &[u8], public_key: &[u8]) -> (valid: bool)
    ensures
        valid == hss_verifies::<H>(message@, signature@, public_key@),
{
    let signature = match HssSignature::from_binary_representation(signature) {
        Ok(signature) => signature,
        Err(e) => {
            return false;
        },
    };
    let public_key = match HssPublicKey::from_binary_representation(public_key) {
        Ok(public_key) => public_key,
        Err(e) => {
            return false;
        },
    };
    crate::hss::verify::verify::<H>(&signature, &public_key, message)
}

/// Signs `message` with the key stored in `private_key`, hands the stored
/// form of the key's next state to `private_key_update_function`, and lets
/// the signature out if that function reports success.
///
/// The call fails where the key does not parse or is used up, and where the
/// update function fails; the update function is not called in the first
/// two cases.
pub fn hss_sign<H: Hasher>(
    message: &[u8],
    private_key: &[u8],
    private_key_update_function: &mut impl FnMut(&[u8]) -> Result<(), ()>,
    aux_data: Option<&mut &mut [u8]>,
) -> (r: Result<ArrayVec<u8, MAX_HSS_SIGNATURE_LENGTH>, signature::Error>)
    requires
        forall|next: &[u8]|
            next@.len() == private_key@.len() ==> call_requires(*old(private_key_update_function), (next,)),
    ensures
        r is Ok ==> can_sign(private_key@),
        can_sign(private_key@) ==> exists|next: &[u8], stored: Result<(), ()>|
            next@ == PrivateKeyView::decode(private_key@)->0.advanced().encode() && call_ensures(
                *old(private_key_update_function),
                (next,),
                stored,
            ) && (stored is Ok <==> r is Ok),
        match aux_data {
            Some(a) => aux_kept::<H>((*a)@, (*final(a))@, private_key@) && final(*final(a))@ == final(*a)@,
            None => true,
        },
        r matches Ok(sig) ==> ({
            let key = PrivateKeyView::decode(private_key@)->0;
            (match aux_data {
                Some(a) => aux_faithful::<H>((*a)@, key),
                None => true,
            }) ==> signature_bytes(sig) == crate::hss::signing::signature::<H>(key, message@).encode()
        }),
{
    match hss_sign_core::<H>(message, private_key, private_key_update_function, aux_data) {
        Ok(signature) => Ok(signature_from_slice(signature.as_slice())),
        Err(kind) => Err(collapse(kind)),
    }
}

/// Signing with the kind of failure told: see [`hss_sign`].
pub fn hss_sign_core<H: Hasher>(
    message: &[u8],
    private_key: &[u8],
    private_key_update_function: &mut impl FnMut(&[u8]) -> Result<(), ()>,
    aux_data: Option<&mut &mut [u8]>,
) -> (r: Result<Vec<u8>, ErrorKind>)
    requires
        forall|next: &[u8]|
            next@.len() == private_key@.len() ==> call_requires(*old(private_key_update_function), (next,)),
    ensures
        PrivateKeyView::decode(private_key@) is None ==> r == Err::<Vec<u8>, ErrorKind>(ErrorKind::Parse),
        PrivateKeyView::decode(private_key@) matches Some(key) && key.q >= key.end_count() ==> r == Err::<
            Vec<u8>,
            ErrorKind,
        >(ErrorKind::Exhausted),
        can_sign(private_key@) ==> r is Ok || r == Err::<Vec<u8>, ErrorKind>(ErrorKind::CallbackFailure),
        can_sign(private_key@) ==> exists|next: &[u8], stored: Result<(), ()>|
            next@ == PrivateKeyView::decode(private_key@)->0.advanced().encode() && call_ensures(
                *old(private_key_update_function),
                (next,),
                stored,
            ) && (stored is Ok <==> r is Ok),
        match aux_data {
            Some(a) => aux_kept::<H>((*a)@, (*final(a))@, private_key@) && final(*final(a))@ == final(*a)@,
            None => true,
        },
        r matches Ok(sig) ==> sig@.len() <= MAX_HSS_SIGNATURE_LENGTH && ({
            let key = PrivateKeyView::decode(private_key@)->0;
            (match aux_data {
                Some(a) => aux_faithful::<H>((*a)@, key),
                None => true,
            }) ==> sig@ == crate::hss::signing::signature::<H>(key, message@).encode()
        }),
{
    let mut none: Vec<u8> = Vec::new();
    let outcome = match aux_data {
        Some(a) => sign_message::<H>(message, private_key, *a),
        None => {
            proof {
                lemma_no_aux::<H>(none@, private_key@);
            }
            sign_message::<H>(message, private_key, none.as_mut_slice())
        },
    };
    let (signature, next) = match outcome {
        Ok(outcome) => outcome,
        Err(kind) => {
            return Err(kind);
        },
    };
    let stored = private_key_update_function(next.as_slice());
    conclude_signing(signature, stored)
}

/// Signs the content of `message_mut` for fast verification: chooses the
/// last 32 bytes of the buffer, which have to be zero on entry, so that
/// verifying takes few hash chain steps, then signs like [`hss_sign`].
/// Returns the signature and the number of chain steps that verifying it
/// takes.
///
/// The call fails where the buffer is shorter than 32 bytes or its last 32
/// bytes are not zero, and where [`hss_sign`] fails.
pub fn hss_sign_mut<H: Hasher>(
    message_mut: &mut [u8],
    private_key: &[u8],
    private_key_update_function: &mut impl FnMut(&[u8]) -> Result<(), ()>,
    aux_data: Option<&mut &mut [u8]>,
) -> (r: Result<(ArrayVec<u8, MAX_HSS_SIGNATURE_LENGTH>, Option<u16>), signature::Error>)
    requires
        forall|next: &[u8]|
            next@.len() == private_key@.len() ==> call_requires(*old(private_key_update_function), (next,)),
    ensures
        final(message_mut)@.len() == old(message_mut)@.len(),
        r is Ok ==> tail_free(old(message_mut)@) && can_sign(private_key@),
        tail_free(old(message_mut)@) && can_sign(private_key@) ==> exists|
            next: &[u8],
            stored: Result<(), ()>,
        |
            next@ == PrivateKeyView::decode(private_key@)->0.advanced().encode() && call_ensures(
                *old(private_key_update_function),
                (next,),
                stored,
            ) && (stored is Ok <==> r is Ok),
        !(tail_free(old(message_mut)@) && can_sign(private_key@)) ==> final(message_mut)@ == old(
            message_mut,
        )@,
        tail_free(old(message_mut)@) && can_sign(private_key@) ==> final(message_mut)@
            == optimized_message::<H>(PrivateKeyView::decode(private_key@)->0, old(message_mut)@),
        match aux_data {
            Some(a) => (*final(a))@.len() == (*a)@.len() && final(*final(a))@ == final(*a)@ && (
            tail_free(old(message_mut)@) ==> aux_kept::<H>((*a)@, (*final(a))@, private_key@)),
            None => true,
        },
        r matches Ok((sig, steps)) ==> ({
            let key = PrivateKeyView::decode(private_key@)->0;
            let model = crate::hss::signing::signature::<H>(key, final(message_mut)@);
            (match aux_data {
                Some(a) => aux_faithful::<H>((*a)@, key),
                None => true,
            }) ==> signature_bytes(sig) == model.encode() && steps == Some(
                hash_iterations::<H>(hss_public_key::<H>(key).key, model, final(message_mut)@) as u16,
            )
        }),
{
    match hss_sign_mut_core::<H>(message_mut, private_key, private_key_update_function, aux_data) {
        Ok((signature, steps)) => Ok((signature_from_slice(signature.as_slice()), Some(steps))),
        Err(kind) => Err(collapse(kind)),
    }
}

/// Signing for fast verification with the kind of failure told: see
/// [`hss_sign_mut`].
pub fn hss_sign_mut_core<H: Hasher>(
    message_mut: &mut [u8],
    private_key: &[u8],
    private_key_update_function: &mut impl FnMut(&[u8]) -> Result<(), ()>,
    aux_data: Option<&mut &mut [u8]>,
) -> (r: Result<(Vec<u8>, u16), ErrorKind>)
    requires
        forall|next: &[u8]|
            next@.len() == private_key@.len() ==> call_requires(*old(private_key_update_function), (next,)),
    ensures
        final(message_mut)@.len() == old(message_mut)@.len(),
        !tail_free(old(message_mut)@) ==> r == Err::<(Vec<u8>, u16), ErrorKind>(
            ErrorKind::FastVerifyMisuse,
        ),
        tail_free(old(message_mut)@) && PrivateKeyView::decode(private_key@) is None ==> r == Err::<
            (Vec<u8>, u16),
            ErrorKind,
        >(ErrorKind::Parse),
        tail_free(old(message_mut)@) && (PrivateKeyView::decode(private_key@) matches Some(key)
            && key.q >= key.end_count()) ==> r == Err::<(Vec<u8>, u16), ErrorKind>(ErrorKind::Exhausted),
        tail_free(old(message_mut)@) && can_sign(private_key@) ==> (r is Ok || r == Err::<
            (Vec<u8>, u16),
            ErrorKind,
        >(ErrorKind::CallbackFailure)) && final(message_mut)@ == optimized_message::<H>(
            PrivateKeyView::decode(private_key@)->0,
            old(message_mut)@,
        ),
        tail_free(old(message_mut)@) && can_sign(private_key@) ==> exists|
            next: &[u8],
            stored: Result<(), ()>,
        |
            next@ == PrivateKeyView::decode(private_key@)->0.advanced().encode() && call_ensures(
                *old(private_key_update_function),
                (next,),
                stored,
            ) && (stored is Ok <==> r is Ok),
        !(tail_free(old(message_mut)@) && can_sign(private_key@)) ==> final(message_mut)@ == old(
            message_mut,
        )@,
        match aux_data {
            Some(a) => (*final(a))@.len() == (*a)@.len() && final(*final(a))@ == final(*a)@ && (
            tail_free(old(message_mut)@) ==> aux_kept::<H>((*a)@, (*final(a))@, private_key@)),
            None => true,
        },
        r matches Ok((sig, steps)) ==> sig@.len() <= MAX_HSS_SIGNATURE_LENGTH && ({
            let key = PrivateKeyView::decode(private_key@)->0;
            let model = crate::hss::signing::signature::<H>(key, final(message_mut)@);
            (match aux_data {
                Some(a) => aux_faithful::<H>((*a)@, key),
                None => true,
            }) ==> sig@ == model.encode() && steps == hash_iterations::<H>(
                hss_public_key::<H>(key).key,
                model,
                final(message_mut)@,
            )
        }),
{
    let mut none: Vec<u8> = Vec::new();
    let outcome = match aux_data {
        Some(a) => sign_message_mut::<H>(message_mut, private_key, *a),
        None => {
            proof {
                lemma_no_aux::<H>(none@, private_key@);
            }
            sign_message_mut::<H>(message_mut, private_key, none.as_mut_slice())
        },
    };
    let (signature, next, steps) = match outcome {
        Ok(outcome) => outcome,
        Err(kind) => {
            return Err(kind);
        },
    };
    let stored = private_key_update_function(next.as_slice());
    match conclude_signing(signature, stored) {
        Ok(signature) => Ok((signature, steps)),
        Err(kind) => Err(kind),
    }
}

/// Generates a key pair for `parameters`, one level for each entry. The
/// master seed is `seed`, which has to have 32 bytes, or fresh from the
/// operating system where none is given.
///
/// The call fails where the parameter list is not valid, where a seed of
/// another length is given, and where the operating system gives no
/// randomness.
pub fn hss_keygen<H: Hasher>(
    parameters: &[HssParameter],
    seed: Option<&[u8]>,
    aux_data: Option<&mut &mut [u8]>,
) -> (r: Result<HssKeyPair, signature::Error>)
    ensures
        r is Ok ==> params_valid(parameters@),
        seed matches Some(s) ==> (r is Ok <==> params_valid(parameters@) && s@.len() == SEED_LEN),
        match aux_data {
            Some(a) => (*final(a))@.len() == (*a)@.len() && final(*final(a))@ == final(*a)@ && (r is Err
                ==> (*final(a))@ == (*a)@),
            None => true,
        },
        r matches Ok(pair) ==> ({
            let key = PrivateKeyView::decode(pair.private_key@);
            &&& key matches Some(key) && key.q == 0 && key.params == parameters@ && key.sst is None
                && pair.private_key@ == key.encode() && (seed matches Some(s) ==> key.seed == s@)
                && match aux_data {
                Some(a) => aux_kept::<H>((*a)@, (*final(a))@, pair.private_key@) && (aux_faithful::<H>(
                    (*a)@,
                    key,
                ) ==> pair.public_key@ == hss_public_key::<H>(key).encode()),
                None => pair.public_key@ == hss_public_key::<H>(key).encode(),
            }
        }),
{
    let seed = match seed {
        Some(seed) => {
            if seed.len() != SEED_LEN {
                return Err(collapse(ErrorKind::InvalidParameter));
            }
            to_array32(seed)
        },
        None => match try_random_seed() {
            Some(seed) => seed,
            None => {
                return Err(collapse(ErrorKind::InvalidParameter));
            },
        },
    };
    let mut none: Vec<u8> = Vec::new();
    let ghost key = PrivateKeyView { q: 0, params: parameters@, seed: seed@, sst: None };
    let outcome = match aux_data {
        Some(a) => generate_key_pair::<H>(parameters, &seed, *a),
        None => {
            proof {
                lemma_no_aux::<H>(none@, key.encode());
            }
            generate_key_pair::<H>(parameters, &seed, none.as_mut_slice())
        },
    };
    match outcome {
        Ok((public_key, private_key)) => {
            proof {
                lemma_decode_encode(key);
            }
            Ok(
                HssKeyPair::new(
                    VerifyingKey { bytes: public_key_from_slice(public_key.as_slice()) },
                    SigningKey { bytes: private_key_from_slice(private_key.as_slice()) },
                ),
            )
        },
        Err(kind) => Err(collapse(kind)),
    }
}

/// The number of signatures that the key stored in `private_key` can still
/// make. Fails where the key does not parse. The auxiliary data is not
/// touched.
pub fn hss_lifetime<H: Hasher>(private_key: &[u8], aux_data: Option<&mut &mut [u8]>) -> (r: Result<
    u64,
    signature::Error,
>)
    ensures
        r is Ok <==> PrivateKeyView::decode(private_key@) is Some,
        r matches Ok(lifetime) ==> lifetime == PrivateKeyView::decode(private_key@)->0.remaining(),
        aux_data matches Some(a) ==> (*final(a))@ == (*a)@ && final(*final(a))@ == final(*a)@,
{
    match remaining_lifetime(private_key) {
        Ok(lifetime) => Ok(lifetime),
        Err(kind) => Err(collapse(kind)),
    }
}

} // verus!
