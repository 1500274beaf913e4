//! LMS signing, and the serialized form of an LMS signature.

use crate::error::ErrorKind;
use crate::hasher::Hasher;
use crate::lm_ots::definitions::randomizer;
use crate::lm_ots::parameter::{LmotsAlgorithm, LmotsParameter};
use crate::lm_ots::signing::{derive_randomizer, slice_to_vec, LmotsSignature, LmotsSignatureView};
use crate::lms::definitions::LmsPrivateKey;
use crate::lms::helper::{cache_faithful, get_tree_element};
use crate::lms::parameter::LmsAlgorithm;
use crate::lms::tree::{
    ancestor, auth_path, lemma_ancestor_is_node, lemma_path_len, path_upto, sibling, Tree,
};
use crate::util::ustr::{be32, from_be32, lemma_be32_roundtrip, str32u, u32str};
use vstd::prelude::*;

verus! {

/// An LMS signature: the number `q` of the leaf, the LM-OTS signature of
/// that leaf, the tree's parameter set and the authentication path, `h`
/// nodes of 32 bytes.
pub struct LmsSignature {
    pub lms_leaf_identifier: u32,
    pub lmots_signature: LmotsSignature,
    pub lms_parameter: LmsAlgorithm,
    pub authentication_path: Vec<u8>,
}

/// The mathematical value of an LMS signature.
pub struct LmsSignatureView {
    pub q: u32,
    pub ots: LmotsSignatureView,
    pub lms: LmsAlgorithm,
    pub path: Seq<u8>,
}

impl LmsSignatureView {
    /// The LM-OTS signature is well-formed and the path has `h` nodes.
    pub open spec fn wf(self) -> bool {
        &&& self.ots.wf()
        &&& self.path.len() == 32 * self.lms.height()
    }

    /// The length of the serialized form.
    pub open spec fn length(self) -> int {
        8 + self.ots.alg.signature_length() + 32 * self.lms.height()
    }
}

impl View for LmsSignature {
    type V = LmsSignatureView;

    open spec fn view(&self) -> LmsSignatureView {
        LmsSignatureView {
            q: self.lms_leaf_identifier,
            ots: self.lmots_signature@,
            lms: self.lms_parameter,
            path: self.authentication_path@,
        }
    }
}

/// The signature of leaf `q` of tree `t` over `message`, with randomizer
/// `c`.
pub open spec fn signature_with<H: Hasher>(t: Tree, q: u32, c: Seq<u8>, message: Seq<u8>) -> LmsSignatureView {
    LmsSignatureView {
        q,
        ots: crate::lm_ots::signing::signature_with::<H>(t.ots, t.seed, t.id, q, c, message),
        lms: t.lms,
        path: auth_path::<H>(t, q as nat),
    }
}

/// The signature of leaf `q` of tree `t` over `message`, with the
/// randomizer derived from the seed.
pub open spec fn signature<H: Hasher>(t: Tree, q: u32, message: Seq<u8>) -> LmsSignatureView {
    signature_with::<H>(t, q, randomizer::<H>(t.seed, t.id, q), message)
}

/// The serialized form: `u32(q) ‖ lmots signature ‖ u32(lms type) ‖ path`.
pub open spec fn encode(sig: LmsSignatureView) -> Seq<u8> {
    be32(sig.q) + crate::lm_ots::signing::encode(sig.ots) + be32(sig.lms.type_code()) + sig.path
}

/// The signature whose serialized form `bytes` starts with, and the length
/// of that form, if there is one. The two type codes say how long it is.
#[verifier::opaque]
pub open spec fn decode_prefix(bytes: Seq<u8>) -> Option<(LmsSignatureView, int)> {
    if bytes.len() < 8 {
        None
    } else {
        match LmotsAlgorithm::of_type(from_be32(bytes.subrange(4, 8))) {
            None => None,
            Some(ots_alg) => {
                let n = ots_alg.signature_length();
                if bytes.len() < n + 8 {
                    None
                } else {
                    match LmsAlgorithm::of_type(from_be32(bytes.subrange(4 + n, 8 + n))) {
                        None => None,
                        Some(lms) => {
                            let total = 8 + n + 32 * lms.height();
                            if bytes.len() < total {
                                None
                            } else {
                                match crate::lm_ots::signing::decode(bytes.subrange(4, 4 + n)) {
                                    None => None,
                                    Some(ots) => Some(
                                        (
                                            LmsSignatureView {
                                                q: from_be32(bytes),
                                                ots,
                                                lms,
                                                path: bytes.subrange(8 + n, total),
                                            },
                                            total,
                                        ),
                                    ),
                                }
                            }
                        },
                    }
                }
            },
        }
    }
}

/// The signature that `bytes` is the serialized form of, if there is one.
pub open spec fn decode(bytes: Seq<u8>) -> Option<LmsSignatureView> {
    match decode_prefix(bytes) {
        Some((sig, n)) => if n == bytes.len() {
            Some(sig)
        } else {
            None
        },
        None => None,
    }
}

/// Decoding the serialized form of a well-formed signature, whatever
/// follows it, gives the signature back.
pub proof fn lemma_decode_encode(sig: LmsSignatureView, rest: Seq<u8>)
    requires
        sig.wf(),
    ensures
        encode(sig).len() == sig.length(),
        decode_prefix(encode(sig) + rest) == Some((sig, sig.length())),
        decode(encode(sig)) == Some(sig),
    decreases rest.len(),
{
    reveal(decode_prefix);
    let ots_bytes = crate::lm_ots::signing::encode(sig.ots);
    let n = sig.ots.alg.signature_length();
    let bytes = encode(sig) + rest;
    crate::lm_ots::signing::lemma_decode_encode(sig.ots);
    sig.ots.alg.lemma_of_type();
    sig.lms.lemma_of_type();
    lemma_be32_roundtrip(sig.q);
    lemma_be32_roundtrip(sig.lms.type_code());
    lemma_be32_roundtrip(sig.ots.alg.type_code());
    assert(bytes.subrange(4, 4 + n) =~= ots_bytes);
    assert(bytes.subrange(4, 8) =~= be32(sig.ots.alg.type_code())) by {
        assert(ots_bytes.subrange(0, 4) =~= be32(sig.ots.alg.type_code()));
        assert(bytes.subrange(4, 8) =~= ots_bytes.subrange(0, 4));
    }
    assert(bytes.subrange(4 + n, 8 + n) =~= be32(sig.lms.type_code()));
    assert(bytes.subrange(8 + n, 8 + n + 32 * sig.lms.height()) =~= sig.path);
    assert(from_be32(bytes) == from_be32(be32(sig.q)));
    assert(encode(sig) + Seq::<u8>::empty() =~= encode(sig));
    if rest.len() == 0 {
        assert(bytes =~= encode(sig));
    } else {
        lemma_decode_encode(sig, Seq::<u8>::empty());
    }
}

/// Whatever decodes is well-formed, and serializing it gives the decoded
/// bytes back.
pub proof fn lemma_encode_decode(bytes: Seq<u8>)
    requires
        decode_prefix(bytes) is Some,
    ensures
        decode_prefix(bytes) matches Some((sig, n)) && sig.wf() && n == sig.length() && 8 <= n
            <= bytes.len() && encode(sig) == bytes.subrange(0, n),
{
    reveal(decode_prefix);
    let (sig, total) = decode_prefix(bytes)->0;
    let n = sig.ots.alg.signature_length();
    crate::lm_ots::signing::lemma_encode_decode(bytes.subrange(4, 4 + n));
    crate::util::ustr::lemma_from_be32_roundtrip(bytes.subrange(0, 4));
    crate::util::ustr::lemma_from_be32_roundtrip(bytes.subrange(4 + n, 8 + n));
    assert(from_be32(bytes.subrange(0, 4)) == from_be32(bytes));
    sig.ots.alg.lemma_of_type();
    sig.lms.lemma_of_type();
    assert(encode(sig) =~= bytes.subrange(0, total));
}

/// The signature of an honest signer is well-formed.
pub proof fn lemma_signature_wf<H: Hasher>(t: Tree, q: u32, c: Seq<u8>, message: Seq<u8>)
    requires
        c.len() == 32,
    ensures
        signature_with::<H>(t, q, c, message).wf(),
{
    crate::lm_ots::signing::lemma_signature_wf::<H>(t.ots, t.seed, t.id, q, c, message);
    lemma_path_len::<H>(t, q as nat, t.h());
}

/// The authentication path of leaf `q`: for every level, the sibling of the
/// leaf's ancestor. `nodes` is a cache of the nodes near the root.
pub fn authentication_path<H: Hasher>(key: &LmsPrivateKey, q: u32, nodes: &[u8]) -> (path: Vec<u8>)
    requires
        q < key.lms_parameter.leaves(),
    ensures
        path@.len() == 32 * key.lms_parameter.height(),
        cache_faithful::<H>(key.tree(), nodes@) ==> path@ == auth_path::<H>(key.tree(), q as nat),
{
    let h = key.lms_parameter.get_tree_height();
    let leaves = key.lms_parameter.number_of_lm_ots_keys();
    let mut r: u32 = leaves + q;
    let mut path: Vec<u8> = Vec::new();
    let mut k: u8 = 0;
    while k < h
        invariant
            k <= h,
            h == key.lms_parameter.height(),
            leaves == key.lms_parameter.leaves(),
            q < leaves,
            r == ancestor((leaves + q) as nat, k as nat),
            path@.len() == 32 * k,
            cache_faithful::<H>(key.tree(), nodes@) ==> path@ == path_upto::<H>(
                key.tree(),
                q as nat,
                k as nat,
            ),
        decreases h - k,
    {
        proof {
            lemma_ancestor_is_node(h as nat, q as nat, k as nat);
            key.lms_parameter.lemma_of_type();
            crate::util::helper::lemma_pow2_monotonic((h - k) as nat, h as nat);
        }
        let other = if r % 2 == 1 {
            r - 1
        } else {
            r + 1
        };
        let value = get_tree_element::<H>(key, k, other, nodes);
        path.extend_from_slice(value.as_slice());
        r = r / 2;
        k = k + 1;
    }
    path
}

impl LmsSignature {
    /// The LM-OTS signature is well-formed and the path has `h` nodes.
    pub open spec fn wf(&self) -> bool {
        self@.wf()
    }

    /// Signs `message` with the next leaf of `key` and the randomizer `c`,
    /// and moves the key on to the following leaf. Fails, and leaves the key
    /// as it is, when the key has no leaf left. `nodes` is a cache of the
    /// nodes near the root of the tree.
    pub fn sign_with_randomizer<H: Hasher>(
        key: &mut LmsPrivateKey,
        c: &[u8; 32],
        message: &[u8],
        nodes: &[u8],
    ) -> (r: Result<LmsSignature, ErrorKind>)
        requires
            old(key).wf(),
        ensures
            old(key).used_leafs_index >= old(key).end_leaf() ==> r == Err::<LmsSignature, ErrorKind>(
                ErrorKind::Exhausted,
            ) && *final(key) == *old(key),
            old(key).used_leafs_index < old(key).end_leaf() ==> r is Ok && *final(key) == (LmsPrivateKey {
                used_leafs_index: (old(key).used_leafs_index + 1) as u32,
                ..*old(key)
            }),
            r matches Ok(sig) ==> sig.wf() && sig@.q == old(key).used_leafs_index && sig@.lms == old(
                key,
            ).lms_parameter && sig@.ots.alg == old(key).lmots_parameter,
            r matches Ok(sig) ==> cache_faithful::<H>(old(key).tree(), nodes@) ==> sig@
                == signature_with::<H>(old(key).tree(), old(key).used_leafs_index, c@, message@),
    {
        let q = key.used_leafs_index;
        if q >= key.get_end_leaf() {
            return Err(ErrorKind::Exhausted);
        }
        let lmots_signature = LmotsSignature::sign_with_randomizer::<H>(
            key.lmots_parameter,
            &key.seed,
            &key.lms_tree_identifier,
            q,
            c,
            message,
        );
        let authentication_path = authentication_path::<H>(key, q, nodes);
        let signature = LmsSignature {
            lms_leaf_identifier: q,
            lmots_signature,
            lms_parameter: key.lms_parameter,
            authentication_path,
        };
        key.used_leafs_index = q + 1;
        Ok(signature)
    }

    /// Signs `message` with the next leaf of `key` and the randomizer
    /// derived from the seed, and moves the key on to the following leaf.
    pub fn sign<H: Hasher>(key: &mut LmsPrivateKey, message: &[u8], nodes: &[u8]) -> (r: Result<
        LmsSignature,
        ErrorKind,
    >)
        requires
            old(key).wf(),
        ensures
            old(key).used_leafs_index >= old(key).end_leaf() ==> r == Err::<LmsSignature, ErrorKind>(
                ErrorKind::Exhausted,
            ) && *final(key) == *old(key),
            old(key).used_leafs_index < old(key).end_leaf() ==> r is Ok && *final(key) == (LmsPrivateKey {
                used_leafs_index: (old(key).used_leafs_index + 1) as u32,
                ..*old(key)
            }),
            r matches Ok(sig) ==> sig.wf() && sig@.q == old(key).used_leafs_index && sig@.lms == old(
                key,
            ).lms_parameter && sig@.ots.alg == old(key).lmots_parameter,
            r matches Ok(sig) ==> cache_faithful::<H>(old(key).tree(), nodes@) ==> sig@
                == signature::<H>(old(key).tree(), old(key).used_leafs_index, message@),
    {
        let c = derive_randomizer::<H>(&key.seed, &key.lms_tree_identifier, key.used_leafs_index);
        Self::sign_with_randomizer::<H>(key, &c, message, nodes)
    }

    /// A copy of this signature.
    pub fn duplicate(&self) -> (copy: LmsSignature)
        ensures
            copy@ == self@,
    {
        LmsSignature {
            lms_leaf_identifier: self.lms_leaf_identifier,
            lmots_signature: self.lmots_signature.duplicate(),
            lms_parameter: self.lms_parameter,
            authentication_path: slice_to_vec(self.authentication_path.as_slice()),
        }
    }

    /// The serialized form.
    pub fn to_binary_representation(&self) -> (bytes: Vec<u8>)
        ensures
            bytes@ == encode(self@),
    {
        let mut bytes: Vec<u8> = Vec::new();
        bytes.extend_from_slice(u32str(self.lms_leaf_identifier).as_slice());
        let ots = self.lmots_signature.to_binary_representation();
        bytes.extend_from_slice(ots.as_slice());
        bytes.extend_from_slice(u32str(self.lms_parameter.get_type()).as_slice());
        bytes.extend_from_slice(self.authentication_path.as_slice());
        bytes
    }

    /// Reads the serialized signature that `data` starts with, and says how
    /// many bytes it takes.
    pub fn parse_prefix(data: &[u8]) -> (r: Result<(LmsSignature, usize), ErrorKind>)
        ensures
            match decode_prefix(data@) {
                Some((sig, n)) => r matches Ok((s, len)) && s@ == sig && len == n && s.wf(),
                None => r == Err::<(LmsSignature, usize), ErrorKind>(ErrorKind::Parse),
            },
    {
        reveal(decode_prefix);
        if data.len() < 8 {
            return Err(ErrorKind::Parse);
        }
        let ots_alg = match LmotsAlgorithm::from_type(str32u(&data[4..8])) {
            Some(alg) => alg,
            None => {
                return Err(ErrorKind::Parse);
            },
        };
        let n = ots_alg.get_signature_length();
        if data.len() < n + 8 {
            return Err(ErrorKind::Parse);
        }
        let lms_parameter = match LmsAlgorithm::from_type(str32u(&data[4 + n..8 + n])) {
            Some(alg) => alg,
            None => {
                return Err(ErrorKind::Parse);
            },
        };
        let total = 8 + n + 32 * (lms_parameter.get_tree_height() as usize);
        if data.len() < total {
            return Err(ErrorKind::Parse);
        }
        let lmots_signature = match LmotsSignature::from_binary_representation(&data[4..4 + n]) {
            Ok(sig) => sig,
            Err(e) => {
                return Err(ErrorKind::Parse);
            },
        };
        let signature = LmsSignature {
            lms_leaf_identifier: str32u(data),
            lmots_signature,
            lms_parameter,
            authentication_path: slice_to_vec(&data[8 + n..total]),
        };
        Ok((signature, total))
    }

    /// Reads a serialized signature.
    pub fn from_binary_representation(data: &[u8]) -> (r: Result<LmsSignature, ErrorKind>)
        ensures
            match decode(data@) {
                Some(sig) => r matches Ok(s) && s@ == sig && s.wf(),
                None => r == Err::<LmsSignature, ErrorKind>(ErrorKind::Parse),
            },
    {
        match Self::parse_prefix(data) {
            Ok((signature, len)) => if len == data.len() {
                Ok(signature)
            } else {
                Err(ErrorKind::Parse)
            },
            Err(e) => Err(ErrorKind::Parse),
        }
    }
}

} // verus!
