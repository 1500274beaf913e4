//! LMS private and public keys.

use crate::error::ErrorKind;
use crate::hasher::Hasher;
use crate::lm_ots::parameter::{LmotsAlgorithm, LmotsParameter};
use crate::lms::helper::{cache_faithful, get_tree_element};
use crate::lms::parameter::LmsAlgorithm;
use crate::lms::tree::{root, Tree};
use crate::sst::parameters::SstExtension;
use crate::util::helper::{to_array16, to_array32};
use crate::util::ustr::{be32, from_be32, lemma_be32_roundtrip, str32u, u32str};
use vstd::prelude::*;

verus! {

/// An LMS private key: what determines the tree, and the next leaf to use.
#[derive(Clone, Copy)]
pub struct LmsPrivateKey {
    pub seed: [u8; 32],
    pub lms_tree_identifier: [u8; 16],
    pub used_leafs_index: u32,
    pub lmots_parameter: LmotsAlgorithm,
    pub lms_parameter: LmsAlgorithm,
    pub sst_option: Option<SstExtension>,
}

impl LmsPrivateKey {
    /// The tree of this key.
    pub open spec fn tree(&self) -> Tree {
        Tree {
            ots: self.lmots_parameter,
            lms: self.lms_parameter,
            seed: self.seed@,
            id: self.lms_tree_identifier@,
        }
    }

    /// The single-subtree extension, if there is one, fits the tree.
    pub open spec fn wf(&self) -> bool {
        self.sst_option matches Some(ext) ==> ext.fits(self.lms_parameter.height())
    }

    /// The leaf after the last that this key may use: the end of the tree,
    /// or of the signing entity's range.
    pub open spec fn end_leaf(&self) -> nat {
        match self.sst_option {
            Some(ext) => ext.end_leaf(self.lms_parameter.height()),
            None => self.lms_parameter.leaves(),
        }
    }

    /// A private key for the tree with seed `seed` and identifier
    /// `lms_tree_identifier`, whose next leaf is `used_leafs_index`.
    pub fn new(
        seed: [u8; 32],
        lms_tree_identifier: [u8; 16],
        used_leafs_index: u32,
        lmots_parameter: LmotsAlgorithm,
        lms_parameter: LmsAlgorithm,
        sst_option: Option<SstExtension>,
    ) -> (key: LmsPrivateKey)
        ensures
            key.seed == seed,
            key.lms_tree_identifier == lms_tree_identifier,
            key.used_leafs_index == used_leafs_index,
            key.lmots_parameter == lmots_parameter,
            key.lms_parameter == lms_parameter,
            key.sst_option == sst_option,
    {
        LmsPrivateKey {
            seed,
            lms_tree_identifier,
            used_leafs_index,
            lmots_parameter,
            lms_parameter,
            sst_option,
        }
    }

    /// The leaf after the last that this key may use.
    pub fn get_end_leaf(&self) -> (end: u32)
        requires
            self.wf(),
        ensures
            end == self.end_leaf(),
            end <= self.lms_parameter.leaves(),
    {
        match self.sst_option {
            Some(ext) => ext.leaf_range(self.lms_parameter).1,
            None => self.lms_parameter.number_of_lm_ots_keys(),
        }
    }

    /// The public key of the tree. `nodes` is a cache of the nodes near the
    /// root; the result is the root if the cache is faithful.
    pub fn generate_public_key<H: Hasher>(&self, nodes: &[u8]) -> (public_key: LmsPublicKey)
        ensures
            public_key.lmots_parameter == self.lmots_parameter,
            public_key.lms_parameter == self.lms_parameter,
            public_key.lms_tree_identifier == self.lms_tree_identifier,
            cache_faithful::<H>(self.tree(), nodes@) ==> public_key.key@ == root::<H>(self.tree()),
    {
        proof {
            vstd::arithmetic::power2::lemma2_to64();
        }
        let h = self.lms_parameter.get_tree_height();
        let key = get_tree_element::<H>(self, h, 1, nodes);
        LmsPublicKey {
            key,
            lms_tree_identifier: self.lms_tree_identifier,
            lmots_parameter: self.lmots_parameter,
            lms_parameter: self.lms_parameter,
        }
    }
}

/// An LMS public key: the parameter sets, the tree identifier `I` and the
/// root `T[1]`.
#[derive(Clone, Copy)]
pub struct LmsPublicKey {
    pub key: [u8; 32],
    pub lms_tree_identifier: [u8; 16],
    pub lmots_parameter: LmotsAlgorithm,
    pub lms_parameter: LmsAlgorithm,
}

/// The mathematical value of an LMS public key.
pub struct LmsPublicKeyView {
    pub ots: LmotsAlgorithm,
    pub lms: LmsAlgorithm,
    pub id: Seq<u8>,
    pub root: Seq<u8>,
}

impl LmsPublicKeyView {
    /// The identifier has 16 bytes and the root 32.
    pub open spec fn wf(self) -> bool {
        &&& self.id.len() == 16
        &&& self.root.len() == 32
    }
}

impl View for LmsPublicKey {
    type V = LmsPublicKeyView;

    open spec fn view(&self) -> LmsPublicKeyView {
        LmsPublicKeyView {
            ots: self.lmots_parameter,
            lms: self.lms_parameter,
            id: self.lms_tree_identifier@,
            root: self.key@,
        }
    }
}

/// The public key of the tree `t`.
pub open spec fn public_key_of<H: Hasher>(t: Tree) -> LmsPublicKeyView {
    LmsPublicKeyView { ots: t.ots, lms: t.lms, id: t.id, root: root::<H>(t) }
}

/// The serialized form: `u32(lms type) ‖ u32(lmots type) ‖ I ‖ T[1]`.
pub open spec fn encode_public_key(key: LmsPublicKeyView) -> Seq<u8> {
    be32(key.lms.type_code()) + be32(key.ots.type_code()) + key.id + key.root
}

/// The public key that `bytes` is the serialized form of, if there is one:
/// 56 bytes with known type codes.
pub open spec fn decode_public_key(bytes: Seq<u8>) -> Option<LmsPublicKeyView> {
    if bytes.len() != 56 {
        None
    } else {
        match (
            LmsAlgorithm::of_type(from_be32(bytes)),
            LmotsAlgorithm::of_type(from_be32(bytes.subrange(4, 8))),
        ) {
            (Some(lms), Some(ots)) => Some(
                LmsPublicKeyView {
                    ots,
                    lms,
                    id: bytes.subrange(8, 24),
                    root: bytes.subrange(24, 56),
                },
            ),
            _ => None,
        }
    }
}

/// Decoding the serialized form of a well-formed public key gives the key
/// back.
pub proof fn lemma_decode_encode_public_key(key: LmsPublicKeyView)
    requires
        key.wf(),
    ensures
        encode_public_key(key).len() == 56,
        decode_public_key(encode_public_key(key)) == Some(key),
{
    let bytes = encode_public_key(key);
    key.lms.lemma_of_type();
    key.ots.lemma_of_type();
    lemma_be32_roundtrip(key.lms.type_code());
    lemma_be32_roundtrip(key.ots.type_code());
    assert(from_be32(bytes) == from_be32(be32(key.lms.type_code())));
    assert(bytes.subrange(4, 8) =~= be32(key.ots.type_code()));
    assert(bytes.subrange(8, 24) =~= key.id);
    assert(bytes.subrange(24, 56) =~= key.root);
}

/// Whatever decodes is well-formed, and serializing it gives the bytes back.
pub proof fn lemma_encode_decode_public_key(bytes: Seq<u8>)
    requires
        decode_public_key(bytes) is Some,
    ensures
        decode_public_key(bytes)->0.wf(),
        encode_public_key(decode_public_key(bytes)->0) == bytes,
{
    let key = decode_public_key(bytes)->0;
    crate::util::ustr::lemma_from_be32_roundtrip(bytes.subrange(0, 4));
    crate::util::ustr::lemma_from_be32_roundtrip(bytes.subrange(4, 8));
    assert(from_be32(bytes.subrange(0, 4)) == from_be32(bytes));
    key.lms.lemma_of_type();
    key.ots.lemma_of_type();
    assert(encode_public_key(key) =~= bytes);
}

impl LmsPublicKey {
    /// The serialized form.
    pub fn to_binary_representation(&self) -> (bytes: Vec<u8>)
        ensures
            bytes@ == encode_public_key(self@),
            bytes@.len() == 56,
    {
        let mut bytes: Vec<u8> = Vec::new();
        bytes.extend_from_slice(u32str(self.lms_parameter.get_type()).as_slice());
        bytes.extend_from_slice(u32str(self.lmots_parameter.get_type()).as_slice());
        bytes.extend_from_slice(self.lms_tree_identifier.as_slice());
        bytes.extend_from_slice(self.key.as_slice());
        bytes
    }

    /// Reads a serialized public key.
    pub fn from_binary_representation(data: &[u8]) -> (r: Result<LmsPublicKey, ErrorKind>)
        ensures
            match decode_public_key(data@) {
                Some(key) => r matches Ok(k) && k@ == key,
                None => r == Err::<LmsPublicKey, ErrorKind>(ErrorKind::Parse),
            },
    {
        if data.len() != 56 {
            return Err(ErrorKind::Parse);
        }
        let lms = LmsAlgorithm::from_type(str32u(data));
        let ots = LmotsAlgorithm::from_type(str32u(&data[4..8]));
        match (lms, ots) {
            (Some(lms_parameter), Some(lmots_parameter)) => Ok(
                LmsPublicKey {
                    key: to_array32(&data[24..56]),
                    lms_tree_identifier: to_array16(&data[8..24]),
                    lmots_parameter,
                    lms_parameter,
                },
            ),
            _ => Err(ErrorKind::Parse),
        }
    }
}

} // verus!
