//! The mathematical model of an HSS key, and its expanded form: one LMS
//! tree for each level, each tree signing the public key of the tree below
//! it.
//!
//! Every tree is a function of the stored key: the top-level tree of the
//! master seed alone, and the tree of a lower level of the tree above it
//! and of the leaf of that tree which signs it.

use crate::constants::{D_CHILD_IDENTIFIER, D_CHILD_SEED};
use crate::error::ErrorKind;
use crate::hasher::{digest, hash, Hasher};
use crate::hss::parameter::{
    height_from, lemma_height_from, lemma_level_index, lemma_top_index, level_index,
    params_valid, HssParameter,
};
use crate::hss::reference_impl_private_key::{
    root_identifier, root_seed, PrivateKeyView, ReferenceImplPrivateKey,
    SeedAndLmsTreeIdentifier,
};
use crate::lms::definitions::{
    decode_public_key, encode_public_key, lemma_decode_encode_public_key,
    lemma_encode_decode_public_key, public_key_of, LmsPrivateKey, LmsPublicKey, LmsPublicKeyView,
};
use crate::lms::helper::{cache_faithful, lemma_empty_cache_faithful};
use crate::lms::signing::{LmsSignature, LmsSignatureView};
use crate::lms::tree::Tree;
use crate::util::helper::{lemma_pow2_monotonic, pow2_u64, to_array16};
use crate::util::ustr::{be16, be32, from_be32, lemma_be32_roundtrip, str32u, u16str, u32str};
use vstd::arithmetic::power2::{lemma_pow2_adds, pow2};
use vstd::prelude::*;

verus! {

/// The seed of the tree that leaf `q` of the tree with seed `seed` and
/// identifier `id` signs: the hash of
/// `seed ‖ I ‖ u32(q) ‖ D_CHILD_SEED`.
pub open spec fn child_seed<H: Hasher>(seed: Seq<u8>, id: Seq<u8>, q: u32) -> Seq<u8> {
    hash::<H>(seed + id + be32(q) + be16(D_CHILD_SEED))
}

/// The identifier of the tree that leaf `q` of the tree with seed `seed`
/// and identifier `id` signs: the first 16 bytes of the hash of
/// `seed ‖ I ‖ u32(q) ‖ D_CHILD_IDENTIFIER`.
pub open spec fn child_identifier<H: Hasher>(seed: Seq<u8>, id: Seq<u8>, q: u32) -> Seq<u8> {
    hash::<H>(seed + id + be32(q) + be16(D_CHILD_IDENTIFIER)).subrange(0, 16)
}

/// The tree of level `i` that is in use at the key's counter.
pub open spec fn level_tree<H: Hasher>(key: PrivateKeyView, i: nat) -> Tree
    decreases i,
{
    if i == 0 {
        Tree {
            ots: key.params[0].ots(),
            lms: key.params[0].lms(),
            seed: root_seed::<H>(key.seed),
            id: root_identifier::<H>(key.seed),
        }
    } else {
        let parent = level_tree::<H>(key, (i - 1) as nat);
        let q = level_index(key.params, key.q, i - 1);
        Tree {
            ots: key.params[i as int].ots(),
            lms: key.params[i as int].lms(),
            seed: child_seed::<H>(parent.seed, parent.id, q),
            id: child_identifier::<H>(parent.seed, parent.id, q),
        }
    }
}

/// The public key of the tree of level `i`.
pub open spec fn level_public_key<H: Hasher>(key: PrivateKeyView, i: nat) -> LmsPublicKeyView {
    public_key_of::<H>(level_tree::<H>(key, i))
}

/// The signature by which the tree of level `i` vouches for the public key
/// of the tree of level `i + 1`.
pub open spec fn signed_public_key<H: Hasher>(key: PrivateKeyView, i: nat) -> LmsSignatureView {
    crate::lms::signing::signature::<H>(
        level_tree::<H>(key, i),
        level_index(key.params, key.q, i as int),
        encode_public_key(level_public_key::<H>(key, i + 1)),
    )
}

/// The top-level tree does not depend on the counter.
pub proof fn lemma_top_tree<H: Hasher>(key: PrivateKeyView, other: PrivateKeyView)
    requires
        key.params == other.params,
        key.seed == other.seed,
    ensures
        level_tree::<H>(key, 0) == level_tree::<H>(other, 0),
{
}

/// The seed of a level's tree has 32 bytes, its identifier 16, and its
/// parameter sets are those of the level.
pub proof fn lemma_level_tree<H: Hasher>(key: PrivateKeyView, i: nat)
    requires
        i < key.params.len(),
    ensures
        level_tree::<H>(key, i).seed.len() == 32,
        level_tree::<H>(key, i).id.len() == 16,
        level_tree::<H>(key, i).ots == key.params[i as int].ots(),
        level_tree::<H>(key, i).lms == key.params[i as int].lms(),
        level_public_key::<H>(key, i).wf(),
        encode_public_key(level_public_key::<H>(key, i)).len() == 56,
{
    if i == 0 {
        H::lemma_digest_len(be16(crate::constants::D_TOP_SEED) + key.seed);
        H::lemma_digest_len(be16(crate::constants::D_TOP_IDENTIFIER) + key.seed);
    } else {
        let parent = level_tree::<H>(key, (i - 1) as nat);
        let q = level_index(key.params, key.q, i - 1);
        H::lemma_digest_len(parent.seed + parent.id + be32(q) + be16(D_CHILD_SEED));
        H::lemma_digest_len(parent.seed + parent.id + be32(q) + be16(D_CHILD_IDENTIFIER));
    }
    let t = level_tree::<H>(key, i);
    crate::lms::tree::lemma_node_len::<H>(t, t.h(), 1);
    lemma_decode_encode_public_key(level_public_key::<H>(key, i));
}

/// The leaf of the top-level tree that a key uses lies in the range of the
/// key's signing entity as long as the key is not used up.
pub proof fn lemma_entity_leaf_range(key: PrivateKeyView)
    requires
        key.wf(),
        key.q < key.end_count(),
    ensures
        key.sst matches Some(ext) ==> ext.first_leaf(key.params[0].lms().height()) <= level_index(
            key.params,
            key.q,
            0,
        ) < ext.end_leaf(key.params[0].lms().height()),
        level_index(key.params, key.q, 0) < key.params[0].lms().leaves(),
{
    key.lemma_counts();
    lemma_top_index(key.params, key.q);
    lemma_level_index(key.params, key.q, 0);
    lemma_height_from(key.params, 0);
    match key.sst {
        Some(ext) => {
            let h = key.params[0].lms().height();
            let d = ext.top_div_height as nat;
            let below = height_from(key.params, 1);
            lemma_pow2_adds((h - d) as nat, below);
            lemma_pow2_monotonic(0, below);
            let per = pow2((h - d) as nat) as int;
            let b = pow2(below) as int;
            let e = ext.signing_entity_idx as int;
            let x = key.q as int;
            assert(key.share() == per * b);
            assert(e * per <= x / b < (e + 1) * per) by (nonlinear_arith)
                requires
                    e * (per * b) <= x < (e + 1) * (per * b),
                    b > 0,
                    per >= 0,
                    e >= 0,
            ;
        },
        None => {},
    }
}

/// An HSS public key: the number of levels and the public key of the
/// top-level tree.
#[derive(Clone, Copy)]
pub struct HssPublicKey {
    pub public_key: LmsPublicKey,
    pub level: u32,
}

/// The mathematical value of an HSS public key.
pub struct HssPublicKeyView {
    pub levels: u32,
    pub key: LmsPublicKeyView,
}

impl View for HssPublicKey {
    type V = HssPublicKeyView;

    open spec fn view(&self) -> HssPublicKeyView {
        HssPublicKeyView { levels: self.level, key: self.public_key@ }
    }
}

impl HssPublicKeyView {
    /// There are one to eight levels and the LMS key is well-formed.
    pub open spec fn wf(self) -> bool {
        &&& 1 <= self.levels <= 8
        &&& self.key.wf()
    }

    /// The serialized form: `u32(L) ‖ lms public key`.
    pub open spec fn encode(self) -> Seq<u8> {
        be32(self.levels) + encode_public_key(self.key)
    }

    /// The public key that `bytes` is the serialized form of, if there is
    /// one: 60 bytes, one to eight levels, a well-formed LMS key.
    pub open spec fn decode(bytes: Seq<u8>) -> Option<HssPublicKeyView> {
        if bytes.len() != 60 {
            None
        } else {
            let levels = from_be32(bytes);
            match decode_public_key(bytes.subrange(4, 60)) {
                Some(key) => if 1 <= levels <= 8 {
                    Some(HssPublicKeyView { levels, key })
                } else {
                    None
                },
                None => None,
            }
        }
    }

    /// Decoding the serialized form of a well-formed public key gives the
    /// key back.
    pub proof fn lemma_decode_encode(self)
        requires
            self.wf(),
        ensures
            self.encode().len() == 60,
            Self::decode(self.encode()) == Some(self),
    {
        lemma_decode_encode_public_key(self.key);
        lemma_be32_roundtrip(self.levels);
        assert(self.encode().subrange(4, 60) =~= encode_public_key(self.key));
        assert(from_be32(self.encode()) == from_be32(be32(self.levels)));
    }

    /// Whatever decodes is well-formed, and serializing it gives the bytes
    /// back.
    pub proof fn lemma_encode_decode(bytes: Seq<u8>)
        requires
            Self::decode(bytes) is Some,
        ensures
            Self::decode(bytes)->0.wf(),
            Self::decode(bytes)->0.encode() == bytes,
    {
        lemma_encode_decode_public_key(bytes.subrange(4, 60));
        crate::util::ustr::lemma_from_be32_roundtrip(bytes.subrange(0, 4));
        assert(from_be32(bytes.subrange(0, 4)) == from_be32(bytes));
        assert(Self::decode(bytes)->0.encode() =~= bytes);
    }
}

/// The public key of the stored key `key`.
pub open spec fn hss_public_key<H: Hasher>(key: PrivateKeyView) -> HssPublicKeyView {
    HssPublicKeyView { levels: key.params.len() as u32, key: level_public_key::<H>(key, 0) }
}

impl HssPublicKey {
    /// The serialized form.
    pub fn to_binary_representation(&self) -> (bytes: Vec<u8>)
        ensures
            bytes@ == self@.encode(),
            bytes@.len() == 60,
    {
        let mut bytes: Vec<u8> = Vec::new();
        bytes.extend_from_slice(u32str(self.level).as_slice());
        let key = self.public_key.to_binary_representation();
        bytes.extend_from_slice(key.as_slice());
        bytes
    }

    /// Reads a serialized public key.
    pub fn from_binary_representation(data: &[u8]) -> (r: Result<HssPublicKey, ErrorKind>)
        ensures
            match HssPublicKeyView::decode(data@) {
                Some(key) => r matches Ok(k) && k@ == key,
                None => r == Err::<HssPublicKey, ErrorKind>(ErrorKind::Parse),
            },
    {
        if data.len() != 60 {
            return Err(ErrorKind::Parse);
        }
        let level = str32u(data);
        match LmsPublicKey::from_binary_representation(&data[4..60]) {
            Ok(public_key) => if 1 <= level && level <= 8 {
                Ok(HssPublicKey { public_key, level })
            } else {
                Err(ErrorKind::Parse)
            },
            Err(e) => Err(ErrorKind::Parse),
        }
    }
}

/// The seed and the identifier of the tree that leaf `q` of `parent` signs.
pub fn generate_child_seed_and_lms_tree_identifier<H: Hasher>(
    parent: &SeedAndLmsTreeIdentifier,
    q: u32,
) -> (child: SeedAndLmsTreeIdentifier)
    ensures
        child.seed@ == child_seed::<H>(parent.seed@, parent.lms_tree_identifier@, q),
        child.lms_tree_identifier@ == child_identifier::<H>(
            parent.seed@,
            parent.lms_tree_identifier@,
            q,
        ),
{
    let mut preimage: Vec<u8> = Vec::new();
    preimage.extend_from_slice(parent.seed.as_slice());
    preimage.extend_from_slice(parent.lms_tree_identifier.as_slice());
    preimage.extend_from_slice(u32str(q).as_slice());
    preimage.extend_from_slice(u16str(D_CHILD_SEED).as_slice());
    assert(preimage@ =~= parent.seed@ + parent.lms_tree_identifier@ + be32(q) + be16(D_CHILD_SEED));
    let seed = digest::<H>(preimage.as_slice());
    let mut preimage: Vec<u8> = Vec::new();
    preimage.extend_from_slice(parent.seed.as_slice());
    preimage.extend_from_slice(parent.lms_tree_identifier.as_slice());
    preimage.extend_from_slice(u32str(q).as_slice());
    preimage.extend_from_slice(u16str(D_CHILD_IDENTIFIER).as_slice());
    assert(preimage@ =~= parent.seed@ + parent.lms_tree_identifier@ + be32(q) + be16(
        D_CHILD_IDENTIFIER,
    ));
    let long = digest::<H>(preimage.as_slice());
    let lms_tree_identifier = to_array16(&long.as_slice()[0..16]);
    SeedAndLmsTreeIdentifier { seed, lms_tree_identifier }
}

/// The leaf that level `i` uses at counter `q`.
pub fn get_level_index(parameters: &Vec<HssParameter>, q: u64, i: usize) -> (index: u32)
    requires
        params_valid(parameters@),
        i < parameters@.len(),
    ensures
        index == level_index(parameters@, q, i as int),
        index < parameters@[i as int].lms().leaves(),
{
    let mut below: u32 = 0;
    let mut j: usize = parameters.len();
    while j > i + 1
        invariant
            i + 1 <= j <= parameters@.len() <= 8,
            below == height_from(parameters@, j as int),
            below <= 25 * (parameters@.len() - j),
        decreases j,
    {
        j = j - 1;
        proof {
            lemma_height_from(parameters@, j as int);
        }
        below = below + parameters[j].get_lms_parameter().get_tree_height() as u32;
    }
    proof {
        lemma_height_from(parameters@, (i + 1) as int);
        lemma_level_index(parameters@, q, i as int);
        parameters@[i as int].lms().lemma_of_type();
    }
    let divisor = pow2_u64(below);
    let leaves = parameters[i].get_lms_parameter().number_of_lm_ots_keys() as u64;
    ((q / divisor) % leaves) as u32
}

/// The expanded form of a private key: the LMS private key and public key
/// of every level, and for every level but the last the signature of that
/// level over the public key of the next.
pub struct HssPrivateKey {
    pub private_key: Vec<LmsPrivateKey>,
    pub public_key: Vec<LmsPublicKey>,
    pub signatures: Vec<LmsSignature>,
    /// The stored key that this was expanded from.
    pub origin: Ghost<PrivateKeyView>,
}

impl HssPrivateKey {
    /// There are one to eight private keys, as many public keys and one
    /// signature less, every signature is well-formed, and so is the last
    /// private key.
    #[verifier::opaque]
    pub open spec fn well_shaped(&self) -> bool {
        &&& 1 <= self.private_key@.len() <= 8
        &&& self.public_key@.len() == self.private_key@.len()
        &&& self.signatures@.len() == self.private_key@.len() - 1
        &&& forall|i: int| 0 <= i < self.signatures@.len() ==> (#[trigger] self.signatures@[i]).wf()
        &&& self.private_key@.last().wf()
    }

    /// Whether this has the shape of the expanded form of `key`: there are
    /// as many private and public keys as `key` has levels and one signature
    /// less, the parameter sets are those of the levels, every signature is
    /// well-formed, and the last private key is about to use the leaf of the
    /// key's counter.
    #[verifier::opaque]
    pub open spec fn shaped(&self, key: PrivateKeyView) -> bool {
        let levels = key.params.len() as int;
        &&& self.private_key@.len() == levels
        &&& self.public_key@.len() == levels
        &&& self.signatures@.len() == levels - 1
        &&& forall|i: int|
            0 <= i < self.signatures@.len() ==> (#[trigger] self.signatures@[i]).wf()
                && self.signatures@[i]@.lms == key.params[i].lms() && self.signatures@[i]@.ots.alg
                == key.params[i].ots()
        &&& forall|i: int|
            0 <= i < levels ==> (#[trigger] self.private_key@[i]).lmots_parameter
                == key.params[i].ots() && self.private_key@[i].lms_parameter == key.params[i].lms()
                && self.private_key@[i].wf()
        &&& self.private_key@[levels - 1].used_leafs_index == level_index(
            key.params,
            key.q,
            levels - 1,
        )
        &&& self.private_key@[levels - 1].sst_option == (if levels == 1 {
            key.sst
        } else {
            None
        })
    }

    /// Whether the trees of the private keys are those of the model of
    /// `key`.
    #[verifier::opaque]
    pub open spec fn rooted<H: Hasher>(&self, key: PrivateKeyView) -> bool {
        forall|i: int|
            0 <= i < key.params.len() ==> (#[trigger] self.private_key@[i]).tree() == level_tree::<H>(
                key,
                i as nat,
            )
    }

    /// Whether this is the expanded form of the stored key `key`: it has
    /// the shape, the trees are those of the model, and every tree but the
    /// last has signed the public key of the next with the leaf of the key's
    /// counter.
    #[verifier::opaque]
    pub open spec fn expands<H: Hasher>(&self, key: PrivateKeyView) -> bool {
        let levels = key.params.len() as int;
        &&& self.shaped(key)
        &&& self.rooted::<H>(key)
        &&& forall|i: int|
            0 <= i < levels ==> (#[trigger] self.public_key@[i])@ == level_public_key::<H>(
                key,
                i as nat,
            )
        &&& forall|i: int|
            0 <= i < levels - 1 ==> (#[trigger] self.signatures@[i])@ == signed_public_key::<H>(
                key,
                i as nat,
            )
    }

    /// The last level of what has the shape of the expanded form of a
    /// well-formed key that is not used up has its next leaf left.
    pub proof fn lemma_bottom_ready(&self)
        requires
            self.shaped(self.origin@),
            self.origin@.wf(),
            self.origin@.q < self.origin@.end_count(),
        ensures
            self.well_shaped(),
            self.private_key@.len() == self.origin@.params.len(),
            self.private_key@.last().used_leafs_index == level_index(
                self.origin@.params,
                self.origin@.q,
                self.origin@.params.len() - 1,
            ),
            self.private_key@.last().used_leafs_index < self.private_key@.last().end_leaf(),
    {
        reveal(HssPrivateKey::shaped);
        reveal(HssPrivateKey::well_shaped);
        let key = self.origin@;
        let last = key.params.len() - 1;
        lemma_level_index(key.params, key.q, last);
        lemma_entity_leaf_range(key);
    }

    /// The last level of the expanded form of a key is the last tree of the
    /// model.
    pub proof fn lemma_bottom_tree<H: Hasher>(&self)
        requires
            self.shaped(self.origin@),
            self.rooted::<H>(self.origin@),
            self.origin@.wf(),
        ensures
            self.private_key@.len() == self.origin@.params.len(),
            self.private_key@.last().tree() == level_tree::<H>(
                self.origin@,
                (self.origin@.params.len() - 1) as nat,
            ),
            self.private_key@.last().used_leafs_index == level_index(
                self.origin@.params,
                self.origin@.q,
                self.origin@.params.len() - 1,
            ),
    {
        reveal(HssPrivateKey::rooted);
        reveal(HssPrivateKey::shaped);
        let key = self.origin@;
        let last = key.params.len() - 1;
        assert(self.private_key@[last].tree() == level_tree::<H>(key, last as nat));
    }

    /// Expands a stored key: derives the tree of every level from the one
    /// above it, computes its public key and has the level above sign it.
    /// `nodes` is a cache of the nodes near the root of the top-level tree.
    /// Fails when the key is used up.
    pub fn from<H: Hasher>(key: &ReferenceImplPrivateKey, nodes: &[u8]) -> (r: Result<
        HssPrivateKey,
        ErrorKind,
    >)
        requires
            key.wf(),
        ensures
            key@.q >= key@.end_count() ==> r == Err::<HssPrivateKey, ErrorKind>(ErrorKind::Exhausted),
            key@.q < key@.end_count() ==> r is Ok,
            r matches Ok(hss) ==> hss.shaped(key@) && hss.rooted::<H>(key@) && hss.origin@ == key@
                && hss.well_shaped(),
            r matches Ok(hss) ==> cache_faithful::<H>(level_tree::<H>(key@, 0), nodes@)
                ==> hss.expands::<H>(key@),
    {
        let end = key.get_end_count();
        if key.compressed_used_leafs_indexes >= end {
            return Err(ErrorKind::Exhausted);
        }
        let q = key.compressed_used_leafs_indexes;
        let levels = key.parameters.len();
        let ghost faithful = cache_faithful::<H>(level_tree::<H>(key@, 0), nodes@);
        let empty: Vec<u8> = Vec::new();
        let mut private_key: Vec<LmsPrivateKey> = Vec::new();
        let mut public_key: Vec<LmsPublicKey> = Vec::new();
        let mut signatures: Vec<LmsSignature> = Vec::new();
        let mut ident = key.generate_root_seed_and_lms_tree_identifier::<H>();
        proof {
            lemma_entity_leaf_range(key@);
            lemma_level_tree::<H>(key@, 0);
        }
        let mut current = LmsPrivateKey::new(
            ident.seed,
            ident.lms_tree_identifier,
            get_level_index(&key.parameters, q, 0),
            key.parameters[0].get_lmots_parameter(),
            key.parameters[0].get_lms_parameter(),
            key.sst_option,
        );
        let mut current_public = current.generate_public_key::<H>(nodes);
        let mut i: usize = 0;
        while i + 1 < levels
            invariant
                key.wf(),
                q == key@.q,
                q < key@.end_count(),
                levels == key@.params.len(),
                i < levels,
                empty@.len() == 0,
                faithful == cache_faithful::<H>(level_tree::<H>(key@, 0), nodes@),
                private_key@.len() == i,
                public_key@.len() == i,
                signatures@.len() == i,
                current.tree() == level_tree::<H>(key@, i as nat),
                current.seed == ident.seed,
                current.lms_tree_identifier == ident.lms_tree_identifier,
                current.used_leafs_index == level_index(key@.params, q, i as int),
                current.used_leafs_index < current.end_leaf(),
                current.wf(),
                current.sst_option == (if i == 0 {
                    key@.sst
                } else {
                    None
                }),
                current_public.lmots_parameter == current.lmots_parameter,
                current_public.lms_parameter == current.lms_parameter,
                faithful ==> current_public@ == level_public_key::<H>(key@, i as nat),
                forall|j: int|
                    0 <= j < i ==> (#[trigger] signatures@[j]).wf() && signatures@[j]@.lms
                        == key@.params[j].lms() && signatures@[j]@.ots.alg == key@.params[j].ots(),
                forall|j: int|
                    0 <= j < i ==> (#[trigger] private_key@[j]).lmots_parameter
                        == key@.params[j].ots() && private_key@[j].lms_parameter
                        == key@.params[j].lms() && private_key@[j].wf(),
                forall|j: int|
                    0 <= j < i ==> (#[trigger] private_key@[j]).tree() == level_tree::<H>(
                        key@,
                        j as nat,
                    ),
                faithful ==> forall|j: int|
                    0 <= j < i ==> (#[trigger] public_key@[j])@ == level_public_key::<H>(
                        key@,
                        j as nat,
                    ),
                faithful ==> forall|j: int|
                    0 <= j < i ==> (#[trigger] signatures@[j])@ == signed_public_key::<H>(
                        key@,
                        j as nat,
                    ),
            decreases levels - i,
        {
            let child_ident = generate_child_seed_and_lms_tree_identifier::<H>(
                &ident,
                current.used_leafs_index,
            );
            let child = LmsPrivateKey::new(
                child_ident.seed,
                child_ident.lms_tree_identifier,
                get_level_index(&key.parameters, q, i + 1),
                key.parameters[i + 1].get_lmots_parameter(),
                key.parameters[i + 1].get_lms_parameter(),
                None,
            );
            proof {
                lemma_level_tree::<H>(key@, (i + 1) as nat);
                lemma_empty_cache_faithful::<H>(child.tree(), empty@);
                assert(child.tree() == level_tree::<H>(key@, (i + 1) as nat));
                if i > 0 {
                    lemma_empty_cache_faithful::<H>(current.tree(), empty@);
                }
            }
            let child_public = child.generate_public_key::<H>(empty.as_slice());
            let message = child_public.to_binary_representation();
            let ghost before = current;
            let signed = if i == 0 {
                LmsSignature::sign::<H>(&mut current, message.as_slice(), nodes)
            } else {
                LmsSignature::sign::<H>(&mut current, message.as_slice(), empty.as_slice())
            };
            let signature = match signed {
                Ok(signature) => signature,
                Err(e) => {
                    return Err(ErrorKind::Exhausted);
                },
            };
            assert(faithful ==> signature@ == signed_public_key::<H>(key@, i as nat));
            assert(current.tree() == before.tree());
            private_key.push(current);
            public_key.push(current_public);
            signatures.push(signature);
            current = child;
            current_public = child_public;
            ident = child_ident;
            i = i + 1;
        }
        private_key.push(current);
        public_key.push(current_public);
        let hss = HssPrivateKey { private_key, public_key, signatures, origin: Ghost(key@) };
        proof {
            reveal(HssPrivateKey::expands);
            reveal(HssPrivateKey::rooted);
            reveal(HssPrivateKey::shaped);
            reveal(HssPrivateKey::well_shaped);
        }
        Ok(hss)
    }

    /// The public key: the number of levels and the public key of the top
    /// level. It is the public key of the stored key if this is that key's
    /// expanded form.
    pub fn get_public_key<H: Hasher>(&self) -> (public_key: HssPublicKey)
        requires
            self.well_shaped(),
        ensures
            self.expands::<H>(self.origin@) ==> public_key@ == hss_public_key::<H>(self.origin@),
            public_key@.levels == self.public_key@.len(),
            public_key@.key == self.public_key@[0]@,
    {
        proof {
            reveal(HssPrivateKey::expands);
            reveal(HssPrivateKey::shaped);
            reveal(HssPrivateKey::well_shaped);
            self.origin@.params[0].lms().lemma_of_type();
        }
        HssPublicKey { public_key: self.public_key[0], level: self.public_key.len() as u32 }
    }
}

} // verus!
