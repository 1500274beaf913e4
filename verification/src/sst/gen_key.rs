//! The key ceremony of the single-subtree extension: every signing entity
//! computes the root of its subtree, and the roots of all subtrees are
//! combined into the public key.

use crate::constants::{MAX_DSM_SIGNING_ENTITIES, MAX_HASH_SIZE};
use crate::error::{collapse, ErrorKind};
use crate::hasher::Hasher;
use crate::hss::aux::{aux_faithful, hss_prepare_aux_data};
use crate::hss::definitions::{
    hss_public_key, lemma_top_tree, level_tree, HssPublicKey, HssPublicKeyView,
};
use crate::hss::parameter::params_valid;
use crate::hss::reference_impl_private_key::{
    lemma_decode_encode, root_identifier, PrivateKeyView, ReferenceImplPrivateKey,
};
use crate::hss::{aux_evolves, lemma_no_aux, SigningKey, VerifyingKey};
use crate::lms::definitions::{LmsPrivateKey, LmsPublicKey, LmsPublicKeyView};
use crate::lms::helper::{get_tree_element, hash_inner, lemma_empty_cache_faithful};
use crate::lms::tree::{inner_value, is_node, node, root, Tree};
use crate::sst::helper::{get_sst_first_leaf_idx, get_subtree_node_idx};
use crate::sst::parameters::{SstExtension, SstsParameter};
use crate::util::helper::{lemma_pow2_double, lemma_pow2_monotonic, pow2_u64};
use tinyvec::ArrayVec;
use vstd::arithmetic::power2::{lemma2_to64, pow2};
use vstd::prelude::*;

verus! {

/// The bounded vector of the `tinyvec` crate.
#[verifier::external_type_specification]
#[verifier::external_body]
#[verifier::reject_recursive_types(A)]
pub struct ExTinyArrayVec<A>(ArrayVec<A>);

/// The bytes that the value of a node holds.
pub uninterp spec fn node_value_bytes(v: ArrayVec<[u8; MAX_HASH_SIZE]>) -> Seq<u8>;

/// The values of the nodes that a list of nodes holds.
pub uninterp spec fn node_values(
    v: ArrayVec<[ArrayVec<[u8; MAX_HASH_SIZE]>; MAX_DSM_SIGNING_ENTITIES]>,
) -> Seq<Seq<u8>>;

/// Calls `ArrayVec::from` on an array: the new vector holds the whole
/// array.
#[verifier::external_body]
fn node_value_from_array(value: [u8; 32]) -> (v: ArrayVec<[u8; MAX_HASH_SIZE]>)
    ensures
        node_value_bytes(v) == value@,
{
    ArrayVec::from(value)
}

/// Calls `ArrayVec::as_slice`: the slice of the bytes that the vector
/// holds.
#[verifier::external_body]
fn node_value_as_slice(v: &ArrayVec<[u8; MAX_HASH_SIZE]>) -> (s: &[u8])
    ensures
        s@ == node_value_bytes(*v),
{
    v.as_slice()
}

/// Calls `ArrayVec::len`: the number of nodes that the list holds.
#[verifier::external_body]
fn node_values_len(v: &ArrayVec<[ArrayVec<[u8; MAX_HASH_SIZE]>; MAX_DSM_SIGNING_ENTITIES]>) -> (n: usize)
    ensures
        n == node_values(*v).len(),
{
    v.len()
}

/// Indexes the list, which `tinyvec` does through the slice of what the
/// list holds: the `i`-th node.
#[verifier::external_body]
fn node_values_at(
    v: &ArrayVec<[ArrayVec<[u8; MAX_HASH_SIZE]>; MAX_DSM_SIGNING_ENTITIES]>,
    i: usize,
) -> (value: &ArrayVec<[u8; MAX_HASH_SIZE]>)
    requires
        i < node_values(*v).len(),
    ensures
        node_value_bytes(*value) == node_values(*v)[i as int],
{
    &v[i]
}

/// The value of node `r`, which stands `k` levels above the roots of the
/// subtrees, computed from the roots `nodes` of the `2^d` subtrees.
pub open spec fn combine<H: Hasher>(id: Seq<u8>, nodes: Seq<Seq<u8>>, d: nat, k: nat, r: nat) -> Seq<u8>
    decreases k,
{
    if k == 0 {
        nodes[r - pow2(d)]
    } else {
        inner_value::<H>(
            id,
            r,
            combine::<H>(id, nodes, d, (k - 1) as nat, 2 * r),
            combine::<H>(id, nodes, d, (k - 1) as nat, 2 * r + 1),
        )
    }
}

/// The height of the division that a key belongs to: 0 where the key has no
/// single-subtree extension.
pub open spec fn division_height(key: PrivateKeyView) -> nat {
    match key.sst {
        Some(ext) => ext.top_div_height as nat,
        None => 0,
    }
}

/// The root of the subtree of entity `e` in the top-level tree of `key`
/// divided `d` levels below its root.
pub open spec fn subtree_root<H: Hasher>(key: PrivateKeyView, d: nat, e: nat) -> Seq<u8> {
    node::<H>(level_tree::<H>(key, 0), (key.params[0].lms().height() - d) as nat, pow2(d) + e)
}

/// The public key that the roots `nodes` of the subtrees give for `key`.
pub open spec fn combined_public_key<H: Hasher>(key: PrivateKeyView, nodes: Seq<Seq<u8>>) -> HssPublicKeyView {
    let d = division_height(key);
    HssPublicKeyView {
        levels: key.params.len() as u32,
        key: LmsPublicKeyView {
            ots: key.params[0].ots(),
            lms: key.params[0].lms(),
            id: root_identifier::<H>(key.seed),
            root: combine::<H>(root_identifier::<H>(key.seed), nodes, d, d, 1),
        },
    }
}

/// Combining the true roots of the subtrees gives the true nodes above
/// them.
pub proof fn lemma_combine<H: Hasher>(t: Tree, nodes: Seq<Seq<u8>>, d: nat, k: nat, r: nat)
    requires
        d <= t.h(),
        nodes.len() == pow2(d),
        forall|e: int|
            0 <= e < pow2(d) ==> #[trigger] nodes[e] == node::<H>(
                t,
                (t.h() - d) as nat,
                (pow2(d) + e) as nat,
            ),
        is_node(d, k, r),
    ensures
        combine::<H>(t.id, nodes, d, k, r) == node::<H>(t, (t.h() - d + k) as nat, r),
    decreases k,
{
    if k == 0 {
        let e = r - pow2(d);
        assert(nodes[e] == node::<H>(t, (t.h() - d) as nat, (pow2(d) + e) as nat));
    } else {
        lemma_pow2_double((d - k) as nat);
        lemma_combine::<H>(t, nodes, d, (k - 1) as nat, 2 * r);
        lemma_combine::<H>(t, nodes, d, (k - 1) as nat, 2 * r + 1);
    }
}

/// The key ceremony gives the public key of key generation: where every
/// entity hands in the root of its subtree of the tree of one master seed
/// and one parameter list, the combined public key is the public key that
/// key generation gives for that seed and that list.
pub proof fn lemma_ceremony_gives_public_key<H: Hasher>(key: PrivateKeyView, nodes: Seq<Seq<u8>>)
    requires
        key.wf(),
        nodes.len() == pow2(division_height(key)),
        forall|e: int|
            0 <= e < nodes.len() ==> #[trigger] nodes[e] == subtree_root::<H>(
                key,
                division_height(key),
                e as nat,
            ),
    ensures
        combined_public_key::<H>(key, nodes) == hss_public_key::<H>(
            PrivateKeyView { q: 0, sst: None, ..key },
        ),
{
    let d = division_height(key);
    let t = level_tree::<H>(key, 0);
    let plain = PrivateKeyView { q: 0, sst: None, ..key };
    lemma_top_tree::<H>(key, plain);
    key.params[0].lms().lemma_of_type();
    lemma2_to64();
    assert(is_node(d, d, 1));
    lemma_combine::<H>(t, nodes, d, d, 1);
}

/// Whether `sst_param` describes a signing entity: the parameter list is
/// valid, and the division, if there is one, fits the top-level tree.
pub open spec fn entity_valid(sst_param: &SstsParameter) -> bool {
    &&& params_valid(sst_param.params())
    &&& match sst_param.extension() {
        Some(ext) => ext.fits(sst_param.params()[0].lms().height()),
        None => sst_param.entity() == 0,
    }
}

/// The key that the first step of the ceremony gives the entity
/// `sst_param` for the master seed `seed`: its counter stands at the
/// entity's first leaf.
pub open spec fn entity_key(sst_param: &SstsParameter, seed: Seq<u8>) -> PrivateKeyView {
    let key = PrivateKeyView { q: 0, params: sst_param.params(), seed, sst: sst_param.extension() };
    PrivateKeyView { q: key.start_count() as u64, ..key }
}

/// First step of the ceremony, for one signing entity: makes the entity's
/// private key for the master seed `seed` and computes the root of the
/// entity's subtree. `aux_data` is auxiliary data for the top-level tree.
///
/// Fails where the parameters do not describe a signing entity.
pub fn genkey1_sst<H: Hasher>(
    sst_param: &SstsParameter,
    seed: &[u8; 32],
    aux_data: Option<&mut &mut [u8]>,
) -> (r: Result<(SigningKey, ArrayVec<[u8; MAX_HASH_SIZE]>), signature::Error>)
    ensures
        r is Ok <==> entity_valid(sst_param),
        match aux_data {
            Some(a) => (*final(a))@.len() == (*a)@.len() && final(*final(a))@ == final(*a)@ && (r is Err
                ==> (*final(a))@ == (*a)@),
            None => true,
        },
        r matches Ok((signing_key, node)) ==> ({
            let key = entity_key(sst_param, seed@);
            &&& key.wf()
            &&& signing_key@ == key.encode()
            &&& match aux_data {
                Some(a) => aux_evolves::<H>((*a)@, (*final(a))@, key) && (aux_faithful::<H>((*a)@, key)
                    ==> node_value_bytes(node) == subtree_root::<H>(
                    key,
                    sst_param.div_height() as nat,
                    sst_param.entity() as nat,
                )),
                None => node_value_bytes(node) == subtree_root::<H>(
                    key,
                    sst_param.div_height() as nat,
                    sst_param.entity() as nat,
                ),
            }
        }),
{
    let mut none: Vec<u8> = Vec::new();
    let outcome = match aux_data {
        Some(a) => entity_key_and_root::<H>(sst_param, seed, *a),
        None => {
            proof {
                lemma_no_aux::<H>(none@, entity_key(sst_param, seed@).encode());
                if entity_valid(sst_param) {
                    lemma_entity_key(sst_param, seed@);
                }
            }
            entity_key_and_root::<H>(sst_param, seed, none.as_mut_slice())
        },
    };
    match outcome {
        Ok((private_key, value)) => {
            proof {
                lemma_entity_key(sst_param, seed@);
            }
            let signing_key = match SigningKey::from_bytes(private_key.as_slice()) {
                Ok(signing_key) => signing_key,
                Err(e) => {
                    return Err(e);
                },
            };
            Ok((signing_key, node_value_from_array(value)))
        },
        Err(kind) => Err(collapse(kind)),
    }
}

/// The key of a signing entity is well-formed and not used up.
pub proof fn lemma_entity_key(sst_param: &SstsParameter, seed: Seq<u8>)
    requires
        entity_valid(sst_param),
        seed.len() == 32,
    ensures
        entity_key(sst_param, seed).wf(),
        entity_key(sst_param, seed).q == entity_key(sst_param, seed).start_count(),
        entity_key(sst_param, seed).q < entity_key(sst_param, seed).end_count(),
        PrivateKeyView::decode(entity_key(sst_param, seed).encode()) == Some(
            entity_key(sst_param, seed),
        ),
        entity_key(sst_param, seed).encode().len() <= 50,
{
    let key = PrivateKeyView { q: 0, params: sst_param.params(), seed, sst: sst_param.extension() };
    key.lemma_counts();
    let entity = entity_key(sst_param, seed);
    entity.lemma_counts();
    lemma_decode_encode(entity);
}

/// The first step of the ceremony on plain values: the stored form of the
/// entity's private key and the root of its subtree.
pub fn entity_key_and_root<H: Hasher>(sst_param: &SstsParameter, seed: &[u8; 32], aux: &mut [u8]) -> (r:
    Result<(Vec<u8>, [u8; 32]), ErrorKind>)
    ensures
        final(aux)@.len() == old(aux)@.len(),
        !entity_valid(sst_param) ==> r == Err::<(Vec<u8>, [u8; 32]), ErrorKind>(
            ErrorKind::InvalidParameter,
        ) && final(aux)@ == old(aux)@,
        entity_valid(sst_param) ==> r is Ok,
        r matches Ok((private_key, value)) ==> ({
            let key = entity_key(sst_param, seed@);
            &&& private_key@ == key.encode()
            &&& aux_evolves::<H>(old(aux)@, final(aux)@, key)
            &&& aux_faithful::<H>(old(aux)@, key) ==> value@ == subtree_root::<H>(
                key,
                sst_param.div_height() as nat,
                sst_param.entity() as nat,
            )
        }),
{
    let parameters = sst_param.get_hss_parameters();
    let d = sst_param.get_top_div_height();
    let e = sst_param.get_signing_entity_idx();
    let generated = if d == 0 {
        if e != 0 {
            return Err(ErrorKind::InvalidParameter);
        }
        ReferenceImplPrivateKey::generate(parameters.as_slice(), seed)
    } else {
        ReferenceImplPrivateKey::generate_for_entity(
            parameters.as_slice(),
            seed,
            SstExtension { signing_entity_idx: e, top_div_height: d },
        )
    };
    let key = match generated {
        Ok(key) => key,
        Err(kind) => {
            return Err(ErrorKind::InvalidParameter);
        },
    };
    proof {
        lemma2_to64();
        lemma_entity_key(sst_param, seed@);
        assert(key@ == entity_key(sst_param, seed@));
        key@.params[0].lms().lemma_of_type();
    }
    let content = hss_prepare_aux_data::<H>(aux, &key);
    let empty: Vec<u8> = Vec::new();
    proof {
        lemma_empty_cache_faithful::<H>(level_tree::<H>(key@, 0), empty@);
    }
    let nodes = if content == 0 {
        empty.as_slice()
    } else {
        &aux[1..content]
    };
    let ident = key.generate_root_seed_and_lms_tree_identifier::<H>();
    let lms = key.parameters[0].get_lms_parameter();
    let h = lms.get_tree_height();
    let lms_private_key = LmsPrivateKey::new(
        ident.seed,
        ident.lms_tree_identifier,
        get_sst_first_leaf_idx(e, h, d),
        key.parameters[0].get_lmots_parameter(),
        lms,
        key.sst_option,
    );
    assert(lms_private_key.tree() == level_tree::<H>(key@, 0));
    let our_node_index = get_subtree_node_idx(e, h, d);
    let our_node_value = get_tree_element::<H>(&lms_private_key, h - d, our_node_index, nodes);
    Ok((key.to_binary_representation(), our_node_value))
}

/// The number of signing entities that share the top-level tree of the key
/// stored in `private_key`: `2^d`, and one where the key has no
/// single-subtree extension. Fails where the key does not parse.
pub fn get_num_signing_entities<H: Hasher>(private_key: &[u8]) -> (r: Result<u32, signature::Error>)
    ensures
        r is Ok <==> PrivateKeyView::decode(private_key@) is Some,
        r matches Ok(n) ==> n == pow2(division_height(PrivateKeyView::decode(private_key@)->0)),
{
    let rfc_private_key = match ReferenceImplPrivateKey::from_binary_representation(private_key) {
        Ok(key) => key,
        Err(kind) => {
            return Err(collapse(kind));
        },
    };
    let d = match rfc_private_key.sst_option {
        Some(ext) => ext.top_div_height,
        None => 0,
    };
    proof {
        lemma_pow2_monotonic(d as nat, 8);
        lemma2_to64();
    }
    Ok(pow2_u64(d as u32) as u32)
}

/// Whether `nodes` can be the roots of the subtrees for `key`: there is one
/// for every signing entity, and every one has 32 bytes.
pub open spec fn roots_fit(key: PrivateKeyView, nodes: Seq<Seq<u8>>) -> bool {
    &&& nodes.len() == pow2(division_height(key))
    &&& forall|e: int| 0 <= e < nodes.len() ==> (#[trigger] nodes[e]).len() == 32
}

/// Second step of the ceremony: combines the roots of the subtrees of all
/// signing entities, in the order of the entities, into the public key. The
/// auxiliary data is left to the first signing.
///
/// Fails where the key does not parse, where the number of roots is not the
/// number of signing entities, and where a root does not have 32 bytes.
pub fn genkey2_sst<H: Hasher>(
    private_key: &[u8],
    interm_nodes: &ArrayVec<[ArrayVec<[u8; MAX_HASH_SIZE]>; MAX_DSM_SIGNING_ENTITIES]>,
    aux_data: Option<&mut &mut [u8]>,
) -> (r: Result<VerifyingKey, signature::Error>)
    ensures
        r is Ok <==> (PrivateKeyView::decode(private_key@) matches Some(key) && roots_fit(
            key,
            node_values(*interm_nodes),
        )),
        r matches Ok(verifying_key) ==> verifying_key@ == combined_public_key::<H>(
            PrivateKeyView::decode(private_key@)->0,
            node_values(*interm_nodes),
        ).encode(),
        aux_data matches Some(a) ==> (*final(a))@ == (*a)@ && final(*final(a))@ == final(*a)@,
{
    let rfc_private_key = match ReferenceImplPrivateKey::from_binary_representation(private_key) {
        Ok(key) => key,
        Err(kind) => {
            return Err(collapse(kind));
        },
    };
    let d = match rfc_private_key.sst_option {
        Some(ext) => ext.top_div_height,
        None => 0,
    };
    proof {
        lemma_pow2_monotonic(d as nat, 8);
        lemma2_to64();
    }
    let count = node_values_len(interm_nodes);
    if count as u64 != pow2_u64(d as u32) {
        return Err(collapse(ErrorKind::ParamMismatch));
    }
    let mut e: usize = 0;
    while e < count
        invariant
            e <= count,
            count == node_values(*interm_nodes).len(),
            forall|j: int| 0 <= j < e ==> (#[trigger] node_values(*interm_nodes)[j]).len() == 32,
        decreases count - e,
    {
        if node_value_as_slice(node_values_at(interm_nodes, e)).len() != 32 {
            return Err(collapse(ErrorKind::ParamMismatch));
        }
        e = e + 1;
    }
    let seed_and_lms_tree_ident = rfc_private_key.generate_root_seed_and_lms_tree_identifier::<H>();
    let lms_tree_ident = seed_and_lms_tree_ident.lms_tree_identifier;
    proof {
        assert(is_node(d as nat, d as nat, 1));
    }
    let pubkey_hash_val = get_node_hash_val::<H>(1, interm_nodes, d, lms_tree_ident);
    proof {
        lemma_combine_len::<H>(lms_tree_ident@, node_values(*interm_nodes), d as nat, d as nat, 1);
    }
    let hss_public_key = HssPublicKey {
        public_key: LmsPublicKey {
            key: crate::util::helper::to_array32(node_value_as_slice(&pubkey_hash_val)),
            lms_tree_identifier: lms_tree_ident,
            lmots_parameter: rfc_private_key.parameters[0].get_lmots_parameter(),
            lms_parameter: rfc_private_key.parameters[0].get_lms_parameter(),
        },
        level: rfc_private_key.parameters.len() as u32,
    };
    VerifyingKey::from_bytes(hss_public_key.to_binary_representation().as_slice())
}

/// A combined node has 32 bytes where the roots have.
pub proof fn lemma_combine_len<H: Hasher>(id: Seq<u8>, nodes: Seq<Seq<u8>>, d: nat, k: nat, r: nat)
    requires
        nodes.len() == pow2(d),
        forall|e: int| 0 <= e < nodes.len() ==> (#[trigger] nodes[e]).len() == 32,
        is_node(d, k, r),
    ensures
        combine::<H>(id, nodes, d, k, r).len() == 32,
{
    if k > 0 {
        H::lemma_digest_len(
            id + crate::util::ustr::be32(r as u32) + crate::util::ustr::be16(crate::constants::D_INTR)
                + combine::<H>(id, nodes, d, (k - 1) as nat, 2 * r) + combine::<H>(
                id,
                nodes,
                d,
                (k - 1) as nat,
                2 * r + 1,
            ),
        );
    }
}

/// The value of node `index` of the top of the tree, computed from the
/// roots `av_of_nodes` of the `2^top_div_height` subtrees: a root itself
/// where the node is one, and the hash of its two children where it lies
/// above them.
fn get_node_hash_val<H: Hasher>(
    index: u32,
    av_of_nodes: &ArrayVec<[ArrayVec<[u8; MAX_HASH_SIZE]>; MAX_DSM_SIGNING_ENTITIES]>,
    top_div_height: u8,
    lms_tree_ident: [u8; 16],
) -> (value: ArrayVec<[u8; MAX_HASH_SIZE]>)
    requires
        top_div_height <= 8,
        node_values(*av_of_nodes).len() == pow2(top_div_height as nat),
        1 <= index < 2 * pow2(top_div_height as nat),
    ensures
        forall|k: nat|
            is_node(top_div_height as nat, k, index as nat) ==> node_value_bytes(value)
                == #[trigger] combine::<H>(
                lms_tree_ident@,
                node_values(*av_of_nodes),
                top_div_height as nat,
                k,
                index as nat,
            ),
    decreases 2 * pow2(top_div_height as nat) - index,
{
    proof {
        lemma_pow2_monotonic(top_div_height as nat, 8);
        lemma2_to64();
    }
    let first = pow2_u64(top_div_height as u32) as u32;
    let ghost d = top_div_height as nat;
    let ghost nodes = node_values(*av_of_nodes);
    if index >= first {
        let leaf_number = (index - first) as usize;
        let value = *node_values_at(av_of_nodes, leaf_number);
        proof {
            assert forall|k: nat| is_node(d, k, index as nat) implies node_value_bytes(value)
                == #[trigger] combine::<H>(lms_tree_ident@, nodes, d, k, index as nat) by {
                assert(is_node(d, 0, index as nat));
                crate::hss::aux::lemma_node_height(d, k, 0, index as nat);
            }
        }
        value
    } else {
        let left = get_node_hash_val::<H>(index * 2, av_of_nodes, top_div_height, lms_tree_ident);
        let right = get_node_hash_val::<H>(index * 2 + 1, av_of_nodes, top_div_height, lms_tree_ident);
        let value = hash_inner::<H>(
            &lms_tree_ident,
            index,
            node_value_as_slice(&left),
            node_value_as_slice(&right),
        );
        let result = node_value_from_array(value);
        proof {
            assert forall|k: nat| is_node(d, k, index as nat) implies node_value_bytes(result)
                == #[trigger] combine::<H>(lms_tree_ident@, nodes, d, k, index as nat) by {
                assert(k >= 1);
                lemma_pow2_double((d - k) as nat);
                assert(is_node(d, (k - 1) as nat, (2 * index) as nat));
                assert(is_node(d, (k - 1) as nat, (2 * index + 1) as nat));
                assert(node_value_bytes(left) == combine::<H>(
                    lms_tree_ident@,
                    nodes,
                    d,
                    (k - 1) as nat,
                    (2 * index) as nat,
                ));
                assert(node_value_bytes(right) == combine::<H>(
                    lms_tree_ident@,
                    nodes,
                    d,
                    (k - 1) as nat,
                    (2 * index + 1) as nat,
                ));
            }
        }
        result
    }
}

} // verus!
