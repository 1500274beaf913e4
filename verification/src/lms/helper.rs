//! Computing the nodes of an LMS tree, with a cache of nodes near the root.
//!
//! A cache is a byte string that holds the values of the nodes 1, 2, 3, …
//! in the order of their numbers, 32 bytes each. It may hold any number of
//! them, none included.

use crate::constants::{D_INTR, D_LEAF};
use crate::hasher::Hasher;
use crate::lm_ots::signing::generate_public_key;
use crate::lms::definitions::LmsPrivateKey;
use crate::lms::tree::{inner_value, is_node, leaf_value, node, Tree};
use crate::util::helper::{lemma_pow2_double, to_array32};
use crate::util::ustr::{be16, be32, u16str, u32str};
use vstd::prelude::*;

verus! {

/// Whether every node that `nodes` holds is the node of that number in the
/// tree `t`.
#[verifier::opaque]
pub open spec fn cache_faithful<H: Hasher>(t: Tree, nodes: Seq<u8>) -> bool {
    forall|k: nat, r: nat|
        is_node(t.h(), k, r) && 32 * r <= nodes.len() ==> nodes.subrange(32 * (r - 1), 32 * (r as int))
            == #[trigger] node::<H>(t, k, r)
}

/// An empty cache is faithful to every tree.
pub proof fn lemma_empty_cache_faithful<H: Hasher>(t: Tree, nodes: Seq<u8>)
    requires
        nodes.len() < 32,
    ensures
        cache_faithful::<H>(t, nodes),
{
    reveal(cache_faithful);
    assert forall|k: nat, r: nat|
        is_node(t.h(), k, r) && 32 * r <= nodes.len() implies nodes.subrange(32 * (r - 1), 32 * (r as int))
        == #[trigger] node::<H>(t, k, r) by {
        crate::util::helper::lemma_pow2_monotonic(0, (t.h() - k) as nat);
        vstd::arithmetic::power2::lemma2_to64();
    }
}

/// The value of leaf node `r` over the one-time public key `k`.
pub fn hash_leaf<H: Hasher>(id: &[u8; 16], r: u32, k: &[u8; 32]) -> (value: [u8; 32])
    ensures
        value@ == leaf_value::<H>(id@, r as nat, k@),
{
    let mut hasher = H::new();
    hasher.update(id.as_slice());
    hasher.update(u32str(r).as_slice());
    hasher.update(u16str(D_LEAF).as_slice());
    hasher.update(k.as_slice());
    assert(hasher.absorbed() =~= id@ + be32(r) + be16(D_LEAF) + k@);
    hasher.finalize()
}

/// The value of inner node `r` over the values of its children.
pub fn hash_inner<H: Hasher>(id: &[u8; 16], r: u32, left: &[u8], right: &[u8]) -> (value: [u8; 32])
    ensures
        value@ == inner_value::<H>(id@, r as nat, left@, right@),
{
    let mut hasher = H::new();
    hasher.update(id.as_slice());
    hasher.update(u32str(r).as_slice());
    hasher.update(u16str(D_INTR).as_slice());
    hasher.update(left);
    hasher.update(right);
    assert(hasher.absorbed() =~= id@ + be32(r) + be16(D_INTR) + left@ + right@);
    hasher.finalize()
}

/// The value of node `r`, which stands `k` levels above the leaves: taken
/// from `nodes` if it is there, and computed from the leaves below it if
/// not.
pub fn get_tree_element<H: Hasher>(key: &LmsPrivateKey, k: u8, r: u32, nodes: &[u8]) -> (value: [u8; 32])
    requires
        is_node(key.tree().h(), k as nat, r as nat),
    ensures
        cache_faithful::<H>(key.tree(), nodes@) ==> value@ == node::<H>(key.tree(), k as nat, r as nat),
    decreases k,
{
    let ghost h = key.tree().h();
    proof {
        reveal(cache_faithful);
        key.lms_parameter.lemma_of_type();
        crate::util::helper::lemma_pow2_monotonic((h - k) as nat, h);
        lemma_pow2_double((h - k) as nat);
    }
    if (r as usize) <= nodes.len() / 32 {
        let start: usize = 32 * (r as usize - 1);
        return to_array32(&nodes[start..start + 32]);
    }
    if k == 0 {
        let leaves = key.lms_parameter.number_of_lm_ots_keys();
        let public_key = generate_public_key::<H>(
            key.lmots_parameter,
            &key.seed,
            &key.lms_tree_identifier,
            r - leaves,
        );
        hash_leaf::<H>(&key.lms_tree_identifier, r, &public_key)
    } else {
        proof {
            lemma_pow2_double((h - k) as nat);
        }
        let left = get_tree_element::<H>(key, k - 1, 2 * r, nodes);
        let right = get_tree_element::<H>(key, k - 1, 2 * r + 1, nodes);
        hash_inner::<H>(&key.lms_tree_identifier, r, left.as_slice(), right.as_slice())
    }
}

} // verus!
