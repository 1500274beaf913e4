//! Where the part of a signing entity lies in the top-level tree.

use crate::util::helper::{lemma_pow2_monotonic, pow2_u64};
use vstd::arithmetic::power2::{lemma2_to64, lemma_pow2_adds, pow2};
use vstd::prelude::*;

verus! {

/// The first leaf of the signing entity `signing_entity_idx`, counted from
/// 0, in a tree of height `tree_height` that is divided `top_div_height`
/// levels below the root: `e · 2^(h − d)`.
pub fn get_sst_first_leaf_idx(signing_entity_idx: u8, tree_height: u8, top_div_height: u8) -> (leaf: u32)
    requires
        top_div_height <= 8,
        top_div_height <= tree_height <= 25,
        signing_entity_idx < pow2(top_div_height as nat),
    ensures
        leaf == signing_entity_idx * pow2((tree_height - top_div_height) as nat),
        leaf < pow2(tree_height as nat),
{
    let per = pow2_u64((tree_height - top_div_height) as u32);
    proof {
        lemma_pow2_adds(top_div_height as nat, (tree_height - top_div_height) as nat);
        lemma_pow2_monotonic(tree_height as nat, 25);
        lemma2_to64();
        let e = signing_entity_idx as int;
        let d = pow2(top_div_height as nat) as int;
        assert(e * per < d * per) by (nonlinear_arith)
            requires
                0 <= e < d,
                per >= 1,
        ;
    }
    (signing_entity_idx as u64 * per) as u32
}

/// The number of the node that is the root of the subtree of the signing
/// entity `signing_entity_idx`: `2^d + e`.
pub fn get_subtree_node_idx(signing_entity_idx: u8, tree_height: u8, top_div_height: u8) -> (node: u32)
    requires
        top_div_height <= 8,
        top_div_height <= tree_height <= 25,
        signing_entity_idx < pow2(top_div_height as nat),
    ensures
        node == pow2(top_div_height as nat) + signing_entity_idx,
        pow2(top_div_height as nat) <= node < 2 * pow2(top_div_height as nat),
{
    proof {
        lemma_pow2_monotonic(top_div_height as nat, 8);
        lemma2_to64();
    }
    (pow2_u64(top_div_height as u32) + signing_entity_idx as u64) as u32
}

} // verus!
