//! The mathematical model of an LMS tree: its nodes, authentication paths,
//! and the climb from a leaf to the root.
//!
//! Nodes are numbered as in RFC 8554: the root is node 1, the children of
//! node `r` are `2r` and `2r + 1`, and the leaves are the nodes `2^h` to
//! `2^(h+1) − 1`. A node is addressed by its number and by its height above
//! the leaves.

use crate::constants::{D_INTR, D_LEAF};
use crate::hasher::{hash, Hasher};
use crate::lm_ots::parameter::LmotsAlgorithm;
use crate::lms::parameter::LmsAlgorithm;
use crate::util::helper::lemma_pow2_double;
use crate::util::ustr::{be16, be32};
use vstd::arithmetic::power2::pow2;
use vstd::prelude::*;

verus! {

/// What determines an LMS tree: the parameter sets, the seed of its one-time
/// keys and its identifier `I`.
pub struct Tree {
    pub ots: LmotsAlgorithm,
    pub lms: LmsAlgorithm,
    pub seed: Seq<u8>,
    pub id: Seq<u8>,
}

impl Tree {
    /// The height of the tree.
    pub open spec fn h(self) -> nat {
        self.lms.height()
    }
}

/// The value of a leaf with number `r` over the one-time public key `k`:
/// the hash of `I ‖ u32(r) ‖ D_LEAF ‖ k`.
pub open spec fn leaf_value<H: Hasher>(id: Seq<u8>, r: nat, k: Seq<u8>) -> Seq<u8> {
    hash::<H>(id + be32(r as u32) + be16(D_LEAF) + k)
}

/// The value of an inner node with number `r` over the values of its
/// children: the hash of `I ‖ u32(r) ‖ D_INTR ‖ left ‖ right`.
pub open spec fn inner_value<H: Hasher>(id: Seq<u8>, r: nat, left: Seq<u8>, right: Seq<u8>) -> Seq<u8> {
    hash::<H>(id + be32(r as u32) + be16(D_INTR) + left + right)
}

/// The value `T[r]` of node `r`, which stands `k` levels above the leaves.
pub open spec fn node<H: Hasher>(t: Tree, k: nat, r: nat) -> Seq<u8>
    decreases k,
{
    if k == 0 {
        leaf_value::<H>(
            t.id,
            r,
            crate::lm_ots::definitions::public_key::<H>(t.ots, t.seed, t.id, (r - pow2(t.h())) as u32),
        )
    } else {
        inner_value::<H>(
            t.id,
            r,
            node::<H>(t, (k - 1) as nat, 2 * r),
            node::<H>(t, (k - 1) as nat, 2 * r + 1),
        )
    }
}

/// The root `T[1]`: the public key of the tree.
pub open spec fn root<H: Hasher>(t: Tree) -> Seq<u8> {
    node::<H>(t, t.h(), 1)
}

/// Whether `r` numbers a node `k` levels above the leaves of a tree of
/// height `h`.
pub open spec fn is_node(h: nat, k: nat, r: nat) -> bool {
    &&& k <= h
    &&& pow2((h - k) as nat) <= r < 2 * pow2((h - k) as nat)
}

/// The other child of the parent of node `r`.
pub open spec fn sibling(r: nat) -> nat {
    if r % 2 == 1 {
        (r - 1) as nat
    } else {
        r + 1
    }
}

/// The ancestor of node `r` that stands `k` levels above it.
pub open spec fn ancestor(r: nat, k: nat) -> nat
    decreases k,
{
    if k == 0 {
        r
    } else {
        ancestor(r, (k - 1) as nat) / 2
    }
}

/// The first `k` nodes of the authentication path of leaf `q`: for each
/// level from the leaves up, the sibling of the ancestor of the leaf.
pub open spec fn path_upto<H: Hasher>(t: Tree, q: nat, k: nat) -> Seq<u8>
    decreases k,
{
    if k == 0 {
        Seq::empty()
    } else {
        path_upto::<H>(t, q, (k - 1) as nat) + node::<H>(
            t,
            (k - 1) as nat,
            sibling(ancestor(pow2(t.h()) + q, (k - 1) as nat)),
        )
    }
}

/// The authentication path of leaf `q`: `h` nodes, 32 bytes each.
pub open spec fn auth_path<H: Hasher>(t: Tree, q: nat) -> Seq<u8> {
    path_upto::<H>(t, q, t.h())
}

/// The value of the parent of node `r`, given the value of `r` and that of
/// its sibling: the odd child is the right one.
pub open spec fn parent_value<H: Hasher>(id: Seq<u8>, r: nat, value: Seq<u8>, other: Seq<u8>) -> Seq<u8> {
    if r % 2 == 1 {
        inner_value::<H>(id, r / 2, other, value)
    } else {
        inner_value::<H>(id, r / 2, value, other)
    }
}

/// The value that the climb from node `r`, `k` levels above the leaves and
/// of value `value`, reaches at the root when the siblings are taken from
/// `path`.
pub open spec fn climb<H: Hasher>(id: Seq<u8>, h: nat, path: Seq<u8>, k: nat, r: nat, value: Seq<u8>) -> Seq<
    u8,
>
    decreases h - k,
{
    if k >= h {
        value
    } else {
        climb::<H>(
            id,
            h,
            path,
            k + 1,
            r / 2,
            parent_value::<H>(id, r, value, path.subrange(32 * (k as int), 32 * (k as int + 1))),
        )
    }
}

/// The value of a node has 32 bytes.
pub proof fn lemma_node_len<H: Hasher>(t: Tree, k: nat, r: nat)
    ensures
        node::<H>(t, k, r).len() == 32,
{
    if k == 0 {
        H::lemma_digest_len(
            t.id + be32(r as u32) + be16(D_LEAF) + crate::lm_ots::definitions::public_key::<H>(
                t.ots,
                t.seed,
                t.id,
                (r - pow2(t.h())) as u32,
            ),
        );
    } else {
        H::lemma_digest_len(
            t.id + be32(r as u32) + be16(D_INTR) + node::<H>(t, (k - 1) as nat, 2 * r) + node::<H>(
                t,
                (k - 1) as nat,
                2 * r + 1,
            ),
        );
    }
}

/// The ancestor `k` levels above leaf `q` is a node of that level, and the
/// one at the top is the root.
pub proof fn lemma_ancestor_is_node(h: nat, q: nat, k: nat)
    requires
        q < pow2(h),
        k <= h,
    ensures
        is_node(h, k, ancestor(pow2(h) + q, k)),
        is_node(h, k, sibling(ancestor(pow2(h) + q, k))) || k == h,
        k == h ==> ancestor(pow2(h) + q, k) == 1,
    decreases k,
{
    if k == 0 {
        lemma_pow2_double(h);
    } else {
        lemma_ancestor_is_node(h, q, (k - 1) as nat);
        lemma_pow2_double((h - k) as nat);
    }
    if k == h {
        vstd::arithmetic::power2::lemma2_to64();
    } else {
        lemma_pow2_double((h - k - 1) as nat);
    }
}

/// The first `k` nodes of an authentication path take `32·k` bytes.
pub proof fn lemma_path_len<H: Hasher>(t: Tree, q: nat, k: nat)
    ensures
        path_upto::<H>(t, q, k).len() == 32 * k,
    decreases k,
{
    if k > 0 {
        lemma_path_len::<H>(t, q, (k - 1) as nat);
        lemma_node_len::<H>(t, (k - 1) as nat, sibling(ancestor(pow2(t.h()) + q, (k - 1) as nat)));
    }
}

/// The `j`-th node of an authentication path is the sibling of the leaf's
/// ancestor at level `j`.
pub proof fn lemma_path_node<H: Hasher>(t: Tree, q: nat, k: nat, j: int)
    requires
        0 <= j < k,
    ensures
        path_upto::<H>(t, q, k).subrange(32 * j, 32 * (j + 1)) == node::<H>(
            t,
            j as nat,
            sibling(ancestor(pow2(t.h()) + q, j as nat)),
        ),
    decreases k,
{
    let head = path_upto::<H>(t, q, (k - 1) as nat);
    let last = node::<H>(t, (k - 1) as nat, sibling(ancestor(pow2(t.h()) + q, (k - 1) as nat)));
    lemma_path_len::<H>(t, q, (k - 1) as nat);
    lemma_node_len::<H>(t, (k - 1) as nat, sibling(ancestor(pow2(t.h()) + q, (k - 1) as nat)));
    if j < k - 1 {
        lemma_path_node::<H>(t, q, (k - 1) as nat, j);
        assert((head + last).subrange(32 * j, 32 * (j + 1)) =~= head.subrange(32 * j, 32 * (j + 1)));
    } else {
        assert((head + last).subrange(32 * j, 32 * (j + 1)) =~= last);
    }
}

/// Climbing from the true value of an ancestor of leaf `q` along the
/// authentication path of `q` reaches the root of the tree.
pub proof fn lemma_climb_reaches_root<H: Hasher>(t: Tree, q: nat, k: nat)
    requires
        q < pow2(t.h()),
        k <= t.h(),
    ensures
        climb::<H>(
            t.id,
            t.h(),
            auth_path::<H>(t, q),
            k,
            ancestor(pow2(t.h()) + q, k),
            node::<H>(t, k, ancestor(pow2(t.h()) + q, k)),
        ) == root::<H>(t),
    decreases t.h() - k,
{
    let h = t.h();
    let r = ancestor(pow2(h) + q, k);
    lemma_ancestor_is_node(h, q, k);
    if k < h {
        lemma_path_node::<H>(t, q, h, k as int);
        lemma_climb_reaches_root::<H>(t, q, k + 1);
        assert(ancestor(pow2(h) + q, k + 1) == r / 2);
        let up = r / 2;
        assert(node::<H>(t, k + 1, up) == inner_value::<H>(
            t.id,
            up,
            node::<H>(t, k, 2 * up),
            node::<H>(t, k, 2 * up + 1),
        ));
        if r % 2 == 1 {
            assert(2 * up + 1 == r && 2 * up == sibling(r));
        } else {
            assert(2 * up == r && 2 * up + 1 == sibling(r));
        }
    }
}

} // verus!
