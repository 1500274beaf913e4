//! Auxiliary data: a cache of the nodes near the root of the top-level
//! tree, kept in a buffer that the caller owns.
//!
//! The buffer holds a marker byte, then the values of the nodes 1, 2, 3, …
//! down to some level of the tree, then zeros, and in its last 32 bytes an
//! integrity tag that binds everything before it to the master seed. The
//! marker says how many levels are stored; it has its high bit set once the
//! buffer is filled. The tag stands at the end of the buffer whatever the
//! marker says, so that no change of a byte moves it. A buffer whose tag
//! does not match is treated as if it held nothing, and is filled anew.

use crate::constants::{AUX_DATA_POPULATED, D_AUX_TAG};
use crate::error::ErrorKind;
use crate::hasher::{hash, Hasher};
use crate::hss::definitions::level_tree;
use crate::hss::reference_impl_private_key::{PrivateKeyView, ReferenceImplPrivateKey};
use crate::lms::definitions::LmsPrivateKey;
use crate::lms::helper::{cache_faithful, get_tree_element, hash_inner, lemma_empty_cache_faithful};
use crate::lms::tree::{is_node, node, Tree};
use crate::util::helper::{bytes_eq, lemma_pow2_double, lemma_pow2_monotonic, pow2_u64};
use crate::util::ustr::{be16, u16str};
use vstd::arithmetic::power2::{lemma2_to64, pow2};
use vstd::prelude::*;

verus! {

/// The largest number of levels that a buffer can store: a tree of height
/// 25 has 26.
pub const MAX_AUX_LEVELS: u8 = 26;

/// The number of levels that the marker of `aux` announces; 0 if the buffer
/// is empty or not filled.
pub open spec fn stored_levels(aux: Seq<u8>) -> nat {
    if aux.len() >= 1 && aux[0] > AUX_DATA_POPULATED {
        (aux[0] - AUX_DATA_POPULATED) as nat
    } else {
        0
    }
}

/// The number of nodes in the first `levels` levels of a tree.
pub open spec fn node_count(levels: nat) -> nat {
    (pow2(levels) - 1) as nat
}

/// The length of marker and nodes for `levels` levels.
pub open spec fn content_len(levels: nat) -> nat {
    1 + 32 * node_count(levels)
}

/// The number of bytes of `aux` that its tag seals: all but the last 32.
pub open spec fn sealed_len(aux: Seq<u8>) -> int {
    aux.len() - 32
}

/// The integrity tag of the content `content` under the master seed
/// `seed`: the hash of `D_AUX_TAG ‖ seed ‖ content`.
pub open spec fn aux_tag<H: Hasher>(seed: Seq<u8>, content: Seq<u8>) -> Seq<u8> {
    hash::<H>(be16(D_AUX_TAG) + seed + content)
}

/// Whether `aux` is filled, has room for the levels that its marker
/// announces, and ends in the tag of everything before it under `seed`.
pub open spec fn aux_usable<H: Hasher>(aux: Seq<u8>, seed: Seq<u8>) -> bool {
    let levels = stored_levels(aux);
    &&& 1 <= levels <= MAX_AUX_LEVELS
    &&& aux.len() >= content_len(levels) + 32
    &&& aux.subrange(sealed_len(aux), aux.len() as int) == aux_tag::<H>(
        seed,
        aux.subrange(0, sealed_len(aux)),
    )
}

/// The nodes that `aux` offers under `seed`: those it stores if it is
/// filled and its tag matches, else none.
pub open spec fn aux_nodes<H: Hasher>(aux: Seq<u8>, seed: Seq<u8>) -> Seq<u8> {
    if aux_usable::<H>(aux, seed) {
        aux.subrange(1, content_len(stored_levels(aux)) as int)
    } else {
        Seq::empty()
    }
}

/// Whether the nodes that `aux` offers under the seed of `key` are nodes of
/// the top-level tree of `key`. A buffer that was filled by this library
/// for the same seed and parameters is faithful; so is one that offers
/// nothing.
pub open spec fn aux_faithful<H: Hasher>(aux: Seq<u8>, key: PrivateKeyView) -> bool {
    cache_faithful::<H>(level_tree::<H>(key, 0), aux_nodes::<H>(aux, key.seed))
}

/// Corruption is noticed: a buffer that is usable and in which then one
/// byte is changed, whichever it is and to whatever value, is no longer
/// usable, unless the hash function collides. So is a buffer in which one
/// bit is flipped.
pub proof fn lemma_corruption_noticed<H: Hasher>(aux: Seq<u8>, seed: Seq<u8>, at: int, value: u8)
    requires
        aux_usable::<H>(aux, seed),
        0 <= at < aux.len(),
        value != aux[at],
    ensures
        aux_usable::<H>(aux.update(at, value), seed) ==> crate::binding::collides::<H>(),
{
    let other = aux.update(at, value);
    let sealed = sealed_len(aux);
    let head = be16(D_AUX_TAG) + seed;
    if aux_usable::<H>(other, seed) {
        if at < sealed {
            assert(other.subrange(sealed, aux.len() as int) =~= aux.subrange(sealed, aux.len() as int));
            assert(other.subrange(0, sealed)[at] != aux.subrange(0, sealed)[at]);
            crate::binding::lemma_tails_differ(head, other.subrange(0, sealed), aux.subrange(0, sealed));
            crate::binding::lemma_collision::<H>(
                head + other.subrange(0, sealed),
                head + aux.subrange(0, sealed),
            );
        } else {
            assert(other.subrange(0, sealed) =~= aux.subrange(0, sealed));
            assert(other.subrange(sealed, aux.len() as int)[at - sealed] != aux.subrange(
                sealed,
                aux.len() as int,
            )[at - sealed]);
        }
    }
}

/// Corruption does no harm: a buffer that was usable and in which then one
/// byte is changed is faithful to every key of the seed, because it offers
/// nothing, unless the hash function collides. Signing with it gives what
/// signing without auxiliary data gives, and fills the buffer anew.
pub proof fn lemma_corruption_harmless<H: Hasher>(aux: Seq<u8>, key: PrivateKeyView, at: int, value: u8)
    requires
        aux_usable::<H>(aux, key.seed),
        0 <= at < aux.len(),
        value != aux[at],
    ensures
        crate::binding::collides::<H>() || (!aux_usable::<H>(aux.update(at, value), key.seed)
            && aux_faithful::<H>(aux.update(at, value), key)),
{
    lemma_corruption_noticed::<H>(aux, key.seed, at, value);
    if !crate::binding::collides::<H>() {
        lemma_empty_cache_faithful::<H>(
            level_tree::<H>(key, 0),
            aux_nodes::<H>(aux.update(at, value), key.seed),
        );
    }
}

/// The sizes for `levels` levels in numbers: not more than `2^26` nodes.
pub proof fn lemma_sizes(levels: nat)
    requires
        levels <= MAX_AUX_LEVELS,
    ensures
        1 <= pow2(levels) <= 0x400_0000,
        content_len(levels) == 1 + 32 * (pow2(levels) - 1),
        content_len(levels) + 32 <= 0x8000_0001,
        content_len(levels + 1) == content_len(levels) + 32 * pow2(levels),
{
    lemma2_to64();
    lemma_pow2_monotonic(levels, 26);
    lemma_pow2_double(levels);
}

/// A node has one height only.
pub proof fn lemma_node_height(h: nat, k1: nat, k2: nat, r: nat)
    requires
        is_node(h, k1, r),
        is_node(h, k2, r),
    ensures
        k1 == k2,
{
    if k1 < k2 {
        lemma_pow2_double((h - k2) as nat);
        lemma_pow2_monotonic((h - k2 + 1) as nat, (h - k1) as nat);
    } else if k2 < k1 {
        lemma_pow2_double((h - k1) as nat);
        lemma_pow2_monotonic((h - k1 + 1) as nat, (h - k2) as nat);
    }
}

/// Writes `src` into `dst` at `offset`.
pub fn write_bytes(dst: &mut [u8], offset: usize, src: &[u8])
    requires
        offset + src@.len() <= old(dst)@.len(),
    ensures
        final(dst)@ == old(dst)@.subrange(0, offset as int) + src@ + old(dst)@.subrange(
            offset + src@.len(),
            old(dst)@.len() as int,
        ),
        final(dst)@.len() == old(dst)@.len(),
{
    let total = dst.len();
    let mut i: usize = 0;
    while i < src.len()
        invariant
            total == dst@.len(),
            i <= src@.len(),
            offset + src@.len() <= dst@.len(),
            dst@.len() == old(dst)@.len(),
            forall|j: int| 0 <= j < offset ==> dst@[j] == old(dst)@[j],
            forall|j: int| 0 <= j < i ==> dst@[offset + j] == src@[j],
            forall|j: int| offset + i <= j < dst@.len() ==> dst@[j] == old(dst)@[j],
        decreases src@.len() - i,
    {
        dst[offset + i] = src[i];
        i = i + 1;
    }
    assert(dst@ =~= old(dst)@.subrange(0, offset as int) + src@ + old(dst)@.subrange(
        offset + src@.len(),
        old(dst)@.len() as int,
    ));
}

/// Whether the marker of `aux_data` says that the buffer is filled.
pub fn hss_is_aux_data_used(aux_data: &[u8]) -> (used: bool)
    ensures
        used == (stored_levels(aux_data@) >= 1),
{
    aux_data.len() >= 1 && aux_data[0] > AUX_DATA_POPULATED
}

/// The integrity tag of `content` under `seed`.
pub fn compute_aux_tag<H: Hasher>(seed: &[u8; 32], content: &[u8]) -> (tag: [u8; 32])
    ensures
        tag@ == aux_tag::<H>(seed@, content@),
{
    let mut hasher = H::new();
    hasher.update(u16str(D_AUX_TAG).as_slice());
    hasher.update(seed.as_slice());
    hasher.update(content);
    assert(hasher.absorbed() =~= be16(D_AUX_TAG) + seed@ + content@);
    hasher.finalize()
}

/// Checks that `aux_data` is filled and that its tag matches, and says how
/// long marker and nodes are.
pub fn hss_check_aux_data<H: Hasher>(aux_data: &[u8], seed: &[u8; 32]) -> (r: Result<usize, ErrorKind>)
    ensures
        aux_usable::<H>(aux_data@, seed@) ==> (r matches Ok(content) && content == content_len(
            stored_levels(aux_data@),
        )),
        !aux_usable::<H>(aux_data@, seed@) ==> r == Err::<usize, ErrorKind>(ErrorKind::AuxInvalid),
        r matches Ok(content) ==> 33 <= content && content + 32 <= aux_data@.len(),
{
    if !hss_is_aux_data_used(aux_data) {
        return Err(ErrorKind::AuxInvalid);
    }
    let levels = aux_data[0] - AUX_DATA_POPULATED;
    if levels > MAX_AUX_LEVELS {
        return Err(ErrorKind::AuxInvalid);
    }
    proof {
        lemma_sizes(levels as nat);
        lemma_pow2_monotonic(1, levels as nat);
        lemma2_to64();
    }
    let content = 1 + 32 * (pow2_u64(levels as u32) - 1);
    if (aux_data.len() as u64) < content + 32 {
        return Err(ErrorKind::AuxInvalid);
    }
    let sealed = aux_data.len() - 32;
    let tag = compute_aux_tag::<H>(seed, &aux_data[0..sealed]);
    if bytes_eq(tag.as_slice(), &aux_data[sealed..aux_data.len()]) {
        Ok(content as usize)
    } else {
        Err(ErrorKind::AuxInvalid)
    }
}

/// Seals `aux_data`: computes the tag of all but its last 32 bytes under
/// `seed` and writes it into these.
pub fn hss_finalize_aux_data<H: Hasher>(aux_data: &mut [u8], seed: &[u8; 32])
    requires
        old(aux_data)@.len() >= 32,
    ensures
        final(aux_data)@.len() == old(aux_data)@.len(),
        final(aux_data)@.subrange(0, sealed_len(old(aux_data)@)) == old(aux_data)@.subrange(
            0,
            sealed_len(old(aux_data)@),
        ),
        final(aux_data)@.subrange(sealed_len(old(aux_data)@), old(aux_data)@.len() as int)
            == aux_tag::<H>(seed@, old(aux_data)@.subrange(0, sealed_len(old(aux_data)@))),
{
    let sealed = aux_data.len() - 32;
    let tag = compute_aux_tag::<H>(seed, &aux_data[0..sealed]);
    proof {
        H::lemma_digest_len(be16(D_AUX_TAG) + seed@ + aux_data@.subrange(0, sealed as int));
    }
    write_bytes(aux_data, sealed, tag.as_slice());
    assert(aux_data@.subrange(0, sealed as int) =~= old(aux_data)@.subrange(0, sealed as int));
    assert(aux_data@.subrange(sealed as int, aux_data@.len() as int) =~= tag@);
}

/// Sets the bytes of `dst` from `from` up to `to` to zero.
pub fn clear_bytes(dst: &mut [u8], from: usize, to: usize)
    requires
        from <= to <= old(dst)@.len(),
    ensures
        final(dst)@.len() == old(dst)@.len(),
        forall|j: int| 0 <= j < from ==> final(dst)@[j] == old(dst)@[j],
        forall|j: int| from <= j < to ==> final(dst)@[j] == 0,
        forall|j: int| to <= j < old(dst)@.len() ==> final(dst)@[j] == old(dst)@[j],
{
    let mut i: usize = from;
    while i < to
        invariant
            from <= i <= to <= dst@.len(),
            dst@.len() == old(dst)@.len(),
            forall|j: int| 0 <= j < from ==> dst@[j] == old(dst)@[j],
            forall|j: int| from <= j < i ==> dst@[j] == 0,
            forall|j: int| i <= j < dst@.len() ==> dst@[j] == old(dst)@[j],
        decreases to - i,
    {
        dst[i] = 0;
        i = i + 1;
    }
}

/// The number of levels of a tree of height `h` that a buffer of `len`
/// bytes has room for: as many as fit, the root first; 0 if not even the
/// root fits.
pub fn hss_aux_levels(len: usize, h: u8) -> (levels: u8)
    requires
        h <= 25,
    ensures
        levels <= h + 1,
        levels >= 1 ==> content_len(levels as nat) + 32 <= len,
        levels == 0 <==> len < 65,
        levels <= h ==> content_len((levels + 1) as nat) + 32 > len,
{
    let mut levels: u8 = 0;
    let mut content: u64 = 1;
    let mut step: u64 = 32;
    proof {
        lemma2_to64();
        lemma_sizes(0);
    }
    while levels <= h && content + step + 32 <= len as u64
        invariant
            h <= 25,
            levels <= h + 1,
            content == content_len(levels as nat),
            step == 32 * pow2(levels as nat),
            levels >= 1 ==> content + 32 <= len,
            levels == 0 ==> content == 1 && step == 32,
            levels >= 1 ==> len >= 65,
            content <= 0x8000_0001,
            step <= 0x8000_0000,
        decreases h + 1 - levels,
    {
        proof {
            lemma_sizes(levels as nat);
            lemma_sizes((levels + 1) as nat);
        }
        content = content + step;
        step = step * 2;
        levels = levels + 1;
    }
    proof {
        lemma_sizes(levels as nat);
    }
    levels
}

/// Whether `nodes` holds the nodes of `t` with numbers above `r` and up to
/// `count`.
#[verifier::opaque]
pub open spec fn filled_above<H: Hasher>(t: Tree, nodes: Seq<u8>, r: nat, count: nat) -> bool {
    forall|k: nat, j: nat|
        is_node(t.h(), k, j) && r < j <= count ==> nodes.subrange(32 * (j - 1), 32 * (j as int))
            == #[trigger] node::<H>(t, k, j)
}

/// Where the nodes above `r` are in place, the children of `r` are.
proof fn lemma_children_filled<H: Hasher>(t: Tree, nodes: Seq<u8>, r: nat, count: nat, k: nat)
    requires
        filled_above::<H>(t, nodes, r, count),
        is_node(t.h(), k, r),
        2 * r + 1 <= count,
        k >= 1,
    ensures
        nodes.subrange(32 * (2 * r - 1), 32 * (2 * r) as int) == node::<H>(t, (k - 1) as nat, 2 * r),
        nodes.subrange(32 * (2 * r) as int, 32 * (2 * r + 1) as int) == node::<H>(
            t,
            (k - 1) as nat,
            2 * r + 1,
        ),
{
    reveal(filled_above);
    lemma_pow2_double((t.h() - k) as nat);
    assert(is_node(t.h(), (k - 1) as nat, 2 * r));
    assert(is_node(t.h(), (k - 1) as nat, 2 * r + 1));
}

/// No node has a number above the last.
proof fn lemma_fill_none<H: Hasher>(t: Tree, nodes: Seq<u8>, count: nat)
    ensures
        filled_above::<H>(t, nodes, count, count),
{
    reveal(filled_above);
}

/// A cache whose nodes are all in place is faithful.
proof fn lemma_fill_all<H: Hasher>(t: Tree, nodes: Seq<u8>, count: nat)
    requires
        filled_above::<H>(t, nodes, 0, count),
        nodes.len() == 32 * count,
    ensures
        cache_faithful::<H>(t, nodes),
{
    reveal(filled_above);
    reveal(cache_faithful);
    assert forall|k: nat, j: nat|
        is_node(t.h(), k, j) && 32 * j <= nodes.len() implies nodes.subrange(32 * (j - 1), 32 * (j as int))
        == #[trigger] node::<H>(t, k, j) by {
        lemma_pow2_monotonic(0, (t.h() - k) as nat);
        lemma2_to64();
    }
}

/// Writing the value of node `r` into its place puts one more node in
/// place.
proof fn lemma_fill_one<H: Hasher>(
    t: Tree,
    before: Seq<u8>,
    after: Seq<u8>,
    r: nat,
    count: nat,
    k: nat,
    value: Seq<u8>,
)
    requires
        filled_above::<H>(t, before, r, count),
        is_node(t.h(), k, r),
        1 <= r <= count,
        before.len() == 32 * count,
        value == node::<H>(t, k, r),
        value.len() == 32,
        after == before.subrange(0, 32 * (r - 1)) + value + before.subrange(
            32 * (r - 1) + 32,
            before.len() as int,
        ),
    ensures
        filled_above::<H>(t, after, (r - 1) as nat, count),
{
    reveal(filled_above);
    assert forall|k2: nat, j: nat| is_node(t.h(), k2, j) && r - 1 < j <= count implies after.subrange(
        32 * (j - 1),
        32 * (j as int),
    ) == #[trigger] node::<H>(t, k2, j) by {
        if j == r {
            lemma_node_height(t.h(), k2, k, j);
            assert(after.subrange(32 * (j - 1), 32 * (j as int)) =~= value);
        } else {
            assert(after.subrange(32 * (j - 1), 32 * (j as int)) =~= before.subrange(
                32 * (j - 1),
                32 * (j as int),
            ));
        }
    }
}

/// The values of the nodes of the first `levels` levels of the tree of
/// `top`, in the order of their numbers.
pub fn compute_top_nodes<H: Hasher>(top: &LmsPrivateKey, levels: u8) -> (nodes: Vec<u8>)
    requires
        1 <= levels <= top.lms_parameter.height() + 1,
    ensures
        nodes@.len() == 32 * node_count(levels as nat),
        cache_faithful::<H>(top.tree(), nodes@),
{
    let h = top.lms_parameter.get_tree_height();
    proof {
        lemma_sizes(levels as nat);
        lemma_sizes((levels - 1) as nat);
    }
    let count: u32 = (pow2_u64(levels as u32) - 1) as u32;
    let mut nodes: Vec<u8> = vec![0u8; 32 * (count as usize)];
    let empty: Vec<u8> = Vec::new();
    let mut depth: u8 = levels - 1;
    let mut first: u32 = pow2_u64(depth as u32) as u32;
    let mut r: u32 = count;
    let ghost t = top.tree();
    proof {
        lemma_fill_none::<H>(t, nodes@, count as nat);
    }
    while r > 0
        invariant
            h == t.h(),
            t == top.tree(),
            h <= 25,
            1 <= levels <= h + 1,
            count == node_count(levels as nat),
            count == pow2(levels as nat) - 1,
            count < 0x400_0000,
            nodes@.len() == 32 * count,
            empty@.len() == 0,
            r <= count,
            r >= 1 ==> depth < levels && first == pow2(depth as nat) && first <= r < 2 * first,
            filled_above::<H>(t, nodes@, r as nat, count as nat),
        decreases r,
    {
        let k: u8 = h - depth;
        let ghost before = nodes@;
        proof {
            lemma_empty_cache_faithful::<H>(t, empty@);
            lemma_pow2_double(depth as nat);
            assert(is_node(h as nat, k as nat, r as nat));
            crate::lms::tree::lemma_node_len::<H>(t, k as nat, r as nat);
        }
        let value = if 2 * r + 1 <= count {
            proof {
                if depth + 1 >= levels {
                    assert(2 * first == pow2(levels as nat));
                    assert(false);
                }
                lemma_children_filled::<H>(t, nodes@, r as nat, count as nat, k as nat);
            }
            let left_start: usize = 32 * (2 * r as usize - 1);
            let right_start: usize = 32 * (2 * r as usize);
            hash_inner::<H>(
                &top.lms_tree_identifier,
                r,
                &nodes.as_slice()[left_start..left_start + 32],
                &nodes.as_slice()[right_start..right_start + 32],
            )
        } else {
            get_tree_element::<H>(top, k, r, empty.as_slice())
        };
        let offset: usize = 32 * (r as usize - 1);
        write_bytes(nodes.as_mut_slice(), offset, value.as_slice());
        proof {
            lemma_fill_one::<H>(t, before, nodes@, r as nat, count as nat, k as nat, value@);
        }
        proof {
            lemma2_to64();
        }
        if r == first && depth > 0 {
            proof {
                lemma_pow2_double((depth - 1) as nat);
            }
            depth = depth - 1;
            first = first / 2;
        }
        r = r - 1;
    }
    proof {
        lemma_fill_all::<H>(t, nodes@, count as nat);
    }
    nodes
}

/// Fills `aux_data` with as many levels of the tree of `top` as it has room
/// for, clears what is left, and seals the buffer under `seed`. Leaves it as
/// it is if not even the root fits. Returns the length of marker and nodes,
/// or 0.
pub fn hss_populate_aux_data<H: Hasher>(aux_data: &mut [u8], top: &LmsPrivateKey, seed: &[u8; 32]) -> (content:
    usize)
    ensures
        final(aux_data)@.len() == old(aux_data)@.len(),
        old(aux_data)@.len() < 65 ==> content == 0 && final(aux_data)@ == old(aux_data)@,
        old(aux_data)@.len() >= 65 ==> aux_usable::<H>(final(aux_data)@, seed@) && content
            == content_len(stored_levels(final(aux_data)@)) && cache_faithful::<H>(
            top.tree(),
            final(aux_data)@.subrange(1, content as int),
        ) && (forall|j: int| content <= j < sealed_len(final(aux_data)@) ==> final(aux_data)@[j] == 0),
{
    let h = top.lms_parameter.get_tree_height();
    let levels = hss_aux_levels(aux_data.len(), h);
    if levels == 0 {
        return 0;
    }
    proof {
        lemma_sizes(levels as nat);
        lemma_pow2_monotonic(1, levels as nat);
        lemma2_to64();
    }
    let nodes = compute_top_nodes::<H>(top, levels);
    let content: usize = 1 + nodes.len();
    let sealed: usize = aux_data.len() - 32;
    aux_data[0] = AUX_DATA_POPULATED + levels;
    write_bytes(aux_data, 1, nodes.as_slice());
    clear_bytes(aux_data, content, sealed);
    let ghost filled = aux_data@;
    assert(filled.subrange(1, content as int) =~= nodes@);
    assert(filled[0] == AUX_DATA_POPULATED + levels);
    hss_finalize_aux_data::<H>(aux_data, seed);
    proof {
        assert(aux_data@[0] == aux_data@.subrange(0, sealed as int)[0]);
        assert(aux_data@.subrange(1, content as int) =~= aux_data@.subrange(0, sealed as int).subrange(
            1,
            content as int,
        ));
        assert(filled.subrange(1, content as int) =~= filled.subrange(0, sealed as int).subrange(
            1,
            content as int,
        ));
        assert forall|j: int| content <= j < sealed implies aux_data@[j] == 0 by {
            assert(aux_data@[j] == aux_data@.subrange(0, sealed as int)[j]);
            assert(filled[j] == filled.subrange(0, sealed as int)[j]);
        }
    }
    content
}

/// Makes `aux_data` ready for use with `key`: keeps it if its tag matches,
/// and fills it anew if not. Returns the length of marker and nodes, or 0
/// if the buffer is too short to hold anything.
pub fn hss_prepare_aux_data<H: Hasher>(aux_data: &mut [u8], key: &ReferenceImplPrivateKey) -> (content:
    usize)
    requires
        key.wf(),
    ensures
        final(aux_data)@.len() == old(aux_data)@.len(),
        aux_usable::<H>(old(aux_data)@, key@.seed) ==> final(aux_data)@ == old(aux_data)@,
        !aux_usable::<H>(old(aux_data)@, key@.seed) && old(aux_data)@.len() < 65 ==> final(aux_data)@
            == old(aux_data)@,
        !aux_usable::<H>(old(aux_data)@, key@.seed) && old(aux_data)@.len() >= 65 ==> aux_usable::<H>(
            final(aux_data)@,
            key@.seed,
        ) && aux_faithful::<H>(final(aux_data)@, key@),
        aux_faithful::<H>(old(aux_data)@, key@) ==> aux_faithful::<H>(final(aux_data)@, key@),
        content == 0 || 33 <= content <= final(aux_data)@.len(),
        content == 0 ==> !aux_usable::<H>(final(aux_data)@, key@.seed),
        content != 0 ==> aux_nodes::<H>(final(aux_data)@, key@.seed) == final(aux_data)@.subrange(
            1,
            content as int,
        ),
{
    match hss_check_aux_data::<H>(aux_data, &key.seed) {
        Ok(content) => content,
        Err(e) => {
            let ident = key.generate_root_seed_and_lms_tree_identifier::<H>();
            let top = LmsPrivateKey::new(
                ident.seed,
                ident.lms_tree_identifier,
                0,
                key.parameters[0].get_lmots_parameter(),
                key.parameters[0].get_lms_parameter(),
                None,
            );
            assert(top.tree() == level_tree::<H>(key@, 0));
            let content = hss_populate_aux_data::<H>(aux_data, &top, &key.seed);
            proof {
                if content != 0 {
                    lemma_sizes(stored_levels(aux_data@));
                    lemma_pow2_monotonic(1, stored_levels(aux_data@));
                    lemma2_to64();
                }
            }
            content
        },
    }
}

} // verus!
