//! A signature binds its message: it verifies for no other message, unless
//! the hash function collides.
//!
//! The statements of this module are reductions. Each takes a signature of
//! an honest signer over one message that verifies for another, and
//! concludes that two different byte strings with the same digest exist.
//! Nothing is assumed of the hash function.

use crate::constants::{D_INTR, D_LEAF, D_MESG, D_PBLC, D_SECRET};
use crate::hasher::{hash, Hasher};
use crate::hss::definitions::{hss_public_key, lemma_level_tree, level_public_key, level_tree};
use crate::hss::parameter::{lemma_level_index, level_index};
use crate::hss::reference_impl_private_key::PrivateKeyView;
use crate::hss::signing::{derived_randomizer, lemma_signature_wf};
use crate::hss::verify::{chain_verifies, hss_verifies, verifies};
use crate::lm_ots::definitions::{
    candidate_words, chain, chain_secret, lemma_candidate_words, lemma_chain_compose,
    lemma_chain_len, lemma_words_len, message_digest, public_key, public_key_candidate,
    public_words, signature_words, signed_digits,
};
use crate::lm_ots::parameter::{lemma_derived_values, LmotsAlgorithm, LmotsParameter};
use crate::lms::definitions::public_key_of;
use crate::lms::tree::{climb, leaf_value, parent_value, root, Tree};
use crate::lms::verify::lemma_sign_then_verify_lms;
use crate::util::coef::{coef_spec, is_width, lemma_coef_bound};
use crate::util::ustr::{be16, be32};
use vstd::arithmetic::power2::{lemma2_to64, pow2};
use vstd::prelude::*;

verus! {

/// Whether two different byte strings have the same digest under `H`.
pub open spec fn collides<H: Hasher>() -> bool {
    exists|a: Seq<u8>, b: Seq<u8>| a != b && #[trigger] hash::<H>(a) == #[trigger] hash::<H>(b)
}

/// Two different byte strings with the same digest are a collision.
pub proof fn lemma_collision<H: Hasher>(a: Seq<u8>, b: Seq<u8>)
    requires
        a != b,
        hash::<H>(a) == hash::<H>(b),
    ensures
        collides::<H>(),
{
}

/// Where two preimages agree up to their last parts and these differ, the
/// preimages differ.
pub proof fn lemma_tails_differ(head: Seq<u8>, a: Seq<u8>, b: Seq<u8>)
    requires
        a != b,
    ensures
        head + a != head + b,
{
    if head + a == head + b {
        assert((head + a).subrange(head.len() as int, (head + a).len() as int) =~= a);
        assert((head + b).subrange(head.len() as int, (head + b).len() as int) =~= b);
    }
}

/// Where two preimages end in the same part and what comes before differs
/// in one place, the preimages differ.
pub proof fn lemma_heads_differ(a: Seq<u8>, b: Seq<u8>, tail1: Seq<u8>, tail2: Seq<u8>, at: int)
    requires
        0 <= at < a.len(),
        0 <= at < b.len(),
        a[at] != b[at],
    ensures
        a + tail1 != b + tail2,
{
    assert((a + tail1)[at] == a[at]);
    assert((b + tail2)[at] == b[at]);
}

/// Two chains of one key that meet at position `m` have met at every
/// position before it that both have reached, unless the hash function
/// collides.
pub proof fn lemma_chains_meet<H: Hasher>(
    id: Seq<u8>,
    q: u32,
    i: u16,
    from1: int,
    from2: int,
    k: int,
    m: int,
    v1: Seq<u8>,
    v2: Seq<u8>,
)
    requires
        from1 <= k <= m,
        from2 <= k <= m,
        chain::<H>(id, q, i, from1, m, v1) == chain::<H>(id, q, i, from2, m, v2),
    ensures
        collides::<H>() || chain::<H>(id, q, i, from1, k, v1) == chain::<H>(id, q, i, from2, k, v2),
    decreases m - k,
{
    if m > k {
        let u1 = chain::<H>(id, q, i, from1, m - 1, v1);
        let u2 = chain::<H>(id, q, i, from2, m - 1, v2);
        let head = id + be32(q) + be16(i) + seq![(m - 1) as u8];
        if u1 != u2 {
            lemma_tails_differ(head, u1, u2);
            lemma_collision::<H>(head + u1, head + u2);
        } else {
            lemma_chains_meet::<H>(id, q, i, from1, from2, k, m - 1, v1, v2);
        }
    }
}

/// The values of a chain at two different positions differ, unless the hash
/// function collides: each is a digest of a string that names its
/// position.
pub proof fn lemma_positions_differ<H: Hasher>(seed: Seq<u8>, id: Seq<u8>, q: u32, i: u16, a: int, b: int)
    requires
        0 <= a < b <= 255,
        chain::<H>(id, q, i, 0, a, chain_secret::<H>(seed, id, q, i)) == chain::<H>(
            id,
            q,
            i,
            0,
            b,
            chain_secret::<H>(seed, id, q, i),
        ),
    ensures
        collides::<H>(),
{
    let x = chain_secret::<H>(seed, id, q, i);
    let head = id + be32(q) + be16(i);
    let at = head.len() as int;
    let upper = head + seq![(b - 1) as u8] + chain::<H>(id, q, i, 0, b - 1, x);
    assert(chain::<H>(id, q, i, 0, b, x) == hash::<H>(upper));
    if a == 0 {
        let lower = head + seq![D_SECRET] + seed;
        assert(chain::<H>(id, q, i, 0, 0, x) == hash::<H>(lower));
        lemma_heads_differ(
            head + seq![(b - 1) as u8],
            head + seq![D_SECRET],
            chain::<H>(id, q, i, 0, b - 1, x),
            seed,
            at,
        );
        lemma_collision::<H>(upper, lower);
    } else {
        let lower = head + seq![(a - 1) as u8] + chain::<H>(id, q, i, 0, a - 1, x);
        assert(chain::<H>(id, q, i, 0, a, x) == hash::<H>(lower));
        lemma_heads_differ(
            head + seq![(b - 1) as u8],
            head + seq![(a - 1) as u8],
            chain::<H>(id, q, i, 0, b - 1, x),
            chain::<H>(id, q, i, 0, a - 1, x),
            at,
        );
        lemma_collision::<H>(upper, lower);
    }
}

/// A chain value that the signer has advanced by one digit leads the
/// verifier to the end of the chain under that digit alone, unless the hash
/// function collides.
pub proof fn lemma_digit_bound<H: Hasher>(seed: Seq<u8>, id: Seq<u8>, q: u32, i: u16, a: int, b: int, end: int)
    requires
        0 <= a <= end <= 255,
        0 <= b <= end,
        a != b,
        chain::<H>(
            id,
            q,
            i,
            b,
            end,
            chain::<H>(id, q, i, 0, a, chain_secret::<H>(seed, id, q, i)),
        ) == chain::<H>(id, q, i, 0, end, chain_secret::<H>(seed, id, q, i)),
    ensures
        collides::<H>(),
{
    let x = chain_secret::<H>(seed, id, q, i);
    let y = chain::<H>(id, q, i, 0, a, x);
    lemma_chains_meet::<H>(id, q, i, b, 0, b, end, y, x);
    if !collides::<H>() {
        assert(chain::<H>(id, q, i, b, b, y) == y);
        if a < b {
            lemma_positions_differ::<H>(seed, id, q, i, a, b);
        } else {
            lemma_positions_differ::<H>(seed, id, q, i, b, a);
        }
    }
}

/// The first `k` chain ends that a verifier reaches take `32·k` bytes, and
/// the `j`-th of them is chain `j` continued from the `j`-th digit.
pub proof fn lemma_candidate_word<H: Hasher>(
    alg: LmotsAlgorithm,
    id: Seq<u8>,
    q: u32,
    digits: Seq<u8>,
    y: Seq<u8>,
    k: nat,
    j: int,
)
    requires
        0 <= j < k,
        y.len() >= 32 * k,
    ensures
        candidate_words::<H>(alg, id, q, digits, y, k).len() == 32 * k,
        candidate_words::<H>(alg, id, q, digits, y, k).subrange(32 * j, 32 * (j + 1)) == chain::<H>(
            id,
            q,
            j as u16,
            coef_spec(digits, j, alg.w()),
            alg.max_digit(),
            y.subrange(32 * j, 32 * (j + 1)),
        ),
    decreases k,
{
    let head = candidate_words::<H>(alg, id, q, digits, y, (k - 1) as nat);
    let start = y.subrange(32 * (k - 1), 32 * (k as int));
    let last = chain::<H>(
        id,
        q,
        (k - 1) as u16,
        coef_spec(digits, k - 1, alg.w()),
        alg.max_digit(),
        start,
    );
    lemma_chain_len::<H>(id, q, (k - 1) as u16, coef_spec(digits, k - 1, alg.w()), alg.max_digit(), start);
    lemma_candidate_len::<H>(alg, id, q, digits, y, (k - 1) as nat);
    if j < k - 1 {
        lemma_candidate_word::<H>(alg, id, q, digits, y, (k - 1) as nat, j);
        assert((head + last).subrange(32 * j, 32 * (j + 1)) =~= head.subrange(32 * j, 32 * (j + 1)));
    } else {
        assert((head + last).subrange(32 * j, 32 * (j + 1)) =~= last);
    }
}

/// The first `k` chain ends that a verifier reaches take `32·k` bytes.
pub proof fn lemma_candidate_len<H: Hasher>(
    alg: LmotsAlgorithm,
    id: Seq<u8>,
    q: u32,
    digits: Seq<u8>,
    y: Seq<u8>,
    k: nat,
)
    requires
        y.len() >= 32 * k,
    ensures
        candidate_words::<H>(alg, id, q, digits, y, k).len() == 32 * k,
    decreases k,
{
    if k > 0 {
        let start = y.subrange(32 * (k - 1), 32 * (k as int));
        lemma_chain_len::<H>(
            id,
            q,
            (k - 1) as u16,
            coef_spec(digits, k - 1, alg.w()),
            alg.max_digit(),
            start,
        );
        lemma_candidate_len::<H>(alg, id, q, digits, y, (k - 1) as nat);
    }
}

/// A byte is determined by its eight bits.
proof fn lemma_byte_of_bits(a: u8, b: u8)
    by (bit_vector)
    requires
        (a / 128) % 2 == (b / 128) % 2,
        (a / 64) % 2 == (b / 64) % 2,
        (a / 32) % 2 == (b / 32) % 2,
        (a / 16) % 2 == (b / 16) % 2,
        (a / 8) % 2 == (b / 8) % 2,
        (a / 4) % 2 == (b / 4) % 2,
        (a / 2) % 2 == (b / 2) % 2,
        a % 2 == b % 2,
    ensures
        a == b,
{
}

/// A byte is determined by its four digits of two bits.
proof fn lemma_byte_of_pairs(a: u8, b: u8)
    by (bit_vector)
    requires
        (a / 64) % 4 == (b / 64) % 4,
        (a / 16) % 4 == (b / 16) % 4,
        (a / 4) % 4 == (b / 4) % 4,
        a % 4 == b % 4,
    ensures
        a == b,
{
}

/// A byte is determined by its two digits of four bits.
proof fn lemma_byte_of_nibbles(a: u8, b: u8)
    by (bit_vector)
    requires
        (a / 16) % 16 == (b / 16) % 16,
        a % 16 == b % 16,
    ensures
        a == b,
{
}

/// The `t`-th digit of `w` bits of the byte `b`.
pub open spec fn digit_of(b: u8, t: int, w: int) -> int {
    (b as int / pow2((w * (8int / w - 1 - t)) as nat) as int) % pow2(w as nat) as int
}

/// The `t`-th digit of the `j`-th byte of `s` is the digit of `s` with
/// number `j·8/w + t`.
proof fn lemma_digit_of_byte(s: Seq<u8>, j: int, t: int, w: int)
    requires
        is_width(w),
        0 <= j,
        0 <= t < 8int / w,
    ensures
        coef_spec(s, j * (8int / w) + t, w) == digit_of(s[j], t, w),
        j * (8int / w) <= j * (8int / w) + t < (j + 1) * (8int / w),
{
    let d = 8int / w;
    let i = j * d + t;
    assert(j * d <= i < (j + 1) * d) by (nonlinear_arith)
        requires
            i == j * d + t,
            0 <= t < d,
    ;
    if w == 1 {
        assert(d == 8) by (nonlinear_arith)
            requires
                d == 8int / w,
                w == 1,
        ;
        assert(i == j * 8 + t) by (nonlinear_arith)
            requires
                i == j * d + t,
                d == 8,
        ;
        assert((i * 1) / 8 == j && i % 8 == t);
    } else if w == 2 {
        assert(d == 4) by (nonlinear_arith)
            requires
                d == 8int / w,
                w == 2,
        ;
        assert(i == j * 4 + t) by (nonlinear_arith)
            requires
                i == j * d + t,
                d == 4,
        ;
        assert((i * 2) / 8 == j && i % 4 == t);
    } else if w == 4 {
        assert(d == 2) by (nonlinear_arith)
            requires
                d == 8int / w,
                w == 4,
        ;
        assert(i == j * 2 + t) by (nonlinear_arith)
            requires
                i == j * d + t,
                d == 2,
        ;
        assert((i * 4) / 8 == j && i % 2 == t);
    } else {
        assert(w == 8);
        assert(d == 1) by (nonlinear_arith)
            requires
                d == 8int / w,
                w == 8,
        ;
        assert(i == j) by (nonlinear_arith)
            requires
                i == j * d + t,
                d == 1,
                t == 0,
        ;
        assert((i * 8) / 8 == j && i % 1 == t);
    }
}

/// A byte is determined by its digits.
pub proof fn lemma_byte_of_digits(s1: Seq<u8>, s2: Seq<u8>, j: int, w: int)
    requires
        is_width(w),
        0 <= j < s1.len(),
        0 <= j < s2.len(),
        forall|i: int|
            j * (8int / w) <= i < (j + 1) * (8int / w) ==> #[trigger] coef_spec(s1, i, w) == coef_spec(
                s2,
                i,
                w,
            ),
    ensures
        s1[j] == s2[j],
{
    let a = s1[j];
    let b = s2[j];
    assert forall|t: int| 0 <= t < 8int / w implies #[trigger] digit_of(a, t, w) == digit_of(b, t, w) by {
        lemma_digit_of_byte(s1, j, t, w);
        lemma_digit_of_byte(s2, j, t, w);
        assert(coef_spec(s1, j * (8int / w) + t, w) == coef_spec(s2, j * (8int / w) + t, w));
    }
    if w == 8 {
        assert(8int / w == 1) by (nonlinear_arith)
            requires
                w == 8,
        ;
        assert(digit_of(a, 0, 8) == digit_of(b, 0, 8));
        lemma_digits_of_width_8(a);
        lemma_digits_of_width_8(b);
    } else if w == 4 {
        assert(8int / w == 2) by (nonlinear_arith)
            requires
                w == 4,
        ;
        assert(digit_of(a, 0, 4) == digit_of(b, 0, 4));
        assert(digit_of(a, 1, 4) == digit_of(b, 1, 4));
        lemma_digits_of_width_4(a);
        lemma_digits_of_width_4(b);
        lemma_byte_of_nibbles(a, b);
    } else if w == 2 {
        assert(8int / w == 4) by (nonlinear_arith)
            requires
                w == 2,
        ;
        assert(digit_of(a, 0, 2) == digit_of(b, 0, 2));
        assert(digit_of(a, 1, 2) == digit_of(b, 1, 2));
        assert(digit_of(a, 2, 2) == digit_of(b, 2, 2));
        assert(digit_of(a, 3, 2) == digit_of(b, 3, 2));
        lemma_digits_of_width_2(a);
        lemma_digits_of_width_2(b);
        lemma_byte_of_pairs(a, b);
    } else {
        assert(8int / w == 8) by (nonlinear_arith)
            requires
                w == 1,
        ;
        assert(digit_of(a, 0, 1) == digit_of(b, 0, 1));
        assert(digit_of(a, 1, 1) == digit_of(b, 1, 1));
        assert(digit_of(a, 2, 1) == digit_of(b, 2, 1));
        assert(digit_of(a, 3, 1) == digit_of(b, 3, 1));
        assert(digit_of(a, 4, 1) == digit_of(b, 4, 1));
        assert(digit_of(a, 5, 1) == digit_of(b, 5, 1));
        assert(digit_of(a, 6, 1) == digit_of(b, 6, 1));
        assert(digit_of(a, 7, 1) == digit_of(b, 7, 1));
        lemma_digits_of_width_1(a);
        lemma_digits_of_width_1(b);
        lemma_byte_of_bits(a, b);
    }
}

/// The digit of eight bits of a byte is the byte.
proof fn lemma_digits_of_width_8(a: u8)
    ensures
        digit_of(a, 0, 8) == a,
{
    lemma2_to64();
    assert(pow2((8 * (8int / 8 - 1 - 0)) as nat) == 1);
    assert(pow2(8int as nat) == 256);
    assert((a as int / 1) % 256 == a);
}

/// The digits of four bits of a byte, in numbers.
proof fn lemma_digits_of_width_4(a: u8)
    ensures
        digit_of(a, 0, 4) == (a / 16) % 16,
        digit_of(a, 1, 4) == a % 16,
{
    lemma2_to64();
    assert(pow2((4 * (8int / 4 - 1 - 0)) as nat) == 16);
    assert(pow2((4 * (8int / 4 - 1 - 1)) as nat) == 1);
}

/// The digits of two bits of a byte, in numbers.
proof fn lemma_digits_of_width_2(a: u8)
    ensures
        digit_of(a, 0, 2) == (a / 64) % 4,
        digit_of(a, 1, 2) == (a / 16) % 4,
        digit_of(a, 2, 2) == (a / 4) % 4,
        digit_of(a, 3, 2) == a % 4,
{
    lemma2_to64();
    assert(pow2((2 * (8int / 2 - 1 - 0)) as nat) == 64);
    assert(pow2((2 * (8int / 2 - 1 - 1)) as nat) == 16);
    assert(pow2((2 * (8int / 2 - 1 - 2)) as nat) == 4);
    assert(pow2((2 * (8int / 2 - 1 - 3)) as nat) == 1);
}

/// The bits of a byte, in numbers.
proof fn lemma_digits_of_width_1(a: u8)
    ensures
        digit_of(a, 0, 1) == (a / 128) % 2,
        digit_of(a, 1, 1) == (a / 64) % 2,
        digit_of(a, 2, 1) == (a / 32) % 2,
        digit_of(a, 3, 1) == (a / 16) % 2,
        digit_of(a, 4, 1) == (a / 8) % 2,
        digit_of(a, 5, 1) == (a / 4) % 2,
        digit_of(a, 6, 1) == (a / 2) % 2,
        digit_of(a, 7, 1) == a % 2,
{
    lemma2_to64();
    assert(pow2((1 * (8int / 1 - 1 - 0)) as nat) == 128);
    assert(pow2((1 * (8int / 1 - 1 - 1)) as nat) == 64);
    assert(pow2((1 * (8int / 1 - 1 - 2)) as nat) == 32);
    assert(pow2((1 * (8int / 1 - 1 - 3)) as nat) == 16);
    assert(pow2((1 * (8int / 1 - 1 - 4)) as nat) == 8);
    assert(pow2((1 * (8int / 1 - 1 - 5)) as nat) == 4);
    assert(pow2((1 * (8int / 1 - 1 - 6)) as nat) == 2);
    assert(pow2((1 * (8int / 1 - 1 - 7)) as nat) == 1);
}

/// Two different digests differ in one of their digits.
pub proof fn lemma_digit_differs(s1: Seq<u8>, s2: Seq<u8>, w: int) -> (at: int)
    requires
        is_width(w),
        s1.len() >= 32,
        s2.len() >= 32,
        s1.subrange(0, 32) != s2.subrange(0, 32),
    ensures
        0 <= at < 256int / w,
        coef_spec(s1, at, w) != coef_spec(s2, at, w),
{
    if forall|i: int| 0 <= i < 256int / w ==> coef_spec(s1, i, w) == coef_spec(s2, i, w) {
        assert forall|j: int| 0 <= j < 32 implies s1[j] == s2[j] by {
            assert forall|i: int| j * (8int / w) <= i < (j + 1) * (8int / w) implies #[trigger] coef_spec(
                s1,
                i,
                w,
            ) == coef_spec(s2, i, w) by {
                assert(0 <= i < 256int / w) by (nonlinear_arith)
                    requires
                        0 <= j < 32,
                        j * (8int / w) <= i < (j + 1) * (8int / w),
                        w == 1 || w == 2 || w == 4 || w == 8,
                ;
            }
            lemma_byte_of_digits(s1, s2, j, w);
        }
        assert(s1.subrange(0, 32) =~= s2.subrange(0, 32));
        0
    } else {
        choose|i: int| 0 <= i < 256int / w && coef_spec(s1, i, w) != coef_spec(s2, i, w)
    }
}

/// A one-time signature binds its message: if the signature of an honest
/// signer over `message` leads a verifier of `other` to the signer's
/// public key, and `other` is not `message`, the hash function collides.
pub proof fn lemma_one_time_signature_binds<H: Hasher>(
    alg: LmotsAlgorithm,
    seed: Seq<u8>,
    id: Seq<u8>,
    q: u32,
    c: Seq<u8>,
    message: Seq<u8>,
    other: Seq<u8>,
)
    requires
        message != other,
        public_key_candidate::<H>(
            alg,
            id,
            q,
            c,
            signature_words::<H>(
                alg,
                seed,
                id,
                q,
                signed_digits::<H>(alg, id, q, c, message),
                alg.p() as nat,
            ),
            other,
        ) == public_key::<H>(alg, seed, id, q),
    ensures
        collides::<H>(),
{
    alg.lemma_of_type();
    lemma_derived_values(alg.w());
    lemma2_to64();
    let p = alg.p() as nat;
    let w = alg.w();
    let digits = signed_digits::<H>(alg, id, q, c, message);
    let digits2 = signed_digits::<H>(alg, id, q, c, other);
    let y = signature_words::<H>(alg, seed, id, q, digits, p);
    let reached = candidate_words::<H>(alg, id, q, digits2, y, p);
    let ends = public_words::<H>(alg, seed, id, q, p);
    let head = id + be32(q) + be16(D_PBLC);
    lemma_words_len::<H>(alg, seed, id, q, digits, p);
    if reached != ends {
        lemma_tails_differ(head, reached, ends);
        lemma_collision::<H>(head + reached, head + ends);
    } else {
        let d1 = message_digest::<H>(id, q, c, message);
        let d2 = message_digest::<H>(id, q, c, other);
        let head = id + be32(q) + be16(D_MESG) + c;
        if d1 == d2 {
            lemma_tails_differ(head, message, other);
            lemma_collision::<H>(head + message, head + other);
        } else {
            H::lemma_digest_len(head + message);
            H::lemma_digest_len(head + other);
            assert(digits.subrange(0, 32) =~= d1);
            assert(digits2.subrange(0, 32) =~= d2);
            let at = lemma_digit_differs(digits, digits2, w);
            assert(at < p);
            lemma_candidate_words::<H>(alg, seed, id, q, digits, p);
            lemma_candidate_word::<H>(alg, id, q, digits, y, p, at);
            lemma_candidate_word::<H>(alg, id, q, digits2, y, p, at);
            crate::lm_ots::definitions::lemma_signature_words::<H>(alg, seed, id, q, digits, p, at);
            lemma_coef_bound(digits, at, w);
            lemma_coef_bound(digits2, at, w);
            let a = coef_spec(digits, at, w);
            let b = coef_spec(digits2, at, w);
            let x = chain_secret::<H>(seed, id, q, at as u16);
            lemma_chain_compose::<H>(id, q, at as u16, 0, a, alg.max_digit(), x);
            lemma_digit_bound::<H>(seed, id, q, at as u16, a, b, alg.max_digit());
        }
    }
}

/// Two climbs along one path that start from different values and reach the
/// same root show a collision.
pub proof fn lemma_climbs_meet<H: Hasher>(
    id: Seq<u8>,
    h: nat,
    path: Seq<u8>,
    k: nat,
    r: nat,
    v1: Seq<u8>,
    v2: Seq<u8>,
)
    requires
        v1 != v2,
        v1.len() == v2.len(),
        climb::<H>(id, h, path, k, r, v1) == climb::<H>(id, h, path, k, r, v2),
    ensures
        collides::<H>(),
    decreases h - k,
{
    if k < h {
        let other = path.subrange(32 * (k as int), 32 * (k as int + 1));
        let p1 = parent_value::<H>(id, r, v1, other);
        let p2 = parent_value::<H>(id, r, v2, other);
        let head = id + be32((r / 2) as u32) + be16(D_INTR);
        if p1 == p2 {
            if r % 2 == 1 {
                lemma_tails_differ(head + other, v1, v2);
                lemma_collision::<H>(head + other + v1, head + other + v2);
            } else {
                let at = choose|at: int| 0 <= at < v1.len() && v1[at] != v2[at];
                assert(v1 =~= v2 || exists|at: int| 0 <= at < v1.len() && v1[at] != v2[at]);
                lemma_heads_differ(head + v1, head + v2, other, other, head.len() + at);
                lemma_collision::<H>(head + v1 + other, head + v2 + other);
            }
        } else {
            H::lemma_digest_len(
                if r % 2 == 1 {
                    head + other + v1
                } else {
                    head + v1 + other
                },
            );
            H::lemma_digest_len(
                if r % 2 == 1 {
                    head + other + v2
                } else {
                    head + v2 + other
                },
            );
            lemma_climbs_meet::<H>(id, h, path, k + 1, r / 2, p1, p2);
        }
    }
}

/// A tree signature binds its message: if the signature of an honest
/// signer over `message` verifies for `other` under the public key of the
/// signer's tree, and `other` is not `message`, the hash function collides.
pub proof fn lemma_tree_signature_binds<H: Hasher>(
    t: Tree,
    q: u32,
    c: Seq<u8>,
    message: Seq<u8>,
    other: Seq<u8>,
)
    requires
        message != other,
        q < t.lms.leaves(),
        crate::lms::verify::verifies::<H>(
            public_key_of::<H>(t),
            crate::lms::signing::signature_with::<H>(t, q, c, message),
            other,
        ),
    ensures
        collides::<H>(),
{
    let sig = crate::lms::signing::signature_with::<H>(t, q, c, message);
    lemma_sign_then_verify_lms::<H>(t, q, c, message);
    crate::lm_ots::definitions::lemma_sign_then_verify::<H>(t.ots, t.seed, t.id, q, c, message);
    let r = pow2(t.h()) + q as nat;
    let honest = public_key::<H>(t.ots, t.seed, t.id, q);
    let reached = public_key_candidate::<H>(t.ots, t.id, q, c, sig.ots.words, other);
    let v1 = leaf_value::<H>(t.id, r, honest);
    let v2 = leaf_value::<H>(t.id, r, reached);
    let head = t.id + be32(r as u32) + be16(D_LEAF);
    H::lemma_digest_len(head + honest);
    H::lemma_digest_len(head + reached);
    if v1 != v2 {
        lemma_climbs_meet::<H>(t.id, t.h(), sig.path, 0, r, v1, v2);
    } else if honest != reached {
        lemma_tails_differ(head, honest, reached);
        lemma_collision::<H>(head + honest, head + reached);
    } else {
        lemma_one_time_signature_binds::<H>(t.ots, t.seed, t.id, q, c, message, other);
    }
}

/// Where the chain of a signature of an honest signer holds from level `i`
/// on for some message, the last level's signature verifies for that
/// message under the public key of the last level's tree.
pub proof fn lemma_chain_reaches_bottom<H: Hasher>(
    key: PrivateKeyView,
    c: Seq<u8>,
    message: Seq<u8>,
    other: Seq<u8>,
    i: int,
)
    requires
        key.wf(),
        0 <= i < key.params.len(),
        chain_verifies::<H>(
            level_public_key::<H>(key, i as nat),
            crate::hss::signing::signature_with::<H>(key, c, message),
            i,
            other,
        ),
    ensures
        crate::lms::verify::verifies::<H>(
            level_public_key::<H>(key, (key.params.len() - 1) as nat),
            crate::hss::signing::signature_with::<H>(key, c, message).sig,
            other,
        ),
    decreases key.params.len() - i,
{
    if i < key.params.len() - 1 {
        lemma_chain_reaches_bottom::<H>(key, c, message, other, i + 1);
    }
}

/// An HSS signature binds its message: if the signature that a well-formed
/// key makes over `message` verifies for `other` under the key's public
/// key, and `other` is not `message`, the hash function collides. So to
/// flip a bit of a signed message is to make verification fail, or to have
/// found a collision.
pub proof fn lemma_signature_binds<H: Hasher>(key: PrivateKeyView, message: Seq<u8>, other: Seq<u8>)
    requires
        key.wf(),
        message != other,
        hss_verifies::<H>(
            other,
            crate::hss::signing::signature::<H>(key, message).encode(),
            hss_public_key::<H>(key).encode(),
        ),
    ensures
        collides::<H>(),
{
    let c = derived_randomizer::<H>(key);
    let sig = crate::hss::signing::signature_with::<H>(key, c, message);
    let last = (key.params.len() - 1) as nat;
    lemma_signature_wf::<H>(key, Seq::new(32, |i: int| 0u8), message);
    lemma_signature_wf::<H>(key, c, message);
    crate::hss::signing::lemma_decode_encode(sig);
    lemma_level_tree::<H>(key, 0);
    hss_public_key::<H>(key).lemma_decode_encode();
    assert(verifies::<H>(hss_public_key::<H>(key), sig, other));
    lemma_chain_reaches_bottom::<H>(key, c, message, other, 0);
    lemma_level_index(key.params, key.q, last as int);
    lemma_level_tree::<H>(key, last);
    lemma_tree_signature_binds::<H>(
        level_tree::<H>(key, last),
        level_index(key.params, key.q, last as int),
        c,
        message,
        other,
    );
}

} // verus!
