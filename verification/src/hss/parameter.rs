//! The parameter list of an HSS key: one LM-OTS and one LMS parameter set
//! for each level.

use crate::constants::{MAX_ALLOWED_HSS_LEVELS, MAX_TOTAL_TREE_HEIGHT};
use crate::lm_ots::parameter::{LmotsAlgorithm, LmotsParameter};
use crate::lms::parameter::LmsAlgorithm;
use crate::util::helper::lemma_pow2_monotonic;
use vstd::arithmetic::power2::{lemma_pow2_adds, pow2};
use vstd::prelude::*;

verus! {

/// The parameter sets of one level.
#[derive(Clone, Copy, Debug, PartialEq, Eq, Structural)]
pub struct HssParameter {
    pub lmots_parameter: LmotsAlgorithm,
    pub lms_parameter: LmsAlgorithm,
}

impl HssParameter {
    /// The LM-OTS parameter set of this level.
    pub open spec fn ots(self) -> LmotsAlgorithm {
        self.lmots_parameter
    }

    /// The LMS parameter set of this level.
    pub open spec fn lms(self) -> LmsAlgorithm {
        self.lms_parameter
    }

    /// The level with these two parameter sets.
    pub open spec fn of(ots: LmotsAlgorithm, lms: LmsAlgorithm) -> HssParameter {
        HssParameter { lmots_parameter: ots, lms_parameter: lms }
    }

    /// A level with the given parameter sets.
    pub fn new(lmots_parameter: LmotsAlgorithm, lms_parameter: LmsAlgorithm) -> (p: HssParameter)
        ensures
            p == Self::of(lmots_parameter, lms_parameter),
    {
        HssParameter { lmots_parameter, lms_parameter }
    }

    /// The LM-OTS parameter set.
    pub fn get_lmots_parameter(&self) -> (ots: LmotsAlgorithm)
        ensures
            ots == self.ots(),
    {
        self.lmots_parameter
    }

    /// The LMS parameter set.
    pub fn get_lms_parameter(&self) -> (lms: LmsAlgorithm)
        ensures
            lms == self.lms(),
    {
        self.lms_parameter
    }

    /// The level that is used where none is asked for: Winternitz width 1
    /// and tree height 5.
    pub fn construct_default_parameters() -> (p: HssParameter)
        ensures
            p == Self::of(LmotsAlgorithm::LmotsW1, LmsAlgorithm::LmsH5),
    {
        HssParameter {
            lmots_parameter: LmotsAlgorithm::LmotsW1,
            lms_parameter: LmsAlgorithm::LmsH5,
        }
    }
}

/// The sum of the tree heights of level `i` and all levels below it.
pub open spec fn height_from(params: Seq<HssParameter>, i: int) -> nat
    decreases params.len() - i,
{
    if i < 0 || i >= params.len() {
        0
    } else {
        params[i].lms().height() + height_from(params, i + 1)
    }
}

/// The sum of the tree heights of all levels.
pub open spec fn total_height(params: Seq<HssParameter>) -> nat {
    height_from(params, 0)
}

/// Whether `params` is the parameter list of a key: one to eight levels,
/// with at most `2^63` signatures in all.
pub open spec fn params_valid(params: Seq<HssParameter>) -> bool {
    &&& 1 <= params.len() <= MAX_ALLOWED_HSS_LEVELS
    &&& total_height(params) <= MAX_TOTAL_TREE_HEIGHT
}

/// The total lifetime `T`: the product of the numbers of leaves of all
/// levels.
pub open spec fn total_lifetime(params: Seq<HssParameter>) -> nat {
    pow2(total_height(params))
}

/// The leaf that the tree of level `i` uses for the signature with number
/// `q`: the `i`-th digit of `q` in the positional system whose `j`-th digit
/// has base `2^h_j`, most significant digit at the top level.
pub open spec fn level_index(params: Seq<HssParameter>, q: u64, i: int) -> u32 {
    ((q as nat / pow2(height_from(params, i + 1))) % pow2(params[i].lms().height())) as u32
}

/// The heights of the lower levels sum to less than those of all.
pub proof fn lemma_height_from(params: Seq<HssParameter>, i: int)
    requires
        0 <= i <= params.len(),
    ensures
        height_from(params, i) <= total_height(params),
        i < params.len() ==> height_from(params, i) == params[i].lms().height() + height_from(
            params,
            i + 1,
        ),
        i < params.len() ==> 2 <= params[i].lms().height() <= 25,
    decreases i,
{
    if i > 0 {
        lemma_height_from(params, i - 1);
    }
    if i < params.len() {
        params[i].lms().lemma_of_type();
    }
}

/// A digit of the used-leaves counter is a leaf of its level's tree.
pub proof fn lemma_level_index(params: Seq<HssParameter>, q: u64, i: int)
    requires
        0 <= i < params.len(),
    ensures
        level_index(params, q, i) < params[i].lms().leaves(),
        level_index(params, q, i) == (q as nat / pow2(height_from(params, i + 1))) % pow2(
            params[i].lms().height(),
        ),
{
    params[i].lms().lemma_of_type();
    let d = pow2(params[i].lms().height());
    let x = q as nat / pow2(height_from(params, i + 1));
    assert(0 <= x % d < d) by (nonlinear_arith)
        requires
            d > 0,
    ;
}

/// Below the total lifetime, the digit of the top level is the counter
/// divided by the number of signatures of one top-level leaf.
pub proof fn lemma_top_index(params: Seq<HssParameter>, q: u64)
    requires
        params.len() >= 1,
        q < total_lifetime(params),
    ensures
        level_index(params, q, 0) == q as nat / pow2(height_from(params, 1)),
{
    lemma_height_from(params, 0);
    let below = height_from(params, 1);
    let h = params[0].lms().height();
    lemma_pow2_adds(h, below);
    lemma_pow2_monotonic(0, below);
    lemma_pow2_monotonic(0, h);
    params[0].lms().lemma_of_type();
    let a = pow2(h) as int;
    let b = pow2(below) as int;
    let x = q as int;
    assert(x / b < a) by (nonlinear_arith)
        requires
            0 <= x < a * b,
            b > 0,
            a > 0,
    ;
    assert((x / b) % a == x / b) by (nonlinear_arith)
        requires
            0 <= x / b < a,
    ;
}

/// Checks a parameter list and sums its tree heights.
pub fn sum_heights(parameters: &[HssParameter]) -> (total: Option<u32>)
    ensures
        total is Some <==> params_valid(parameters@),
        total matches Some(t) ==> t == total_height(parameters@),
{
    if parameters.len() < 1 || parameters.len() > MAX_ALLOWED_HSS_LEVELS {
        return None;
    }
    let mut total: u32 = 0;
    let mut i: usize = parameters.len();
    while i > 0
        invariant
            i <= parameters@.len() <= 8,
            total == height_from(parameters@, i as int),
            total <= 25 * (parameters@.len() - i),
        decreases i,
    {
        i = i - 1;
        proof {
            lemma_height_from(parameters@, i as int);
        }
        total = total + parameters[i].get_lms_parameter().get_tree_height() as u32;
    }
    if total > MAX_TOTAL_TREE_HEIGHT {
        None
    } else {
        Some(total)
    }
}

/// Whether the leaves that the levels use at counter `q1` come before those
/// at counter `q2`: from level `from` on, the first level at which they
/// differ is `at`, and there the leaf of `q1` is the smaller.
pub open spec fn leaves_before(params: Seq<HssParameter>, q1: u64, q2: u64, from: int, at: int) -> bool {
    &&& from <= at < params.len()
    &&& forall|j: int| from <= j < at ==> level_index(params, q1, j) == level_index(params, q2, j)
    &&& level_index(params, q1, at) < level_index(params, q2, at)
}

/// Two counters that agree above level `i` and differ below it use leaves
/// that differ at some level from `i` on, the smaller counter the smaller
/// leaf.
proof fn lemma_leaves_before_from(params: Seq<HssParameter>, q1: u64, q2: u64, i: int) -> (at: int)
    requires
        0 <= i <= params.len(),
        q1 < q2,
        q1 as int / pow2(height_from(params, i)) as int == q2 as int / pow2(height_from(params, i)) as int,
    ensures
        leaves_before(params, q1, q2, i, at),
    decreases params.len() - i,
{
    if i == params.len() {
        vstd::arithmetic::power2::lemma2_to64();
        assert(height_from(params, i) == 0);
        assert(pow2(height_from(params, i)) as int == 1);
        assert(q1 as int / 1 == q1 && q2 as int / 1 == q2);
        assert(false);
        0
    } else {
        let h = params[i].lms().height();
        let below = height_from(params, i + 1);
        let a = pow2(h) as int;
        let b = pow2(below) as int;
        lemma_pow2_monotonic(0, h);
        lemma_pow2_monotonic(0, below);
        lemma_pow2_adds(below, h);
        assert(pow2(height_from(params, i)) == b * a) by {
            assert(height_from(params, i) == below + h);
        }
        let x1 = q1 as int / b;
        let x2 = q2 as int / b;
        vstd::arithmetic::div_mod::lemma_div_denominator(q1 as int, b, a);
        vstd::arithmetic::div_mod::lemma_div_denominator(q2 as int, b, a);
        vstd::arithmetic::div_mod::lemma_fundamental_div_mod(x1, a);
        vstd::arithmetic::div_mod::lemma_fundamental_div_mod(x2, a);
        vstd::arithmetic::div_mod::lemma_div_is_ordered(q1 as int, q2 as int, b);
        lemma_level_index(params, q1, i);
        lemma_level_index(params, q2, i);
        assert(x1 / a == x2 / a);
        assert(x1 <= x2);
        if x1 % a == x2 % a {
            assert(x1 == x2);
            let at = lemma_leaves_before_from(params, q1, q2, i + 1);
            at
        } else {
            assert(x1 % a < x2 % a);
            i
        }
    }
}

/// The smaller of two counters below the total lifetime uses the smaller
/// leaves: at the first level at which the leaves of the two differ, and
/// there is such a level, the leaf of the smaller counter is the smaller.
/// So no two signatures of one key use the same leaf at every level, and
/// the leaves grow from signature to signature.
pub proof fn lemma_leaves_increase(params: Seq<HssParameter>, q1: u64, q2: u64) -> (at: int)
    requires
        params_valid(params),
        q1 < q2 < total_lifetime(params),
    ensures
        leaves_before(params, q1, q2, 0, at),
{
    let t = total_lifetime(params) as int;
    assert(q1 as int / t == 0 && q2 as int / t == 0) by (nonlinear_arith)
        requires
            0 <= q1 < t,
            0 <= q2 < t,
    ;
    lemma_leaves_before_from(params, q1, q2, 0)
}

} // verus!
