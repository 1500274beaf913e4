//! The parameters of the single-subtree extension.

use crate::hss::parameter::HssParameter;
use crate::lms::parameter::LmsAlgorithm;
use crate::util::helper::{lemma_pow2_monotonic, pow2_u64};
use vstd::arithmetic::power2::pow2;
use vstd::prelude::*;

verus! {

/// Which part of the top-level tree a signing entity owns: the tree is
/// divided `top_div_height` levels below the root into `2^top_div_height`
/// subtrees, and the entity `signing_entity_idx`, counted from 0, owns one.
#[derive(Clone, Copy, Debug, PartialEq, Eq, Structural)]
pub struct SstExtension {
    pub signing_entity_idx: u8,
    pub top_div_height: u8,
}

impl SstExtension {
    /// Whether the extension fits a top-level tree of height `h`: the
    /// division is at least one level and at most eight levels deep, not
    /// deeper than the tree, and the entity is one of the `2^d`.
    pub open spec fn fits(self, h: nat) -> bool {
        &&& 1 <= self.top_div_height <= 8
        &&& self.top_div_height <= h
        &&& self.signing_entity_idx < pow2(self.top_div_height as nat)
    }

    /// The number of leaves of one entity: `2^(h − d)`.
    pub open spec fn leaves_per_entity(self, h: nat) -> nat {
        pow2((h - self.top_div_height) as nat)
    }

    /// The first leaf of the entity: `e · 2^(h − d)`.
    pub open spec fn first_leaf(self, h: nat) -> nat {
        self.signing_entity_idx as nat * self.leaves_per_entity(h)
    }

    /// The leaf after the last leaf of the entity: `(e + 1) · 2^(h − d)`.
    pub open spec fn end_leaf(self, h: nat) -> nat {
        (self.signing_entity_idx as nat + 1) * self.leaves_per_entity(h)
    }

    /// The ranges of two entities do not overlap, and every range lies
    /// within the tree.
    pub proof fn lemma_ranges_disjoint(self, other: SstExtension, h: nat)
        requires
            self.fits(h),
            other.fits(h),
            self.top_div_height == other.top_div_height,
            self.signing_entity_idx < other.signing_entity_idx,
        ensures
            self.first_leaf(h) < self.end_leaf(h) <= other.first_leaf(h),
            other.end_leaf(h) <= pow2(h),
    {
        let d = self.top_div_height as nat;
        let per = self.leaves_per_entity(h);
        lemma_pow2_monotonic((h - d) as nat, h);
        vstd::arithmetic::power2::lemma_pow2_adds(d, (h - d) as nat);
        let a = self.signing_entity_idx as nat;
        let b = other.signing_entity_idx as nat;
        assert((a + 1) * per <= b * per) by (nonlinear_arith)
            requires
                a + 1 <= b,
                per >= 1,
        ;
        assert(a * per < (a + 1) * per) by (nonlinear_arith)
            requires
                per >= 1,
        ;
        assert((b + 1) * per <= pow2(d) * per) by (nonlinear_arith)
            requires
                b + 1 <= pow2(d),
                per >= 1,
        ;
    }

    /// Whether the extension fits a top-level tree with parameters `lms`.
    pub fn check(&self, lms: LmsAlgorithm) -> (ok: bool)
        ensures
            ok == self.fits(lms.height()),
    {
        if self.top_div_height < 1 || self.top_div_height > 8 || self.top_div_height
            > lms.get_tree_height() {
            return false;
        }
        let entities = pow2_u64(self.top_div_height as u32);
        (self.signing_entity_idx as u64) < entities
    }

    /// The first leaf of the entity and the leaf after its last.
    pub fn leaf_range(&self, lms: LmsAlgorithm) -> (range: (u32, u32))
        requires
            self.fits(lms.height()),
        ensures
            range.0 == self.first_leaf(lms.height()),
            range.1 == self.end_leaf(lms.height()),
            range.0 < range.1 <= lms.leaves(),
    {
        let h = lms.get_tree_height();
        let d = self.top_div_height;
        let per = pow2_u64((h - d) as u32);
        let e = self.signing_entity_idx as u64;
        proof {
            lms.lemma_of_type();
            vstd::arithmetic::power2::lemma_pow2_adds(d as nat, (h - d) as nat);
            assert((e + 1) * per <= pow2(d as nat) * per) by (nonlinear_arith)
                requires
                    e + 1 <= pow2(d as nat),
                    per >= 1,
            ;
            assert(e * per < (e + 1) * per) by (nonlinear_arith)
                requires
                    per >= 1,
                    e >= 0,
            ;
        }
        ((e * per) as u32, ((e + 1) * per) as u32)
    }
}

/// The parameters of a signing entity: the parameter list of the key, the
/// height of the division of the top-level tree, and the index of the
/// entity, counted from 0. A division of height 0 is none: the one entity
/// owns the whole tree.
pub struct SstsParameter {
    hss_parameters: Vec<HssParameter>,
    top_div_height: u8,
    signing_entity_idx: u8,
}

impl SstsParameter {
    /// The parameter list.
    pub closed spec fn params(&self) -> Seq<HssParameter> {
        self.hss_parameters@
    }

    /// The height of the division.
    pub closed spec fn div_height(&self) -> u8 {
        self.top_div_height
    }

    /// The index of the signing entity.
    pub closed spec fn entity(&self) -> u8 {
        self.signing_entity_idx
    }

    /// The single-subtree extension of the entity's key: none where the
    /// tree is not divided.
    pub open spec fn extension(&self) -> Option<SstExtension> {
        if self.div_height() == 0 {
            None
        } else {
            Some(
                SstExtension {
                    signing_entity_idx: self.entity(),
                    top_div_height: self.div_height(),
                },
            )
        }
    }

    /// The parameters of a signing entity.
    pub fn new(hss_parameters: &[HssParameter], top_div_height: u8, signing_entity_idx: u8) -> (p: Self)
        ensures
            p.params() == hss_parameters@,
            p.div_height() == top_div_height,
            p.entity() == signing_entity_idx,
    {
        let mut list: Vec<HssParameter> = Vec::new();
        list.extend_from_slice(hss_parameters);
        assert(list@ =~= hss_parameters@);
        SstsParameter { hss_parameters: list, top_div_height, signing_entity_idx }
    }

    /// The parameter list.
    pub fn get_hss_parameters(&self) -> (params: &Vec<HssParameter>)
        ensures
            params@ == self.params(),
    {
        &self.hss_parameters
    }

    /// The height of the division.
    pub fn get_top_div_height(&self) -> (d: u8)
        ensures
            d == self.div_height(),
    {
        self.top_div_height
    }

    /// The index of the signing entity.
    pub fn get_signing_entity_idx(&self) -> (e: u8)
        ensures
            e == self.entity(),
    {
        self.signing_entity_idx
    }
}

} // verus!
