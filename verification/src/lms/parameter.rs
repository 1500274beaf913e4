//! LMS parameter sets: the height of the Merkle tree.

use vstd::arithmetic::power2::{lemma2_to64, pow2};
use vstd::prelude::*;

verus! {

/// The LMS parameter sets, one for each tree height.
#[derive(Clone, Copy, Debug, PartialEq, Eq, Structural)]
pub enum LmsAlgorithm {
    /// Height 2: four leaves. Not a parameter set of RFC 8554; small enough
    /// to use up a key in a test.
    LmsH2,
    /// Height 5: 32 leaves.
    LmsH5,
    /// Height 10: 1024 leaves.
    LmsH10,
    /// Height 15: 32768 leaves.
    LmsH15,
    /// Height 20: 1048576 leaves.
    LmsH20,
    /// Height 25: 33554432 leaves.
    LmsH25,
}

impl LmsAlgorithm {
    /// The height `h` of the tree.
    pub open spec fn height(&self) -> nat {
        match self {
            LmsAlgorithm::LmsH2 => 2,
            LmsAlgorithm::LmsH5 => 5,
            LmsAlgorithm::LmsH10 => 10,
            LmsAlgorithm::LmsH15 => 15,
            LmsAlgorithm::LmsH20 => 20,
            LmsAlgorithm::LmsH25 => 25,
        }
    }

    /// The number `2^h` of leaves.
    pub open spec fn leaves(&self) -> nat {
        pow2(self.height())
    }

    /// The type code.
    pub open spec fn type_code(&self) -> u32 {
        match self {
            LmsAlgorithm::LmsH2 => 1,
            LmsAlgorithm::LmsH5 => 5,
            LmsAlgorithm::LmsH10 => 6,
            LmsAlgorithm::LmsH15 => 7,
            LmsAlgorithm::LmsH20 => 8,
            LmsAlgorithm::LmsH25 => 9,
        }
    }

    /// The parameter set with type code `code`, if there is one.
    pub open spec fn of_type(code: u32) -> Option<LmsAlgorithm> {
        if code == 1 {
            Some(LmsAlgorithm::LmsH2)
        } else if code == 5 {
            Some(LmsAlgorithm::LmsH5)
        } else if code == 6 {
            Some(LmsAlgorithm::LmsH10)
        } else if code == 7 {
            Some(LmsAlgorithm::LmsH15)
        } else if code == 8 {
            Some(LmsAlgorithm::LmsH20)
        } else if code == 9 {
            Some(LmsAlgorithm::LmsH25)
        } else {
            None
        }
    }

    /// A type code names this parameter set and no other; the tree has at
    /// most `2^25` leaves.
    pub proof fn lemma_of_type(self)
        ensures
            Self::of_type(self.type_code()) == Some(self),
            2 <= self.height() <= 25,
            4 <= self.leaves() <= 0x200_0000,
    {
        lemma2_to64();
    }

    /// The height `h` of the tree.
    pub fn get_tree_height(&self) -> (h: u8)
        ensures
            h == self.height(),
            2 <= h <= 25,
    {
        match self {
            LmsAlgorithm::LmsH2 => 2,
            LmsAlgorithm::LmsH5 => 5,
            LmsAlgorithm::LmsH10 => 10,
            LmsAlgorithm::LmsH15 => 15,
            LmsAlgorithm::LmsH20 => 20,
            LmsAlgorithm::LmsH25 => 25,
        }
    }

    /// The number `2^h` of leaves, each with a one-time key of its own.
    pub fn number_of_lm_ots_keys(&self) -> (n: u32)
        ensures
            n == self.leaves(),
            4 <= n <= 0x200_0000,
    {
        proof {
            lemma2_to64();
        }
        match self {
            LmsAlgorithm::LmsH2 => 4,
            LmsAlgorithm::LmsH5 => 32,
            LmsAlgorithm::LmsH10 => 1024,
            LmsAlgorithm::LmsH15 => 32768,
            LmsAlgorithm::LmsH20 => 1048576,
            LmsAlgorithm::LmsH25 => 33554432,
        }
    }

    /// The type code.
    pub fn get_type(&self) -> (code: u32)
        ensures
            code == self.type_code(),
    {
        match self {
            LmsAlgorithm::LmsH2 => 1,
            LmsAlgorithm::LmsH5 => 5,
            LmsAlgorithm::LmsH10 => 6,
            LmsAlgorithm::LmsH15 => 7,
            LmsAlgorithm::LmsH20 => 8,
            LmsAlgorithm::LmsH25 => 9,
        }
    }

    /// The parameter set with type code `code`, if there is one.
    pub fn from_type(code: u32) -> (alg: Option<LmsAlgorithm>)
        ensures
            alg == Self::of_type(code),
            alg matches Some(a) ==> a.type_code() == code,
    {
        if code == 1 {
            Some(LmsAlgorithm::LmsH2)
        } else if code == 5 {
            Some(LmsAlgorithm::LmsH5)
        } else if code == 6 {
            Some(LmsAlgorithm::LmsH10)
        } else if code == 7 {
            Some(LmsAlgorithm::LmsH15)
        } else if code == 8 {
            Some(LmsAlgorithm::LmsH20)
        } else if code == 9 {
            Some(LmsAlgorithm::LmsH25)
        } else {
            None
        }
    }
}

} // verus!
