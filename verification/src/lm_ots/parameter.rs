//! LM-OTS parameter sets and what is derived from them.

use crate::util::coef::{coef, coef_spec, is_width, lemma_coef_bound};
use crate::util::ustr::{be16, u16str};
use vstd::arithmetic::power2::{lemma2_to64, pow2};
use vstd::prelude::*;

verus! {

/// `⌊log₂ x⌋`, and 0 for `x = 0`.
pub open spec fn floor_log2(x: nat) -> nat
    decreases x,
{
    if x <= 1 {
        0
    } else {
        1 + floor_log2(x / 2)
    }
}

/// `⌈a / b⌉`.
pub open spec fn ceil_div(a: int, b: int) -> int {
    (a + b - 1) / b
}

/// The number of `w`-bit digits of an `n`-byte digest: `⌈8n / w⌉`.
pub open spec fn digest_digits(n: int, w: int) -> int {
    ceil_div(8 * n, w)
}

/// The largest value of the checksum before it is shifted.
pub open spec fn max_digit_sum(n: int, w: int) -> int {
    (pow2(w as nat) - 1) * digest_digits(n, w)
}

/// The number of `w`-bit digits of the checksum:
/// `⌈(⌊log₂((2^w − 1)·⌈8n/w⌉)⌋ + 1) / w⌉`.
pub open spec fn checksum_digits(n: int, w: int) -> int {
    ceil_div(floor_log2(max_digit_sum(n, w) as nat) as int + 1, w)
}

/// The number `p` of hash chains: digest digits and checksum digits.
pub open spec fn chain_count(n: int, w: int) -> int {
    digest_digits(n, w) + checksum_digits(n, w)
}

/// The left shift `ls` that moves the checksum to the top of its 16 bits.
pub open spec fn checksum_shift(n: int, w: int) -> int {
    16 - checksum_digits(n, w) * w
}

/// The sum of `2^w − 1 − digit` over the first `k` digits of `s`.
pub open spec fn digit_sum(s: Seq<u8>, w: int, k: nat) -> int
    decreases k,
{
    if k == 0 {
        0
    } else {
        digit_sum(s, w, (k - 1) as nat) + (pow2(w as nat) - 1 - coef_spec(s, k - 1, w))
    }
}

/// The checksum over the first `n` bytes of `s`, shifted to the top of its
/// 16 bits.
pub open spec fn checksum_spec(s: Seq<u8>, n: int, w: int) -> int {
    digit_sum(s, w, ((8 * n) / w) as nat) * pow2(checksum_shift(n, w) as nat)
}

/// `s` followed by the two bytes of its checksum.
pub open spec fn appended_with_checksum(s: Seq<u8>, n: int, w: int) -> Seq<u8> {
    s + be16(checksum_spec(s, n, w) as u16)
}

/// What the formulas give for 32-byte digests.
pub proof fn lemma_derived_values(w: int)
    requires
        is_width(w),
    ensures
        digest_digits(32, w) == 256int / w,
        w == 1 ==> chain_count(32, w) == 265 && checksum_shift(32, w) == 7,
        w == 2 ==> chain_count(32, w) == 133 && checksum_shift(32, w) == 6,
        w == 4 ==> chain_count(32, w) == 67 && checksum_shift(32, w) == 4,
        w == 8 ==> chain_count(32, w) == 34 && checksum_shift(32, w) == 0,
        34 <= chain_count(32, w) <= 265,
        (chain_count(32, w) * w) / 8 <= 34,
{
    lemma2_to64();
    reveal_with_fuel(floor_log2, 14);
    if w == 1 {
        assert(digest_digits(32, 1) == 256);
        assert(max_digit_sum(32, 1) == (2 - 1) * 256);
        assert(floor_log2(256) == 8);
        assert(checksum_digits(32, 1) == 9);
        assert(chain_count(32, 1) == 265);
    } else if w == 2 {
        assert(digest_digits(32, 2) == 128);
        assert(max_digit_sum(32, 2) == (4 - 1) * 128);
        assert(floor_log2(384) == 8);
        assert(checksum_digits(32, 2) == 5);
        assert(chain_count(32, 2) == 133);
    } else if w == 4 {
        assert(digest_digits(32, 4) == 64);
        assert(max_digit_sum(32, 4) == (16 - 1) * 64);
        assert(floor_log2(960) == 9);
        assert(checksum_digits(32, 4) == 3);
        assert(chain_count(32, 4) == 67);
    } else {
        assert(digest_digits(32, 8) == 32);
        assert(max_digit_sum(32, 8) == (256 - 1) * 32);
        assert(floor_log2(8160) == 12);
        assert(checksum_digits(32, 8) == 2);
        assert(chain_count(32, 8) == 34);
    }
}

/// The sum of the first `k` digit complements is at most `k·(2^w − 1)`.
pub proof fn lemma_digit_sum_bound(s: Seq<u8>, w: int, k: nat)
    requires
        is_width(w),
    ensures
        0 <= digit_sum(s, w, k) <= k * (pow2(w as nat) - 1),
    decreases k,
{
    if k > 0 {
        lemma_digit_sum_bound(s, w, (k - 1) as nat);
        lemma_coef_bound(s, k - 1, w);
        assert(k * (pow2(w as nat) - 1) == (k - 1) * (pow2(w as nat) - 1) + (pow2(w as nat) - 1))
            by (nonlinear_arith);
    }
}

/// The shifted checksum of a 32-byte digest fits 16 bits.
pub proof fn lemma_checksum_bound(s: Seq<u8>, w: int)
    requires
        is_width(w),
    ensures
        0 <= checksum_spec(s, 32, w) <= 0xffff,
{
    lemma2_to64();
    lemma_derived_values(w);
    lemma_digit_sum_bound(s, w, (256int / w) as nat);
    let sum = digit_sum(s, w, (256int / w) as nat);
    let factor = pow2(checksum_shift(32, w) as nat) as int;
    let largest = pow2(w as nat) - 1;
    assert(checksum_spec(s, 32, w) == sum * factor);
    if w == 1 {
        assert(factor == 128 && largest == 1);
        assert(sum <= 256 * largest);
        assert(0 <= sum * factor <= 0xffff) by (nonlinear_arith)
            requires
                0 <= sum <= 256,
                factor == 128,
        ;
    } else if w == 2 {
        assert(factor == 64 && largest == 3);
        assert(sum <= 128 * largest);
        assert(0 <= sum * factor <= 0xffff) by (nonlinear_arith)
            requires
                0 <= sum <= 384,
                factor == 64,
        ;
    } else if w == 4 {
        assert(factor == 16 && largest == 15);
        assert(sum <= 64 * largest);
        assert(0 <= sum * factor <= 0xffff) by (nonlinear_arith)
            requires
                0 <= sum <= 960,
                factor == 16,
        ;
    } else {
        assert(factor == 1 && largest == 255);
        assert(sum <= 32 * largest);
        assert(0 <= sum * factor <= 0xffff) by (nonlinear_arith)
            requires
                0 <= sum <= 8160,
                factor == 1,
        ;
    }
}

/// `⌊log₂ x⌋`.
fn floor_log2_of(x: u64) -> (r: u64)
    ensures
        r == floor_log2(x as nat),
        r <= 63,
{
    let mut rest: u64 = x;
    let mut r: u64 = 0;
    proof {
        lemma2_to64();
    }
    while rest > 1
        invariant
            r + floor_log2(rest as nat) == floor_log2(x as nat),
            r <= 63,
            rest as nat * pow2(r as nat) <= x,
        decreases rest,
    {
        proof {
            vstd::arithmetic::power2::lemma_pow2_unfold((r + 1) as nat);
            assert((rest / 2) * (2 * pow2(r as nat)) <= rest * pow2(r as nat)) by (nonlinear_arith)
                requires
                    rest >= 0,
                    pow2(r as nat) >= 0,
            ;
            if r == 63 {
                lemma2_to64();
                vstd::arithmetic::power2::lemma2_to64_rest();
                assert(pow2(63) == 0x8000_0000_0000_0000);
                assert(rest as nat * pow2(63) >= 2 * pow2(63)) by (nonlinear_arith)
                    requires
                        rest >= 2,
                ;
                assert(false);
            }
        }
        rest = rest / 2;
        r = r + 1;
    }
    r
}

/// `2^e` for an exponent of at most eight.
fn pow2_of(e: u64) -> (r: u64)
    requires
        e <= 8,
    ensures
        r == pow2(e as nat),
        1 <= r <= 256,
{
    proof {
        lemma2_to64();
    }
    let mut r: u64 = 1;
    let mut i: u64 = 0;
    while i < e
        invariant
            i <= e <= 8,
            r == pow2(i as nat),
            1 <= r <= 256,
            pow2(8) == 256,
        decreases e - i,
    {
        proof {
            vstd::arithmetic::power2::lemma_pow2_unfold((i + 1) as nat);
            if i + 1 < 8 {
                vstd::arithmetic::power2::lemma_pow2_strictly_increases((i + 1) as nat, 8);
            }
        }
        r = r * 2;
        i = i + 1;
    }
    r
}

/// The LM-OTS parameter sets, one for each Winternitz width.
#[derive(Clone, Copy, Debug, PartialEq, Eq, Structural)]
pub enum LmotsAlgorithm {
    /// One bit per digit: 265 chains of one step.
    LmotsW1,
    /// Two bits per digit: 133 chains of three steps.
    LmotsW2,
    /// Four bits per digit: 67 chains of fifteen steps.
    LmotsW4,
    /// Eight bits per digit: 34 chains of 255 steps.
    LmotsW8,
}

/// An LM-OTS parameter set: the digest size `n`, the Winternitz width `w`
/// and the type code under which signatures name it.
///
/// The derived values are computed from `n` and `w` with integer arithmetic
/// alone.
pub trait LmotsParameter: Sized {
    /// The digest size in bytes.
    spec fn n(&self) -> int;

    /// The Winternitz width in bits.
    spec fn w(&self) -> int;

    /// The type code.
    spec fn type_code(&self) -> u32;

    /// The digest size, always 32 bytes.
    fn get_n(&self) -> (n: u16)
        ensures
            n == self.n(),
            n == 32,
    ;

    /// The Winternitz width.
    fn get_w(&self) -> (w: u8)
        ensures
            w == self.w(),
            is_width(w as int),
    ;

    /// The type code.
    fn get_type(&self) -> (code: u32)
        ensures
            code == self.type_code(),
    ;

    /// Whether `_type` is this parameter set's type code.
    fn is_type_correct(&self, _type: u32) -> (correct: bool)
        ensures
            correct == (self.type_code() == _type),
    {
        self.get_type() == _type
    }

    /// The number `p` of hash chains.
    fn get_p(&self) -> (p: u16)
        ensures
            p == chain_count(self.n(), self.w()),
            34 <= p <= 265,
    {
        let n = self.get_n() as u64;
        let w = self.get_w() as u64;
        proof {
            lemma_derived_values(w as int);
            lemma2_to64();
        }
        let u = (8 * n + w - 1) / w;
        let largest_digit = pow2_of(w) - 1;
        assert(largest_digit * u <= 255 * 256) by (nonlinear_arith)
            requires
                0 <= largest_digit <= 255,
                0 <= u <= 256,
        ;
        let v = (floor_log2_of(largest_digit * u) + 1 + w - 1) / w;
        (u + v) as u16
    }

    /// The left shift `ls` of the checksum.
    fn get_ls(&self) -> (ls: u8)
        ensures
            ls == checksum_shift(self.n(), self.w()),
            ls <= 7,
    {
        let n = self.get_n() as u64;
        let w = self.get_w() as u64;
        proof {
            lemma_derived_values(w as int);
            lemma2_to64();
        }
        let u = (8 * n + w - 1) / w;
        let largest_digit = pow2_of(w) - 1;
        assert(largest_digit * u <= 255 * 256) by (nonlinear_arith)
            requires
                0 <= largest_digit <= 255,
                0 <= u <= 256,
        ;
        let v = (floor_log2_of(largest_digit * u) + 1 + w - 1) / w;
        assert(v * w <= 16) by {
            if w == 1 {
            } else if w == 2 {
            } else if w == 4 {
            } else {
            }
        }
        (16 - v * w) as u8
    }

    /// The checksum over the digits of the first `n` bytes of
    /// `byte_string`, shifted left by `ls`.
    fn checksum(&self, byte_string: &[u8]) -> (sum: u16)
        requires
            byte_string@.len() >= self.n(),
        ensures
            sum == checksum_spec(byte_string@, self.n(), self.w()),
    {
        let n = self.get_n() as u64;
        let w = self.get_w() as u64;
        let ls = self.get_ls() as u64;
        let max: u64 = (n * 8) / w;
        let max_word_size: u64 = pow2_of(w) - 1;
        let mut sum: u64 = 0;
        let mut i: u64 = 0;
        while i < max
            invariant
                i <= max,
                max == 256u64 / w,
                is_width(w as int),
                max_word_size == pow2(w as nat) - 1,
                max_word_size <= 255,
                byte_string@.len() >= 32,
                sum == digit_sum(byte_string@, w as int, i as nat),
                sum <= i * 255,
            decreases max - i,
        {
            proof {
                if w == 1 {
                    assert(max == 256u64 / 1);
                } else if w == 2 {
                    assert(max == 256u64 / 2);
                } else if w == 4 {
                    assert(max == 256u64 / 4);
                } else {
                    assert(max == 256u64 / 8);
                }
            }
            assert(i * w < 256) by (nonlinear_arith)
                requires
                    w == 1 && i < 256 || w == 2 && i < 128 || w == 4 && i < 64 || w == 8 && i < 32,
                    0 <= i,
            ;
            proof {
                lemma_coef_bound(byte_string@, i as int, w as int);
            }
            let digit = coef(byte_string, i, w);
            sum = sum + (max_word_size - digit);
            i = i + 1;
        }
        proof {
            lemma_checksum_bound(byte_string@, w as int);
        }
        let factor = pow2_of(ls);
        assert(sum * factor <= 0xffff);
        (sum * factor) as u16
    }

    /// `byte_string`, an `n`-byte digest, followed by the two bytes of its
    /// checksum, most significant first.
    fn get_appended_with_checksum(&self, byte_string: &[u8]) -> (result: Vec<u8>)
        requires
            byte_string@.len() == self.n(),
        ensures
            result@ == appended_with_checksum(byte_string@, self.n(), self.w()),
            result@.len() == self.n() + 2,
    {
        let mut result: Vec<u8> = Vec::new();
        let checksum = self.checksum(byte_string);
        result.extend_from_slice(byte_string);
        let tail = u16str(checksum);
        result.extend_from_slice(tail.as_slice());
        assert(result@ =~= byte_string@ + be16(checksum));
        result
    }
}

impl LmotsParameter for LmotsAlgorithm {
    open spec fn n(&self) -> int {
        32
    }

    open spec fn w(&self) -> int {
        match self {
            LmotsAlgorithm::LmotsW1 => 1,
            LmotsAlgorithm::LmotsW2 => 2,
            LmotsAlgorithm::LmotsW4 => 4,
            LmotsAlgorithm::LmotsW8 => 8,
        }
    }

    open spec fn type_code(&self) -> u32 {
        match self {
            LmotsAlgorithm::LmotsW1 => 1,
            LmotsAlgorithm::LmotsW2 => 2,
            LmotsAlgorithm::LmotsW4 => 3,
            LmotsAlgorithm::LmotsW8 => 4,
        }
    }

    fn get_n(&self) -> (n: u16) {
        32
    }

    fn get_w(&self) -> (w: u8) {
        match self {
            LmotsAlgorithm::LmotsW1 => 1,
            LmotsAlgorithm::LmotsW2 => 2,
            LmotsAlgorithm::LmotsW4 => 4,
            LmotsAlgorithm::LmotsW8 => 8,
        }
    }

    fn get_type(&self) -> (code: u32) {
        match self {
            LmotsAlgorithm::LmotsW1 => 1,
            LmotsAlgorithm::LmotsW2 => 2,
            LmotsAlgorithm::LmotsW4 => 3,
            LmotsAlgorithm::LmotsW8 => 4,
        }
    }
}

impl LmotsAlgorithm {
    /// The parameter set with type code `code`, if there is one.
    pub open spec fn of_type(code: u32) -> Option<LmotsAlgorithm> {
        if code == 1 {
            Some(LmotsAlgorithm::LmotsW1)
        } else if code == 2 {
            Some(LmotsAlgorithm::LmotsW2)
        } else if code == 3 {
            Some(LmotsAlgorithm::LmotsW4)
        } else if code == 4 {
            Some(LmotsAlgorithm::LmotsW8)
        } else {
            None
        }
    }

    /// The number of hash chains.
    pub open spec fn p(&self) -> int {
        chain_count(32, self.w())
    }

    /// The largest digit, `2^w − 1`: the number of steps of a whole chain.
    pub open spec fn max_digit(&self) -> int {
        pow2(self.w() as nat) - 1
    }

    /// The length of a serialized signature: type code, randomizer, `p`
    /// chain values.
    pub open spec fn signature_length(&self) -> int {
        4 + 32 + 32 * self.p()
    }

    /// The parameter set with type code `code`, if there is one.
    pub fn from_type(code: u32) -> (alg: Option<LmotsAlgorithm>)
        ensures
            alg == Self::of_type(code),
            alg matches Some(a) ==> a.type_code() == code,
    {
        if code == 1 {
            Some(LmotsAlgorithm::LmotsW1)
        } else if code == 2 {
            Some(LmotsAlgorithm::LmotsW2)
        } else if code == 3 {
            Some(LmotsAlgorithm::LmotsW4)
        } else if code == 4 {
            Some(LmotsAlgorithm::LmotsW8)
        } else {
            None
        }
    }

    /// The largest digit, `2^w − 1`.
    pub fn get_max_digit(&self) -> (d: u8)
        ensures
            d == self.max_digit(),
    {
        proof {
            lemma2_to64();
        }
        match self {
            LmotsAlgorithm::LmotsW1 => 1,
            LmotsAlgorithm::LmotsW2 => 3,
            LmotsAlgorithm::LmotsW4 => 15,
            LmotsAlgorithm::LmotsW8 => 255,
        }
    }

    /// The length of a serialized signature.
    pub fn get_signature_length(&self) -> (len: usize)
        ensures
            len == self.signature_length(),
            len <= crate::constants::MAX_LMOTS_SIGNATURE_LENGTH,
    {
        let p = self.get_p() as usize;
        4 + 32 + 32 * p
    }

    /// A type code names this parameter set and no other.
    pub proof fn lemma_of_type(self)
        ensures
            Self::of_type(self.type_code()) == Some(self),
            is_width(self.w()),
            34 <= self.p() <= 265,
    {
        lemma_derived_values(self.w());
    }
}

} // verus!
