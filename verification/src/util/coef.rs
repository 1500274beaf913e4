//! Winternitz digits: a byte string read as a sequence of `w`-bit numbers.

use vstd::arithmetic::power2::{lemma2_to64, pow2};
use vstd::prelude::*;

verus! {

/// Whether `w` is a Winternitz width: 1, 2, 4 or 8 bits.
pub open spec fn is_width(w: int) -> bool {
    w == 1 || w == 2 || w == 4 || w == 8
}

/// The `i`-th `w`-bit digit of `s`, digits counted from the most
/// significant bits of the first byte.
pub open spec fn coef_spec(s: Seq<u8>, i: int, w: int) -> int
    recommends
        is_width(w),
        0 <= i,
        (i * w) / 8 < s.len(),
{
    let digits = 8int / w;
    let shift = w * (digits - 1 - i % digits);
    (s[(i * w) / 8] as int / pow2(shift as nat) as int) % pow2(w as nat) as int
}

/// A digit is below `2^w`.
pub proof fn lemma_coef_bound(s: Seq<u8>, i: int, w: int)
    requires
        is_width(w),
    ensures
        0 <= coef_spec(s, i, w) < pow2(w as nat),
        0 <= coef_spec(s, i, w) <= 255,
{
    lemma2_to64();
}

/// `2^e` for an exponent of at most eight.
fn small_pow2(e: u64) -> (r: u64)
    requires
        e <= 8,
    ensures
        r == pow2(e as nat),
        1 <= r <= 256,
{
    proof {
        lemma2_to64();
    }
    if e == 0 {
        1
    } else if e == 1 {
        2
    } else if e == 2 {
        4
    } else if e == 3 {
        8
    } else if e == 4 {
        16
    } else if e == 5 {
        32
    } else if e == 6 {
        64
    } else if e == 7 {
        128
    } else {
        256
    }
}

/// The `i`-th `w`-bit digit of `byte_string`.
pub fn coef(byte_string: &[u8], i: u64, w: u64) -> (digit: u64)
    requires
        is_width(w as int),
        i <= 0x1fff_ffff_ffff_ffff,
        (i * w) / 8 < byte_string@.len(),
    ensures
        digit == coef_spec(byte_string@, i as int, w as int),
{
    assert(i * w <= u64::MAX) by {
        assert(w <= 8);
        assert(i * w <= i * 8) by (nonlinear_arith)
            requires
                w <= 8,
                0 <= i,
        ;
    }
    let index = ((i * w) / 8) as usize;
    let digits = 8 / w;
    let place = digits - 1 - i % digits;
    assert(w * place <= 7) by {
        if w == 1 {
        } else if w == 2 {
        } else if w == 4 {
        } else {
        }
    }
    let shift = w * place;
    let divisor = small_pow2(shift);
    let modulus = small_pow2(w);
    (byte_string[index] as u64 / divisor) % modulus
}

} // verus!
