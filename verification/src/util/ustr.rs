//! Big-endian encodings of unsigned integers.

use vstd::prelude::*;

verus! {

/// The two bytes of `x`, most significant first.
pub open spec fn be16(x: u16) -> Seq<u8> {
    seq![(x / 0x100) as u8, (x % 0x100) as u8]
}

/// The four bytes of `x`, most significant first.
pub open spec fn be32(x: u32) -> Seq<u8> {
    seq![
        (x / 0x100_0000) as u8,
        ((x / 0x1_0000) % 0x100) as u8,
        ((x / 0x100) % 0x100) as u8,
        (x % 0x100) as u8,
    ]
}

/// The eight bytes of `x`, most significant first.
pub open spec fn be64(x: u64) -> Seq<u8> {
    be32((x / 0x1_0000_0000) as u32) + be32((x % 0x1_0000_0000) as u32)
}

/// The number whose big-endian encoding is the first four bytes of `s`.
pub open spec fn from_be32(s: Seq<u8>) -> u32
    recommends
        s.len() >= 4,
{
    (s[0] as int * 0x100_0000 + s[1] as int * 0x1_0000 + s[2] as int * 0x100 + s[3] as int) as u32
}

/// The number whose big-endian encoding is the first eight bytes of `s`.
pub open spec fn from_be64(s: Seq<u8>) -> u64
    recommends
        s.len() >= 8,
{
    (from_be32(s) as int * 0x1_0000_0000 + from_be32(s.subrange(4, 8)) as int) as u64
}

/// Decoding undoes encoding.
pub proof fn lemma_be32_roundtrip(x: u32)
    ensures
        be32(x).len() == 4,
        from_be32(be32(x)) == x,
{
}

/// Encoding undoes decoding.
pub proof fn lemma_from_be32_roundtrip(s: Seq<u8>)
    requires
        s.len() == 4,
    ensures
        be32(from_be32(s)) == s,
{
    let a = s[0] as int;
    let b = s[1] as int;
    let c = s[2] as int;
    let d = s[3] as int;
    let x = a * 0x100_0000 + b * 0x1_0000 + c * 0x100 + d;
    assert(from_be32(s) == x);
    assert(x / 0x100_0000 == a);
    assert((x / 0x1_0000) % 0x100 == b);
    assert((x / 0x100) % 0x100 == c);
    assert(x % 0x100 == d);
    assert(be32(from_be32(s)) =~= s);
}

/// Decoding undoes encoding.
pub proof fn lemma_be64_roundtrip(x: u64)
    ensures
        be64(x).len() == 8,
        from_be64(be64(x)) == x,
{
    let hi = (x / 0x1_0000_0000) as u32;
    let lo = (x % 0x1_0000_0000) as u32;
    lemma_be32_roundtrip(hi);
    lemma_be32_roundtrip(lo);
    assert(be64(x).subrange(4, 8) =~= be32(lo));
    assert(from_be32(be64(x)) == from_be32(be32(hi)));
}

/// Encoding undoes decoding.
pub proof fn lemma_from_be64_roundtrip(s: Seq<u8>)
    requires
        s.len() == 8,
    ensures
        be64(from_be64(s)) == s,
{
    let hi = from_be32(s);
    let lo = from_be32(s.subrange(4, 8));
    lemma_from_be32_roundtrip(s.subrange(0, 4));
    lemma_from_be32_roundtrip(s.subrange(4, 8));
    assert(from_be32(s.subrange(0, 4)) == hi);
    let x = from_be64(s);
    assert((x / 0x1_0000_0000) as u32 == hi);
    assert((x % 0x1_0000_0000) as u32 == lo);
    assert(be64(x) =~= s.subrange(0, 4) + s.subrange(4, 8));
    assert(s.subrange(0, 4) + s.subrange(4, 8) =~= s);
}

/// Big-endian encoding of a 16-bit number.
pub fn u16str(x: u16) -> (bytes: [u8; 2])
    ensures
        bytes@ == be16(x),
{
    let bytes = [(x / 0x100) as u8, (x % 0x100) as u8];
    assert(bytes@ =~= be16(x));
    bytes
}

/// Big-endian encoding of a 32-bit number.
pub fn u32str(x: u32) -> (bytes: [u8; 4])
    ensures
        bytes@ == be32(x),
{
    let bytes = [
        (x / 0x100_0000) as u8,
        ((x / 0x1_0000) % 0x100) as u8,
        ((x / 0x100) % 0x100) as u8,
        (x % 0x100) as u8,
    ];
    assert(bytes@ =~= be32(x));
    bytes
}

/// Big-endian encoding of a 64-bit number.
pub fn u64str(x: u64) -> (bytes: [u8; 8])
    ensures
        bytes@ == be64(x),
{
    let hi = u32str((x / 0x1_0000_0000) as u32);
    let lo = u32str((x % 0x1_0000_0000) as u32);
    let bytes = [hi[0], hi[1], hi[2], hi[3], lo[0], lo[1], lo[2], lo[3]];
    assert(bytes@ =~= be64(x));
    bytes
}

/// The 32-bit number that the first four bytes of `bytes` encode.
pub fn str32u(bytes: &[u8]) -> (x: u32)
    requires
        bytes@.len() >= 4,
    ensures
        x == from_be32(bytes@),
{
    let b0: u32 = bytes[0] as u32;
    let b1: u32 = bytes[1] as u32;
    let b2: u32 = bytes[2] as u32;
    let b3: u32 = bytes[3] as u32;
    b0 * 0x100_0000 + b1 * 0x1_0000 + b2 * 0x100 + b3
}

/// The 64-bit number that the first eight bytes of `bytes` encode.
pub fn str64u(bytes: &[u8]) -> (x: u64)
    requires
        bytes@.len() >= 8,
    ensures
        x == from_be64(bytes@),
{
    let hi: u64 = str32u(bytes) as u64;
    let lo: u64 = str32u(&bytes[4..8]) as u64;
    hi * 0x1_0000_0000 + lo
}

} // verus!
