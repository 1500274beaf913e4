//! Byte-level helpers: big-endian integers, Winternitz digits, comparisons,
//! fresh seeds.

pub mod coef;
pub mod helper;
pub mod random;
pub mod ustr;
