//! The Leighton-Micali one-time signature (LM-OTS): Winternitz hash chains
//! with a checksum.

pub mod definitions;
pub mod parameter;
pub mod signing;
pub mod verify;
