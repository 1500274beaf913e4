//! The Leighton-Micali signature (LMS): a Merkle tree whose leaves commit to
//! LM-OTS public keys.

pub mod definitions;
pub mod helper;
pub mod parameter;
pub mod signing;
pub mod tree;
pub mod verify;
