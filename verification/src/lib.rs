//! Stateful hash-based signatures: the Hierarchical Signature System (HSS)
//! over Leighton-Micali signatures (LMS) and Leighton-Micali one-time
//! signatures (LM-OTS), as laid down in RFC 8554.
//!
//! Every function is verified against a mathematical model of the scheme in
//! which the hash function is an uninterpreted function of its input bytes.
//! The model lives in the `spec` items of each module; the executable code is
//! proved to compute exactly what the model says.

pub mod binding;
pub mod constants;
pub mod error;
pub mod hasher;
pub mod hss;
pub mod lm_ots;
pub mod lms;
pub mod sst;
pub mod util;
