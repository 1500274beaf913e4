//! The single-subtree extension: several signing entities share one
//! top-level tree, each with a range of leaves of its own.

pub mod gen_key;
pub mod helper;
pub mod parameters;
