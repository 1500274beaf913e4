//! Sizes, limits and domain separation tags shared by all layers.

use vstd::prelude::*;

verus! {

/// Number of bytes every supported hash function returns.
pub const MAX_HASH_SIZE: usize = 32;

/// Number of bytes of a master seed and of every derived tree seed.
pub const SEED_LEN: usize = 32;

/// Number of bytes of an LMS tree identifier `I`.
pub const LMS_TREE_IDENTIFIER_SIZE: usize = 16;

/// Number of bytes of the used-leaves counter at the head of a private key.
pub const LMS_LEAF_IDENTIFIERS_SIZE: usize = 8;

/// Largest number of HSS levels.
pub const MAX_ALLOWED_HSS_LEVELS: usize = 8;

/// Largest sum of the tree heights of all levels: the lifetime has to fit
/// the 64-bit used-leaves counter of the private key.
pub const MAX_TOTAL_TREE_HEIGHT: u32 = 63;

/// Marks an unused level in the compressed parameter list of a private key.
pub const PARAMETER_SET_END: u8 = 0xff;

/// Length of a private key without the single-subtree extension:
/// counter, compressed parameters, master seed.
pub const REFERENCE_IMPL_PRIVATE_KEY_SIZE: usize = 48;

/// Length of the single-subtree extension that may follow the master seed:
/// the signing entity's index and the height of the division.
pub const SST_EXTENSION_SIZE: usize = 2;

/// Largest length of a private key.
pub const MAX_PRIVATE_KEY_LENGTH: usize = REFERENCE_IMPL_PRIVATE_KEY_SIZE + SST_EXTENSION_SIZE;

/// Largest number of signing entities that share one top-level tree.
pub const MAX_DSM_SIGNING_ENTITIES: usize = 256;

/// Length of a serialized LMS public key: two type codes, `I`, the root.
pub const LMS_PUBLIC_KEY_LENGTH: usize = 4 + 4 + LMS_TREE_IDENTIFIER_SIZE + MAX_HASH_SIZE;

/// Length of a serialized HSS public key: the level count, then the
/// top-level LMS public key.
pub const MAX_HSS_PUBLIC_KEY_LENGTH: usize = 4 + LMS_PUBLIC_KEY_LENGTH;

/// Largest number of hash chains of an LM-OTS key (`W = 1`).
pub const MAX_HASH_CHAIN_COUNT: usize = 265;

/// Largest tree height.
pub const MAX_TREE_HEIGHT: usize = 25;

/// Largest length of a serialized LM-OTS signature.
pub const MAX_LMOTS_SIGNATURE_LENGTH: usize = 4 + MAX_HASH_SIZE + MAX_HASH_CHAIN_COUNT
    * MAX_HASH_SIZE;

/// Largest length of a serialized LMS signature.
pub const MAX_LMS_SIGNATURE_LENGTH: usize = 4 + MAX_LMOTS_SIGNATURE_LENGTH + 4 + MAX_TREE_HEIGHT
    * MAX_HASH_SIZE;

/// Largest length of a serialized HSS signature.
pub const MAX_HSS_SIGNATURE_LENGTH: usize = 4 + 7 * (MAX_LMS_SIGNATURE_LENGTH
    + LMS_PUBLIC_KEY_LENGTH) + MAX_LMS_SIGNATURE_LENGTH;

/// Domain separation tag of the LM-OTS public key hash.
pub const D_PBLC: u16 = 0x8080;

/// Domain separation tag of the message hash.
pub const D_MESG: u16 = 0x8181;

/// Domain separation tag of a leaf of the Merkle tree.
pub const D_LEAF: u16 = 0x8282;

/// Domain separation tag of an inner node of the Merkle tree.
pub const D_INTR: u16 = 0x8383;

/// Chain index under which the secret start of a hash chain is derived:
/// the byte that follows the chain number.
pub const D_SECRET: u8 = 0xff;

/// Chain number under which the signature randomizer is derived.
pub const D_RANDOMIZER: u16 = 0xfffd;

/// Tag under which the seed of a child tree is derived.
pub const D_CHILD_SEED: u16 = 0xfffe;

/// Tag under which the identifier of a child tree is derived.
pub const D_CHILD_IDENTIFIER: u16 = 0xffff;

/// Tag under which the seed of the top-level tree is derived.
pub const D_TOP_SEED: u16 = 0xfe01;

/// Tag under which the identifier of the top-level tree is derived.
pub const D_TOP_IDENTIFIER: u16 = 0xfe02;

/// Tag under which the integrity tag of the auxiliary data is computed.
pub const D_AUX_TAG: u16 = 0xfe03;

/// High bit of the marker byte of auxiliary data that holds nodes; the low
/// bits give the number of tree levels below the root that are stored.
pub const AUX_DATA_POPULATED: u8 = 0x80;

} // verus!
