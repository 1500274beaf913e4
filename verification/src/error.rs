//! The kinds of failure that the inner layers tell apart.

use vstd::prelude::*;

verus! {

/// Why an operation failed.
#[derive(Clone, Copy, Debug, PartialEq, Eq, Structural)]
pub enum ErrorKind {
    /// A serialized key or signature is malformed: unexpected length or
    /// unknown type code.
    Parse,
    /// The types that a signature declares are not those of the public key,
    /// or parameters that have to agree do not.
    ParamMismatch,
    /// A parameter list is empty, too long, or describes more leaves than the
    /// used-leaves counter can count.
    InvalidParameter,
    /// Every leaf that the private key may use has been used.
    Exhausted,
    /// The update callback reported that it could not store the new private
    /// key.
    CallbackFailure,
    /// The integrity tag of the auxiliary data does not match its content.
    AuxInvalid,
    /// The message buffer of a randomizer search is too short or its tail
    /// is not zero.
    FastVerifyMisuse,
}

} // verus!

verus! {

/// The error type of the `signature` crate: an error without detail.
#[verifier::external_type_specification]
#[verifier::external_body]
pub struct ExSignatureError(signature::Error);

/// Calls `signature::Error::new`, which makes an error with no source.
/// Nothing can be said of the value: it carries no information.
#[verifier::external_body]
fn new_error() -> (error: signature::Error) {
    signature::Error::new()
}

/// The error that callers of the outer interface see: all kinds collapse to
/// one.
pub(crate) fn collapse(_kind: ErrorKind) -> (error: signature::Error) {
    new_error()
}

} // verus!
