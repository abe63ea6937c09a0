//! The error taxonomy of the core.  Every failure is surfaced to the caller
//! unmodified; a denied authorization check is a normal `false` outcome, not
//! an error.

use vstd::prelude::*;

verus! {

/// Why an operation of the core failed.
#[derive(Clone, Copy, PartialEq, Eq, Structural, Debug)]
pub enum CoreError {
    /// A granted key does not denote a catalog permission; the grant
    /// operation aborts without having mutated any state.
    InvalidPermissionKey,
    /// Ciphertext input is not valid hex.
    DecodingError,
    /// Ciphertext failed integrity or key verification on decrypt: it was
    /// tampered with, or encrypted under a different key.
    AuthenticationFailure,
    /// The cipher could not produce a ciphertext.
    EncryptionFailure,
    /// The durable backing store is unreachable or rejected an operation;
    /// raised by callers that persist the relations, never by the in-memory
    /// core itself.
    StoreIOError,
}

impl CoreError {
    /// A short description of the failure.
    pub fn message(&self) -> (m: &'static str)
        ensures
            (*self is InvalidPermissionKey) ==> m@ == "invalid permission key"@,
            (*self is DecodingError) ==> m@ == "ciphertext is not valid hex"@,
            (*self is AuthenticationFailure) ==> m@ == "ciphertext failed authentication"@,
            (*self is EncryptionFailure) ==> m@ == "encryption failed"@,
            (*self is StoreIOError) ==> m@ == "policy store unreachable"@,
    {
        match self {
            CoreError::InvalidPermissionKey => "invalid permission key",
            CoreError::DecodingError => "ciphertext is not valid hex",
            CoreError::AuthenticationFailure => "ciphertext failed authentication",
            CoreError::EncryptionFailure => "encryption failed",
            CoreError::StoreIOError => "policy store unreachable",
        }
    }
}

} // verus!
