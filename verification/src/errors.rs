//! Error taxonomy of the identity store and verb ledger.
//!
//! Validation and authentication failures are always surfaced to the caller
//! and never retried; connectivity failures are retryable at the caller's
//! discretion.

use vstd::prelude::*;

verus! {

/// Typed failure of an identity or ledger operation.
#[derive(Clone, Copy, Debug, PartialEq, Eq, Structural)]
pub enum MeError {
    /// Malformed username or password, caught before any key generation
    /// or storage access.
    Validation,
    /// An identity record for the username is already present.
    AlreadyExists,
    /// No identity record exists for the username.
    NotFound,
    /// The stored private key did not authenticate under the derived key:
    /// wrong password or corrupted data, deliberately undifferentiated.
    AuthenticationFailed,
    /// The cipher or random-number generator failed internally.
    EncryptionFailed,
    /// The storage engine could not be reached or failed mid-operation.
    StoreConnectivity,
    /// A persisted payload could not be decoded.
    Serialization,
}

impl MeError {
    /// The text [`MeError::message`] returns.
    pub open spec fn spec_message(&self) -> Seq<char> {
        match self {
            MeError::Validation => "validation error"@,
            MeError::AlreadyExists => "identity already exists"@,
            MeError::NotFound => "identity does not exist"@,
            MeError::AuthenticationFailed => "authentication failed"@,
            MeError::EncryptionFailed => "encryption failed"@,
            MeError::StoreConnectivity => "store connectivity failure"@,
            MeError::Serialization => "serialization error"@,
        }
    }

    /// A short description, for callers that render errors.
    pub fn message(&self) -> (r: &'static str)
        ensures
            r@ == self.spec_message(),
    {
        match self {
            MeError::Validation => "validation error",
            MeError::AlreadyExists => "identity already exists",
            MeError::NotFound => "identity does not exist",
            MeError::AuthenticationFailed => "authentication failed",
            MeError::EncryptionFailed => "encryption failed",
            MeError::StoreConnectivity => "store connectivity failure",
            MeError::Serialization => "serialization error",
        }
    }
}

} // verus!
