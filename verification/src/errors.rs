//! The closed taxonomy of failures that vault operations report.

use vstd::prelude::*;
use vstd::string::StringExecFns;

verus! {

/// Every failure a vault operation can return. The distinction between a
/// wrong password and tampered ciphertext is deliberately not made:
/// both surface as `AuthenticationFailed`.
#[derive(Clone, Copy, Debug, PartialEq, Eq, Structural)]
pub enum VaultError {
    /// No stored envelope exists for the requested project name.
    NotFound,
    /// A project of this name already exists; enforced by callers that
    /// want creation semantics, since saving always overwrites.
    AlreadyExists,
    /// The ciphertext failed authentication: wrong password or tampered
    /// data, indistinguishable by design.
    AuthenticationFailed,
    /// The stored envelope is structurally invalid: bad JSON, bad base64,
    /// or a salt or nonce of the wrong length.
    MalformedEnvelope,
    /// The envelope decrypted, but the plaintext is not a valid project
    /// payload.
    CorruptData,
    /// The project name could escape the storage directory and is rejected.
    InvalidName,
    /// The serialized payload exceeds the cipher's single-message limit.
    PayloadTooLarge,
    /// A filesystem failure reported by the surrounding application.
    IoError,
}

impl VaultError {
    /// What `message` returns for each variant.
    pub open spec fn message_spec(self) -> Seq<char> {
        match self {
            VaultError::NotFound => "project not found"@,
            VaultError::AlreadyExists => "project already exists"@,
            VaultError::AuthenticationFailed => "authentication failed: wrong password or corrupted data"@,
            VaultError::MalformedEnvelope => "stored envelope is malformed"@,
            VaultError::CorruptData => "decrypted data is corrupt"@,
            VaultError::InvalidName => "project name is not allowed"@,
            VaultError::PayloadTooLarge => "project payload is too large to encrypt"@,
            VaultError::IoError => "filesystem operation failed"@,
        }
    }

    /// A description of the failure; never echoes secret material.
    pub fn message(&self) -> (r: String)
        ensures
            r@ == self.message_spec(),
    {
        match self {
            VaultError::NotFound => String::from_str("project not found"),
            VaultError::AlreadyExists => String::from_str("project already exists"),
            VaultError::AuthenticationFailed => String::from_str(
                "authentication failed: wrong password or corrupted data",
            ),
            VaultError::MalformedEnvelope => String::from_str("stored envelope is malformed"),
            VaultError::CorruptData => String::from_str("decrypted data is corrupt"),
            VaultError::InvalidName => String::from_str("project name is not allowed"),
            VaultError::PayloadTooLarge => String::from_str(
                "project payload is too large to encrypt",
            ),
            VaultError::IoError => String::from_str("filesystem operation failed"),
        }
    }
}

} // verus!
