//! The error taxonomy of the store. Every error is fatal for the current
//! operation: nothing is retried.

use vstd::prelude::*;

verus! {

/// One tagged error for every way an operation can fail.
#[derive(Clone, Copy, Debug, PartialEq, Eq, Structural)]
pub enum StoreError {
    /// Key derivation did not complete (a resource failure, not a wrong input).
    KeyDerivationError,
    /// Decryption failed: wrong passphrase, corrupted ciphertext, or mismatched
    /// nonce/salt metadata. Deliberately not more specific than that.
    AuthenticationError,
    /// `add` was asked to insert a name that is already present.
    DuplicateKeyError,
    /// `update` or `show` was asked for a name that is not present.
    KeyNotFoundError,
    /// A file could not be opened, read or written.
    IOError,
    /// The decrypted text is not a serialized record set.
    MalformedStoreError,
}

impl StoreError {
    /// A human-readable description, for the process's final message.
    pub fn message(&self) -> (r: &'static str)
    {
        match self {
            StoreError::KeyDerivationError => "unable to derive a key from the passphrase",
            StoreError::AuthenticationError => "unable to decrypt the store",
            StoreError::DuplicateKeyError => "a record with the given key already exists",
            StoreError::KeyNotFoundError => "no record with the given key exists",
            StoreError::IOError => "unable to read or write the store files",
            StoreError::MalformedStoreError => "the decrypted store is not well-formed",
        }
    }
}

} // verus!
