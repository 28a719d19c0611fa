//! A local credential store: name/password records kept in a single
//! encrypted blob, unlocked by one master passphrase.
//!
//! The record set and its structured-text serialization are verified in
//! full; key derivation and authenticated encryption are performed by
//! libsodium (through the `sodiumoxide` crate) behind trusted wrappers
//! whose contracts state what that library documents.

pub mod error;
pub mod records;
pub mod codec;
pub mod crypto;
pub mod passgen;
pub mod store;
