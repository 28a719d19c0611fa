//! Key derivation and authenticated encryption, performed by libsodium
//! through the `sodiumoxide` crate behind trusted wrappers.
//!
//! Two results are named rather than written out: the derived key and the
//! sealed ciphertext. Both are deterministic functions of their arguments
//! (scrypt key derivation; XSalsa20-Poly1305 under a given key and nonce),
//! so every contract here speaks of those names, and the round trip of
//! sealing and opening is stated on them.

use vstd::prelude::*;
use sodiumoxide::crypto::pwhash;
use sodiumoxide::crypto::secretbox;

verus! {

/// The length of a salt, in bytes.
pub const SALT_LEN: usize = 32;

/// The length of a nonce, in bytes.
pub const NONCE_LEN: usize = 24;

/// The length of a derived key, in bytes.
pub const KEY_LEN: usize = 32;

/// The key that scrypt derives from a passphrase and a salt, at the
/// interactive cost limits and with a 32-byte output.
pub uninterp spec fn derived_key(pass: Seq<char>, salt: Seq<u8>) -> Seq<u8>;

/// The ciphertext that XSalsa20-Poly1305 produces from a key, a nonce and
/// the UTF-8 encoding of a plaintext.
pub uninterp spec fn sealed(key: Seq<u8>, nonce: Seq<u8>, pt: Seq<char>) -> Seq<u8>;

/// Relies on sodiumoxide's `pwhash::gen_salt`: a fresh salt of
/// `SALTBYTES` (32) random bytes. Nothing is promised of its value.
#[verifier::external_body]
pub(crate) fn gen_salt_bytes() -> (r: Vec<u8>)
    ensures
        r@.len() == SALT_LEN,
{
    let salt = pwhash::gen_salt();
    salt.0.to_vec()
}

/// Relies on sodiumoxide's `secretbox::gen_nonce`: a fresh nonce of
/// `NONCEBYTES` (24) random bytes. Nothing is promised of its value.
#[verifier::external_body]
pub(crate) fn gen_nonce_bytes() -> (r: Vec<u8>)
    ensures
        r@.len() == NONCE_LEN,
{
    let nonce = secretbox::gen_nonce();
    nonce.0.to_vec()
}

/// Relies on sodiumoxide's `pwhash::derive_key` at the interactive cost
/// limits: deterministic in the passphrase and the salt (so its result is
/// the name [`derived_key`]); it fails only when the operating system
/// refuses the resources the computation needs.
#[verifier::external_body]
pub(crate) fn derive_key_bytes(pass: &str, salt: &Vec<u8>) -> (r: Option<Vec<u8>>)
    requires
        salt@.len() == SALT_LEN,
    ensures
        r matches Some(k) ==> (k@ == derived_key(pass@, salt@) && k@.len() == KEY_LEN),
{
    let s = pwhash::Salt::from_slice(salt.as_slice())?;
    let mut kb = [0u8; 32];
    match pwhash::derive_key(
        &mut kb,
        pass.as_bytes(),
        &s,
        pwhash::OPSLIMIT_INTERACTIVE,
        pwhash::MEMLIMIT_INTERACTIVE,
    ) {
        Ok(_) => Some(kb.to_vec()),
        Err(()) => None,
    }
}

/// Relies on sodiumoxide's `secretbox::seal`: deterministic in the key, the
/// nonce and the message (so its result is the name [`sealed`]); the message
/// here is the UTF-8 encoding of `pt`.
#[verifier::external_body]
pub(crate) fn seal_bytes(key: &Vec<u8>, nonce: &Vec<u8>, pt: &str) -> (r: Vec<u8>)
    requires
        key@.len() == KEY_LEN,
        nonce@.len() == NONCE_LEN,
    ensures
        r@ == sealed(key@, nonce@, pt@),
{
    let k = secretbox::Key::from_slice(key.as_slice()).unwrap();
    let n = secretbox::Nonce::from_slice(nonce.as_slice()).unwrap();
    secretbox::seal(pt.as_bytes(), &n, &k)
}

/// Relies on sodiumoxide's `secretbox::open`: it verifies and decrypts, so
/// it succeeds exactly on what `secretbox::seal` produced under the same key
/// and nonce, and then returns the sealed message; the decrypted bytes are
/// decoded from UTF-8 (a sealed message always decodes back).
#[verifier::external_body]
pub(crate) fn open_bytes(key: &Vec<u8>, nonce: &Vec<u8>, ct: &Vec<u8>) -> (r: Option<String>)
    requires
        key@.len() == KEY_LEN,
        nonce@.len() == NONCE_LEN,
    ensures
        r matches Some(p) ==> ct@ == sealed(key@, nonce@, p@),
        r matches Some(p) ==> forall|m: Seq<char>| ct@ == sealed(key@, nonce@, m) ==> m == p@,
        r is None ==> forall|m: Seq<char>| ct@ != sealed(key@, nonce@, m),
{
    let k = secretbox::Key::from_slice(key.as_slice()).unwrap();
    let n = secretbox::Nonce::from_slice(nonce.as_slice()).unwrap();
    match secretbox::open(ct.as_slice(), &n, &k) {
        Ok(m) => String::from_utf8(m).ok(),
        Err(()) => None,
    }
}

} // verus!
