//! The sealed store: how a passphrase and a salt become a key, how a record
//! set becomes one encrypted blob, and how the blob is opened and read back.
//!
//! The round trip is carried by the contracts: [`seal`] states that the
//! ciphertext is [`sealed`] from the key, the fresh nonce and the plaintext,
//! and [`open_sealed`] states that it returns exactly the plaintext sealed
//! under that key and nonce — and an `AuthenticationError` whenever the
//! ciphertext was sealed under no plaintext at all with this key and nonce
//! (a wrong passphrase, corrupted bytes, or mismatched metadata).

use vstd::prelude::*;
use crate::codec::{deserialize, parse_top, ser, serialize};
use crate::crypto::{
    derive_key_bytes, derived_key, gen_nonce_bytes, gen_salt_bytes, open_bytes, seal_bytes, sealed,
    KEY_LEN, NONCE_LEN, SALT_LEN,
};
use crate::error::StoreError;
use crate::records::{wf, Records};

verus! {

/// Everything the store persists: the ciphertext and its nonce and salt,
/// kept as three separate artifacts on disk.
#[derive(Debug)]
pub struct SealedBlob {
    pub ciphertext: Vec<u8>,
    pub nonce: Vec<u8>,
    pub salt: Vec<u8>,
}

/// The persisted metadata has the lengths the cipher expects.
pub open spec fn wf_blob(b: SealedBlob) -> bool {
    b.salt@.len() == SALT_LEN && b.nonce@.len() == NONCE_LEN
}

/// A fresh random salt, generated once when a store is created and reused
/// for its whole lifetime.
pub fn fresh_salt() -> (r: Vec<u8>)
    ensures
        r@.len() == SALT_LEN,
{
    gen_salt_bytes()
}

/// Derives the symmetric key from the master passphrase and the store's
/// salt: deterministic, so the same passphrase and salt always reproduce
/// the key. Fails only with `KeyDerivationError`, on a resource failure.
pub fn derive_key(pass: &str, salt: &Vec<u8>) -> (r: Result<Vec<u8>, StoreError>)
    requires
        salt@.len() == SALT_LEN,
    ensures
        r matches Ok(k) ==> (k@ == derived_key(pass@, salt@) && k@.len() == KEY_LEN),
        r matches Err(e) ==> e == StoreError::KeyDerivationError,
{
    match derive_key_bytes(pass, salt) {
        Some(k) => Ok(k),
        None => Err(StoreError::KeyDerivationError),
    }
}

/// Seals a plaintext under the key with a freshly generated nonce, and
/// returns the ciphertext with that nonce.
pub fn seal(key: &Vec<u8>, pt: &str) -> (r: (Vec<u8>, Vec<u8>))
    requires
        key@.len() == KEY_LEN,
    ensures
        r.1@.len() == NONCE_LEN,
        r.0@ == sealed(key@, r.1@, pt@),
{
    let nonce = gen_nonce_bytes();
    let ct = seal_bytes(key, &nonce, pt);
    (ct, nonce)
}

/// Opens a ciphertext: returns the plaintext that was sealed under this key
/// and nonce, and `AuthenticationError` when there is none — deliberately
/// without saying whether the passphrase was wrong or the data corrupted.
pub fn open_sealed(key: &Vec<u8>, ct: &Vec<u8>, nonce: &Vec<u8>) -> (r: Result<String, StoreError>)
    requires
        key@.len() == KEY_LEN,
        nonce@.len() == NONCE_LEN,
    ensures
        r matches Ok(p) ==> ct@ == sealed(key@, nonce@, p@),
        forall|m: Seq<char>| ct@ == sealed(key@, nonce@, m) ==> (r matches Ok(p) && p@ == m),
        r matches Err(e) ==> e == StoreError::AuthenticationError,
        (forall|m: Seq<char>| ct@ != sealed(key@, nonce@, m)) ==> r == Err::<String, StoreError>(
            StoreError::AuthenticationError,
        ),
{
    match open_bytes(key, nonce, ct) {
        Some(p) => Ok(p),
        None => Err(StoreError::AuthenticationError),
    }
}

/// Serializes and seals a record set under the passphrase-derived key with
/// a fresh nonce, returning the ciphertext and that nonce; the salt is the
/// store's existing one, unchanged.
pub fn seal_records(pass: &str, salt: &Vec<u8>, data: &Records) -> (r: Result<
    (Vec<u8>, Vec<u8>),
    StoreError,
>)
    requires
        salt@.len() == SALT_LEN,
    ensures
        r matches Ok(cn) ==> (cn.1@.len() == NONCE_LEN && cn.0@ == sealed(
            derived_key(pass@, salt@),
            cn.1@,
            ser(data@),
        )),
        r matches Err(e) ==> e == StoreError::KeyDerivationError,
{
    let json = serialize(data);
    match derive_key(pass, salt) {
        Err(e) => Err(e),
        Ok(key) => {
            let (ct, nonce) = seal(&key, json.as_str());
            Ok((ct, nonce))
        },
    }
}

/// Opens a sealed blob under the passphrase-derived key and deserializes
/// the record set: the result can only come from a plaintext sealed under
/// that key which parses to it. Whenever the blob really is a record set
/// sealed under this passphrase and salt, the result is exactly that record
/// set (or a `KeyDerivationError` if no key could be derived); a wrong
/// passphrase or corrupted metadata gives `AuthenticationError`, and a
/// sealed plaintext that is no record-set text gives `MalformedStoreError`.
pub fn open_records(pass: &str, blob: &SealedBlob) -> (r: Result<Records, StoreError>)
    ensures
        r matches Ok(out) ==> (wf_blob(*blob) && exists|p: Seq<char>|
            blob.ciphertext@ == sealed(derived_key(pass@, blob.salt@), blob.nonce@, p)
                && #[trigger] parse_top(p) == Some(out@)),
        forall|v: Seq<(Seq<char>, Seq<char>)>|
            (wf_blob(*blob) && blob.ciphertext@ == sealed(
                derived_key(pass@, blob.salt@),
                blob.nonce@,
                ser(v),
            )) ==> ((r matches Ok(out) && out@ == v) || r == Err::<Records, StoreError>(
                StoreError::KeyDerivationError,
            )),
        r matches Err(e) ==> (e == StoreError::KeyDerivationError
            || e == StoreError::AuthenticationError || e == StoreError::MalformedStoreError),
{
    if blob.salt.len() != SALT_LEN || blob.nonce.len() != NONCE_LEN {
        return Err(StoreError::AuthenticationError);
    }
    match derive_key(pass, &blob.salt) {
        Err(e) => Err(e),
        Ok(key) => {
            match open_sealed(&key, &blob.ciphertext, &blob.nonce) {
                Err(e) => {
                    proof {
                        assert forall|v: Seq<(Seq<char>, Seq<char>)>|
                            blob.ciphertext@ != sealed(
                                derived_key(pass@, blob.salt@),
                                blob.nonce@,
                                ser(v),
                            ) by {
                            if blob.ciphertext@ == sealed(key@, blob.nonce@, ser(v)) {
                            }
                        }
                    }
                    Err(e)
                },
                Ok(json) => {
                    match deserialize(json.as_str()) {
                        Ok(data) => {
                            proof {
                                assert(blob.ciphertext@ == sealed(
                                    derived_key(pass@, blob.salt@),
                                    blob.nonce@,
                                    json@,
                                ) && parse_top(json@) == Some(data@));
                            }
                            Ok(data)
                        },
                        Err(_) => {
                            proof {
                                assert forall|v: Seq<(Seq<char>, Seq<char>)>|
                                    blob.ciphertext@ != sealed(
                                        derived_key(pass@, blob.salt@),
                                        blob.nonce@,
                                        ser(v),
                                    ) by {
                                    if blob.ciphertext@ == sealed(key@, blob.nonce@, ser(v)) {
                                        assert(json@ == ser(v));
                                    }
                                }
                            }
                            Err(StoreError::MalformedStoreError)
                        },
                    }
                },
            }
        },
    }
}

/// Creates a brand-new store: a fresh salt, an empty record set, and the
/// sealed blob that persists it.
pub fn init_store(pass: &str) -> (r: Result<(Records, SealedBlob), StoreError>)
    ensures
        r matches Ok(p) ==> (p.0@ == Seq::<(Seq<char>, Seq<char>)>::empty() && wf(p.0@) && wf_blob(
            p.1,
        ) && p.1.ciphertext@ == sealed(derived_key(pass@, p.1.salt@), p.1.nonce@, ser(p.0@))),
        r matches Err(e) ==> e == StoreError::KeyDerivationError,
{
    let data = Records::new();
    let salt = fresh_salt();
    match seal_records(pass, &salt, &data) {
        Err(e) => Err(e),
        Ok((ct, nonce)) => Ok((data, SealedBlob { ciphertext: ct, nonce, salt })),
    }
}

} // verus!
