use credstore::codec::{deserialize, serialize};
use credstore::error::StoreError;
use credstore::records::{find_record, is_present, Records};
use credstore::store::{derive_key, fresh_salt, init_store, open_records, open_sealed, seal,
    seal_records, SealedBlob};

#[test]
fn test_generate_password() {
    assert_eq!(1, 1);
}

#[test]
fn test_encryption() {
    let salt = fresh_salt();
    let key = derive_key("SuperSecurePassword", &salt).unwrap();
    let (ciphertext, nonce) = seal(&key, "Please, encrypt this");
    let decrypted = open_sealed(&key, &ciphertext, &nonce).unwrap();
    assert_eq!(decrypted, "Please, encrypt this".to_string());
}

#[test]
#[should_panic(expected = "Unable to decrypt data")]
fn test_encryption_fail() {
    let salt = fresh_salt();
    let key = derive_key("SuperSecurePassword", &salt).unwrap();
    let (ciphertext, nonce) = seal(&key, "Please, encrypt this");
    let other_key = derive_key("VeryDifferentPassword", &salt).unwrap();
    open_sealed(&other_key, &ciphertext, &nonce).expect("Unable to decrypt data");
}

#[test]
fn wrong_passphrase_gives_authentication_error() {
    let salt = fresh_salt();
    let key = derive_key("first passphrase", &salt).unwrap();
    let (ciphertext, nonce) = seal(&key, "some plaintext");
    let other_key = derive_key("second passphrase", &salt).unwrap();
    let r = open_sealed(&other_key, &ciphertext, &nonce);
    assert_eq!(r.unwrap_err(), StoreError::AuthenticationError);
}

#[test]
fn nonces_and_ciphertexts_differ_between_seals() {
    let salt = fresh_salt();
    let key = derive_key("one passphrase", &salt).unwrap();
    let (ct1, n1) = seal(&key, "same plaintext");
    let (ct2, n2) = seal(&key, "same plaintext");
    assert_ne!(n1, n2);
    assert_ne!(ct1, ct2);
}

#[test]
fn derivation_is_deterministic() {
    let salt = fresh_salt();
    let k1 = derive_key("a passphrase", &salt).unwrap();
    let k2 = derive_key("a passphrase", &salt).unwrap();
    assert_eq!(k1, k2);
    assert_eq!(k1.len(), 32);
}

#[test]
fn serialize_empty_set() {
    let data = Records::new();
    assert_eq!(serialize(&data), "{\"records\":[]}".to_string());
}

#[test]
fn serialize_one_record_exactly() {
    let mut data = Records::new();
    data.add("github".to_string(), "s3cr3t".to_string()).unwrap();
    assert_eq!(
        serialize(&data),
        "{\"records\":[{\"name\":\"github\",\"password\":\"s3cr3t\"}]}".to_string()
    );
}

#[test]
fn serialize_escapes_exactly() {
    let mut data = Records::new();
    data.add("a\"b\\c".to_string(), "x\ny".to_string()).unwrap();
    assert_eq!(
        serialize(&data),
        "{\"records\":[{\"name\":\"a\\\"b\\\\c\",\"password\":\"x\\u000ay\"}]}".to_string()
    );
}

#[test]
fn round_trip_empty_set() {
    let data = Records::new();
    let text = serialize(&data);
    let back = deserialize(text.as_str()).unwrap();
    assert_eq!(back.records.len(), 0);
}

#[test]
fn round_trip_keeps_every_record() {
    let mut data = Records::new();
    data.add("plain".to_string(), "secret one".to_string()).unwrap();
    data.add("with space".to_string(), "p\u{00e4}ss w\u{00f6}rt".to_string()).unwrap();
    data.add("quote\"back\\slash".to_string(), "tab\there\nnewline".to_string()).unwrap();
    data.add("\u{65e5}\u{672c}\u{8a9e}".to_string(), "\u{1f512}".to_string()).unwrap();
    let text = serialize(&data);
    let back = deserialize(text.as_str()).unwrap();
    assert_eq!(back.records.len(), data.records.len());
    for i in 0..data.records.len() {
        assert_eq!(back.records[i].name, data.records[i].name);
        assert_eq!(back.records[i].password, data.records[i].password);
    }
}

#[test]
fn deserialize_rejects_malformed_text() {
    assert_eq!(
        deserialize("not a store").unwrap_err(),
        StoreError::MalformedStoreError
    );
    assert_eq!(
        deserialize("{\"records\":[]} ").unwrap_err(),
        StoreError::MalformedStoreError
    );
    assert_eq!(
        deserialize("{\"records\":[{\"name\":\"a\"}]}").unwrap_err(),
        StoreError::MalformedStoreError
    );
    assert_eq!(deserialize("").unwrap_err(), StoreError::MalformedStoreError);
}

#[test]
fn add_duplicate_key_fails_and_keeps_first() {
    let mut data = Records::new();
    data.add("alice".to_string(), "x".to_string()).unwrap();
    let r = data.add("alice".to_string(), "y".to_string());
    assert_eq!(r.unwrap_err(), StoreError::DuplicateKeyError);
    assert_eq!(data.records.len(), 1);
    let rec = find_record(&data, "alice".to_string()).unwrap();
    assert_eq!(rec.password, "x".to_string());
}

#[test]
fn update_missing_key_fails_and_changes_nothing() {
    let mut data = Records::new();
    data.add("alice".to_string(), "x".to_string()).unwrap();
    let r = data.update("bob".to_string(), "new".to_string());
    assert_eq!(r.unwrap_err(), StoreError::KeyNotFoundError);
    assert_eq!(data.records.len(), 1);
    assert_eq!(find_record(&data, "alice".to_string()).unwrap().password, "x".to_string());
}

#[test]
fn update_present_key_replaces_password() {
    let mut data = Records::new();
    data.add("alice".to_string(), "x".to_string()).unwrap();
    data.add("bob".to_string(), "y".to_string()).unwrap();
    data.update("alice".to_string(), "z".to_string()).unwrap();
    assert_eq!(data.records.len(), 2);
    assert_eq!(find_record(&data, "alice".to_string()).unwrap().password, "z".to_string());
    assert_eq!(find_record(&data, "bob".to_string()).unwrap().password, "y".to_string());
}

#[test]
fn remove_absent_key_is_a_noop() {
    let mut data = Records::new();
    data.add("alice".to_string(), "x".to_string()).unwrap();
    data.remove("carol");
    assert_eq!(data.records.len(), 1);
    assert!(is_present(&data, "alice"));
}

#[test]
fn remove_present_key_deletes_the_record() {
    let mut data = Records::new();
    data.add("alice".to_string(), "x".to_string()).unwrap();
    data.add("bob".to_string(), "y".to_string()).unwrap();
    data.remove("alice");
    assert_eq!(data.records.len(), 1);
    assert!(!is_present(&data, "alice"));
    assert!(is_present(&data, "bob"));
}

#[test]
fn find_record_missing_key_fails() {
    let data = Records::new();
    let r = find_record(&data, "nobody".to_string());
    assert_eq!(r.unwrap_err(), StoreError::KeyNotFoundError);
}

#[test]
fn open_records_rejects_short_metadata() {
    let blob = SealedBlob { ciphertext: vec![1, 2, 3], nonce: vec![0; 5], salt: vec![0; 32] };
    assert_eq!(
        open_records("pass", &blob).unwrap_err(),
        StoreError::AuthenticationError
    );
}

#[test]
fn open_records_rejects_corrupted_ciphertext() {
    let (data, blob) = init_store("master").unwrap();
    assert_eq!(data.records.len(), 0);
    let mut bad = blob.ciphertext.clone();
    let last = bad.len() - 1;
    bad[last] = bad[last].wrapping_add(1);
    let broken = SealedBlob { ciphertext: bad, nonce: blob.nonce.clone(), salt: blob.salt.clone() };
    assert_eq!(
        open_records("master", &broken).unwrap_err(),
        StoreError::AuthenticationError
    );
}

#[test]
fn end_to_end_store_lifecycle() {
    let (mut data, blob) = init_store("master passphrase").unwrap();
    let loaded = open_records("master passphrase", &blob).unwrap();
    assert_eq!(loaded.records.len(), 0);

    data.add("github".to_string(), "s3cr3t".to_string()).unwrap();
    let (ciphertext, nonce) = seal_records("master passphrase", &blob.salt, &data).unwrap();
    let saved = SealedBlob { ciphertext, nonce, salt: blob.salt.clone() };

    let reloaded = open_records("master passphrase", &saved).unwrap();
    assert_eq!(
        find_record(&reloaded, "github".to_string()).unwrap().password,
        "s3cr3t".to_string()
    );
    assert_eq!(reloaded.names(), vec!["github".to_string()]);

    let mut mutated = reloaded;
    mutated.remove("github");
    assert!(find_record(&mutated, "github".to_string()).is_err());
    assert_eq!(
        find_record(&mutated, "github".to_string()).unwrap_err(),
        StoreError::KeyNotFoundError
    );
    assert_eq!(mutated.names(), Vec::<String>::new());
}

#[test]
fn generated_password_meets_the_policy() {
    let p = credstore::passgen::generate_password();
    let chars: Vec<char> = p.chars().collect();
    assert_eq!(chars.len(), 8);
    assert!(chars.iter().any(|c| c.is_ascii_digit()));
    assert!(chars.iter().any(|c| c.is_ascii_lowercase()));
    assert!(chars.iter().any(|c| c.is_ascii_uppercase()));
    assert!(chars.iter().any(|c| c.is_ascii_punctuation()));
}

#[test]
fn deserialize_accepts_short_control_escapes() {
    let text = "{\"records\":[{\"name\":\"a\",\"password\":\"x\\ny\\tz\\r\\b\\f\"}]}";
    let back = deserialize(text).unwrap();
    assert_eq!(back.records.len(), 1);
    assert_eq!(back.records[0].name, "a".to_string());
    assert_eq!(
        back.records[0].password,
        "x\ny\tz\r\u{08}\u{0c}".to_string()
    );
}
