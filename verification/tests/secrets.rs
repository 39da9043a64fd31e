use melwalletd::secrets::{
    EncryptedSK, PersistentSecret, SecretStore, ARGON2_MEM_LIMIT, ARGON2_TIME_LIMIT,
};
use melwalletd::signer::Ed25519SK;

#[test]
fn simple() {
    let sk = Ed25519SK::generate().unwrap();
    let encrypted = EncryptedSK::new(sk, "hello world").unwrap();
    assert!(encrypted.decrypt("hello world").is_some());
    assert!(encrypted.decrypt("hello worldr").is_none())
}

#[test]
fn decrypting_gives_the_key_back() {
    let sk = Ed25519SK::generate().unwrap();
    let encrypted = EncryptedSK::with_salt(sk, "pässword", [3u8; 16]).unwrap();
    assert_eq!(encrypted.decrypt("pässword"), Some(sk));
}

#[test]
fn record_holds_salt_costs_and_sealed_key() {
    let sk = Ed25519SK([5u8; 64]);
    let encrypted = EncryptedSK::with_salt(sk, "pw", [9u8; 16]).unwrap();
    assert_eq!(encrypted.salt(), vec![9u8; 16]);
    assert_eq!(encrypted.mem_cost(), 32 * 1024);
    assert_eq!(encrypted.time_cost(), 10);
    assert_eq!(encrypted.ciphertext().len(), 64 + 16);
    assert_ne!(&encrypted.ciphertext()[..64], &sk.0[..]);
}

#[test]
fn sealing_is_a_function_of_key_password_and_salt() {
    let sk = Ed25519SK([5u8; 64]);
    let a = EncryptedSK::with_salt(sk, "pw", [9u8; 16]).unwrap();
    let b = EncryptedSK::with_salt(sk, "pw", [9u8; 16]).unwrap();
    assert_eq!(a.ciphertext(), b.ciphertext());
}

#[test]
fn sealing_depends_on_the_salt() {
    let sk = Ed25519SK([5u8; 64]);
    let a = EncryptedSK::with_salt(sk, "pw", [9u8; 16]).unwrap();
    let c = EncryptedSK::with_salt(sk, "pw", [8u8; 16]).unwrap();
    assert_ne!(a.ciphertext(), c.ciphertext());
}

#[test]
fn sealing_depends_on_the_password() {
    let sk = Ed25519SK([5u8; 64]);
    let a = EncryptedSK::with_salt(sk, "pw", [9u8; 16]).unwrap();
    let d = EncryptedSK::with_salt(sk, "pv", [9u8; 16]).unwrap();
    assert_ne!(a.ciphertext(), d.ciphertext());
}

#[test]
fn fresh_salts_differ() {
    let sk = Ed25519SK([5u8; 64]);
    let a = EncryptedSK::new(sk, "").unwrap();
    let b = EncryptedSK::new(sk, "").unwrap();
    assert_eq!(a.salt().len(), 16);
    assert_ne!(a.salt(), b.salt());
}

#[test]
fn record_from_parts_decrypts() {
    let sk = Ed25519SK([7u8; 64]);
    let a = EncryptedSK::with_salt(sk, "pw", [1u8; 16]).unwrap();
    let rebuilt = EncryptedSK::from_parts(a.salt(), a.mem_cost(), a.time_cost(), a.ciphertext());
    assert_eq!(rebuilt.decrypt("pw"), Some(sk));
}

#[test]
fn refused_parameters_give_none() {
    let sk = Ed25519SK([7u8; 64]);
    let a = EncryptedSK::with_salt(sk, "pw", [1u8; 16]).unwrap();
    // less than 8 KiB of memory
    let low_mem = EncryptedSK::from_parts(a.salt(), 7, a.time_cost(), a.ciphertext());
    assert_eq!(low_mem.decrypt("pw"), None);
    // no pass
    let no_pass = EncryptedSK::from_parts(a.salt(), a.mem_cost(), 0, a.ciphertext());
    assert_eq!(no_pass.decrypt("pw"), None);
    // a salt of less than 8 bytes
    let short_salt = EncryptedSK::from_parts(vec![1u8; 7], 8, 1, a.ciphertext());
    assert_eq!(short_salt.decrypt("pw"), None);
    // a sealed text shorter than its tag
    let short = EncryptedSK::from_parts(a.salt(), 8, 1, vec![0u8; 15]);
    assert_eq!(short.decrypt("pw"), None);
    // a sealed text of more than 64 bytes and a tag
    let long = EncryptedSK::from_parts(a.salt(), 8, 1, vec![0u8; 81]);
    assert_eq!(long.decrypt("pw"), None);
    // a tampered sealed text
    let mut ct = a.ciphertext();
    ct[0] ^= 1;
    let tampered = EncryptedSK::from_parts(a.salt(), a.mem_cost(), a.time_cost(), ct);
    assert_eq!(tampered.decrypt("pw"), None);
}

#[test]
fn plaintext_secret_unlocks_under_any_password() {
    let sk = Ed25519SK([2u8; 64]);
    let secret = PersistentSecret::Plaintext(sk);
    assert_eq!(secret.unlock("whatever"), Some(sk));
    assert_eq!(secret.unlock(""), Some(sk));
}

#[test]
fn secret_store_stores_and_replaces() {
    let mut store = SecretStore::open();
    assert_eq!(store.len(), 0);
    assert!(store.load("alice").is_none());
    store.store("alice".to_string(), PersistentSecret::Plaintext(Ed25519SK([1u8; 64])));
    store.store("bob".to_string(), PersistentSecret::Plaintext(Ed25519SK([2u8; 64])));
    assert_eq!(store.len(), 2);
    match store.load("alice") {
        Some(PersistentSecret::Plaintext(sk)) => assert_eq!(sk, Ed25519SK([1u8; 64])),
        _ => panic!("alice has a plaintext secret"),
    }
    store.store("alice".to_string(), PersistentSecret::Plaintext(Ed25519SK([3u8; 64])));
    assert_eq!(store.len(), 2);
    match store.load("alice") {
        Some(PersistentSecret::Plaintext(sk)) => assert_eq!(sk, Ed25519SK([3u8; 64])),
        _ => panic!("alice has a plaintext secret"),
    }
    let (name, _) = store.entry_at(0);
    assert_eq!(name, "alice");
    assert!(store.load("carol").is_none());
}

#[test]
fn records_that_cost_too_much_are_not_opened() {
    assert_eq!(ARGON2_MEM_LIMIT, 1 << 20);
    assert_eq!(ARGON2_TIME_LIMIT, 1024);
    let sealed = vec![0u8; 80];
    let greedy = EncryptedSK::from_parts(vec![1u8; 16], u32::MAX, 1, sealed.clone());
    assert_eq!(greedy.decrypt("pw"), None);
    let above = EncryptedSK::from_parts(vec![1u8; 16], ARGON2_MEM_LIMIT + 1, 1, sealed.clone());
    assert_eq!(above.decrypt("pw"), None);
    let slow = EncryptedSK::from_parts(vec![1u8; 16], 8, u32::MAX, sealed.clone());
    assert_eq!(slow.decrypt("pw"), None);
    let slower = EncryptedSK::from_parts(vec![1u8; 16], 8, ARGON2_TIME_LIMIT + 1, sealed);
    assert_eq!(slower.decrypt("pw"), None);
    // what the library seals is within the limits; a record at the limit
    // of passes is tried, and its tag does not match the other key
    let sk = Ed25519SK([7u8; 64]);
    let a = EncryptedSK::with_salt(sk, "pw", [1u8; 16]).unwrap();
    assert!(a.mem_cost() <= ARGON2_MEM_LIMIT && a.time_cost() <= ARGON2_TIME_LIMIT);
    let at_limit = EncryptedSK::from_parts(a.salt(), 8, ARGON2_TIME_LIMIT, a.ciphertext());
    assert_eq!(at_limit.decrypt("pw"), None);
}
