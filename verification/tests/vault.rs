//! The credential vault: encryption round trips, password checking, and the
//! wrong-password vault.

use wallet_core::account::{AccountIdentifier, Credentials};
use wallet_core::storage::{MemStorage, Storage};
use wallet_core::vault::{KeyChain, VaultError};

#[test]
fn save_then_retrieve_returns_the_original_phrase() {
    let storage = MemStorage::new();
    let mut vault = KeyChain::new(storage, "secret123");
    vault.set("alice_$SEED_PHRASE", "abandon ability able about above absent absorb abstract absurd abuse access accident");
    let read = vault.get_decrypted("alice_$SEED_PHRASE");
    assert_eq!(
        read,
        Ok(Some("abandon ability able about above absent absorb abstract absurd abuse access accident".to_string()))
    );
}

#[test]
fn stored_value_is_ciphertext_not_plaintext() {
    let storage = MemStorage::new();
    let mut vault = KeyChain::new(storage, "secret123");
    vault.set("k", "plain value");
    let storage = vault.into_storage();
    let raw = storage.get("k").expect("an entry must exist");
    assert_ne!(raw, "plain value".to_string());
}

#[test]
fn check_password_accepts_the_registered_password() {
    let storage = MemStorage::new();
    let mut vault = KeyChain::new(storage, "hunter22");
    vault.register_password_record("bob", "hunter22");
    let storage = vault.into_storage();
    assert!(KeyChain::<MemStorage>::check_password(&storage, "bob", "hunter22"));
}

#[test]
fn check_password_rejects_a_wrong_password() {
    let storage = MemStorage::new();
    let mut vault = KeyChain::new(storage, "hunter22");
    vault.register_password_record("bob", "hunter22");
    let storage = vault.into_storage();
    assert!(!KeyChain::<MemStorage>::check_password(&storage, "bob", "hunter23"));
    assert!(!KeyChain::<MemStorage>::check_password(&storage, "bob", ""));
}

#[test]
fn check_password_rejects_when_no_record_exists() {
    let storage = MemStorage::new();
    assert!(!KeyChain::<MemStorage>::check_password(&storage, "nobody", "anything"));
}

#[test]
fn check_password_rejects_a_tampered_record() {
    let mut storage = MemStorage::new();
    storage.set("mallory", "");
    assert!(!KeyChain::<MemStorage>::check_password(&storage, "mallory", "mallory"));
    storage.set("mallory", "not base64 at all!");
    assert!(!KeyChain::<MemStorage>::check_password(&storage, "mallory", "mallory"));
}

#[test]
fn wrong_password_vault_reports_decryption_failure_not_garbage() {
    let storage = MemStorage::new();
    let mut vault = KeyChain::new(storage, "secret123");
    let identifier = AccountIdentifier { id: "alice".to_string() };
    vault.save_seed_phrase(&identifier, "abandon ability able about above absent absorb abstract absurd abuse access accident");
    let read = vault.get_seed_phrase(&identifier);
    assert_eq!(
        read,
        Ok(Some("abandon ability able about above absent absorb abstract absurd abuse access accident".to_string()))
    );

    let storage = vault.into_storage();
    let wrong_vault = KeyChain::new(storage, "wrong");
    let read = wrong_vault.get_seed_phrase(&identifier);
    assert_eq!(read, Err(VaultError::Undecryptable));
}

#[test]
fn delete_and_clear_pass_through() {
    let storage = MemStorage::new();
    let mut vault = KeyChain::new(storage, "pw1234");
    vault.set("a", "1");
    vault.set("b", "2");
    vault.delete("a");
    assert_eq!(vault.get_decrypted("a"), Ok(None));
    assert_eq!(vault.get_decrypted("b"), Ok(Some("2".to_string())));
    vault.clear();
    assert_eq!(vault.get_decrypted("b"), Ok(None));
}

#[test]
fn overwriting_a_key_keeps_the_last_value() {
    let storage = MemStorage::new();
    let mut vault = KeyChain::new(storage, "pw1234");
    vault.set("k", "first");
    vault.set("k", "second");
    assert_eq!(vault.get_decrypted("k"), Ok(Some("second".to_string())));
}
