use aes_gcm::aead::{Aead, KeyInit};
use aes_gcm::{Aes256Gcm, Key, Nonce};
use sha2::{Digest, Sha256};
use base64::engine::general_purpose::STANDARD;
use base64::Engine;
use gateway::vault::{Vault, VaultError};

#[test]
fn encrypt_decrypt_roundtrip() {
    let vault = Vault::new("test-master-secret");
    let plaintext = "sk-test-api-key-12345";
    let encrypted = vault.encrypt(plaintext);
    let decrypted = vault.decrypt(&encrypted).unwrap();
    assert_eq!(decrypted, plaintext);
}

#[test]
fn wrong_key_fails_decryption() {
    let vault_a = Vault::new("secret-a");
    let vault_b = Vault::new("secret-b");
    let encrypted = vault_a.encrypt("sensitive-value");
    assert!(matches!(
        vault_b.decrypt(&encrypted),
        Err(VaultError::DecryptionFailed)
    ));
}

#[test]
fn empty_string_roundtrip() {
    let vault = Vault::new("test-master-secret");
    let encrypted = vault.encrypt("");
    let decrypted = vault.decrypt(&encrypted).unwrap();
    assert_eq!(decrypted, "");
}

#[test]
fn sealed_form_is_nonce_ciphertext_and_tag() {
    let vault = Vault::new("k");
    let encrypted = vault.encrypt("hello");
    let raw = STANDARD.decode(&encrypted).unwrap();
    assert_eq!(raw.len(), 12 + 5 + 16);
    assert!(!encrypted.contains("hello"));
}

#[test]
fn same_secret_gives_same_key() {
    let encrypted = Vault::new("shared").encrypt("v");
    assert_eq!(Vault::new("shared").decrypt(&encrypted), Ok("v".to_string()));
}

#[test]
fn fresh_nonce_each_time() {
    let vault = Vault::new("k");
    assert_ne!(vault.encrypt("same"), vault.encrypt("same"));
}

#[test]
fn unicode_roundtrip() {
    let vault = Vault::new("clé");
    let encrypted = vault.encrypt("pässwörd ✓");
    assert_eq!(vault.decrypt(&encrypted), Ok("pässwörd ✓".to_string()));
}

#[test]
fn invalid_base64_is_reported() {
    let vault = Vault::new("k");
    assert_eq!(vault.decrypt("not base64!"), Err(VaultError::InvalidBase64));
}

#[test]
fn too_short_fails() {
    let vault = Vault::new("k");
    // "AAAA" is three zero bytes: shorter than a nonce.
    assert_eq!(vault.decrypt("AAAA"), Err(VaultError::DecryptionFailed));
}

#[test]
fn tampered_ciphertext_fails() {
    let vault = Vault::new("k");
    let encrypted = vault.encrypt("secret");
    let mut raw = STANDARD.decode(&encrypted).unwrap();
    let last = raw.len() - 1;
    raw[last] ^= 1;
    assert_eq!(vault.decrypt(&STANDARD.encode(&raw)), Err(VaultError::DecryptionFailed));
}

fn seal_outside(secret: &str, nonce: [u8; 12], plaintext: &[u8]) -> String {
    let key = Sha256::digest(secret.as_bytes());
    let cipher = Aes256Gcm::new(Key::<Aes256Gcm>::from_slice(&key));
    let ciphertext = cipher.encrypt(Nonce::from_slice(&nonce), plaintext).unwrap();
    let mut raw = nonce.to_vec();
    raw.extend_from_slice(&ciphertext);
    STANDARD.encode(&raw)
}

#[test]
fn key_is_sha256_of_secret() {
    let sealed = seal_outside("master", [3u8; 12], b"hi there");
    assert_eq!(Vault::new("master").decrypt(&sealed), Ok("hi there".to_string()));
    assert_eq!(Vault::new("Master").decrypt(&sealed), Err(VaultError::DecryptionFailed));
}

#[test]
fn non_utf8_plaintext_fails() {
    let sealed = seal_outside("k", [7u8; 12], &[0xff, 0xfe]);
    assert_eq!(Vault::new("k").decrypt(&sealed), Err(VaultError::DecryptionFailed));
}

#[test]
fn ordinary_keys_are_sealable() {
    assert!(gateway::vault::is_sealable(""));
    assert!(gateway::vault::is_sealable("sk-test-api-key-12345"));
}

#[test]
fn seal_with_given_nonce_is_deterministic() {
    let vault = Vault::new("k");
    let nonce = [9u8; 12];
    let a = vault.seal(&nonce, "abc");
    assert_eq!(a, vault.seal(&nonce, "abc"));
    assert_eq!(a, seal_outside("k", nonce, b"abc"));
    let raw = STANDARD.decode(&a).unwrap();
    assert_eq!(raw.len(), 12 + 3 + 16);
    assert_eq!(&raw[..12], &nonce[..]);
    assert_eq!(vault.decrypt(&a), Ok("abc".to_string()));
}

#[test]
fn decoded_shorter_than_nonce_and_tag_fails() {
    let vault = Vault::new("k");
    // 27 bytes: a nonce and one byte short of a tag.
    let short = STANDARD.encode([0u8; 27]);
    assert_eq!(vault.decrypt(&short), Err(VaultError::DecryptionFailed));
}
