use vaultura::aead::{decrypt, encrypt};
use vaultura::kdf::{derive_key, generate_salt};
use vaultura::models::KdfParams;

fn test_key() -> Vec<u8> {
    vec![0x42u8; 32]
}

fn test_params() -> KdfParams {
    KdfParams { memory_cost_kib: 1024, time_cost: 1, parallelism: 1 }
}

#[test]
fn test_encrypt_decrypt_roundtrip() {
    let key = test_key();
    let plaintext = b"Hello, Vaultura!";
    let (nonce, ciphertext) = encrypt(&key, plaintext).unwrap();
    let decrypted = decrypt(&key, &nonce, &ciphertext).unwrap();
    assert_eq!(decrypted, plaintext);
}

#[test]
fn test_wrong_key_fails() {
    let key = test_key();
    let wrong_key = vec![0x99u8; 32];
    let plaintext = b"secret data";
    let (nonce, ciphertext) = encrypt(&key, plaintext).unwrap();
    let result = decrypt(&wrong_key, &nonce, &ciphertext);
    assert!(result.is_err());
}

#[test]
fn test_corrupted_ciphertext_fails() {
    let key = test_key();
    let plaintext = b"secret data";
    let (nonce, mut ciphertext) = encrypt(&key, plaintext).unwrap();
    ciphertext[0] ^= 0xFF;
    let result = decrypt(&key, &nonce, &ciphertext);
    assert!(result.is_err());
}

#[test]
fn test_nonce_length() {
    let key = test_key();
    let (nonce, _) = encrypt(&key, b"test").unwrap();
    assert_eq!(nonce.len(), 24);
}

#[test]
fn test_different_nonces_per_encryption() {
    let key = test_key();
    let (nonce1, ct1) = encrypt(&key, b"test").unwrap();
    let (nonce2, ct2) = encrypt(&key, b"test").unwrap();
    assert_ne!(nonce1, nonce2);
    assert_ne!(ct1, ct2);
}

#[test]
fn test_empty_plaintext() {
    let key = test_key();
    let (nonce, ciphertext) = encrypt(&key, b"").unwrap();
    let decrypted = decrypt(&key, &nonce, &ciphertext).unwrap();
    assert_eq!(decrypted, b"");
}

#[test]
fn test_large_plaintext() {
    let key = test_key();
    let plaintext = vec![0xABu8; 1_000_000];
    let (nonce, ciphertext) = encrypt(&key, &plaintext).unwrap();
    let decrypted = decrypt(&key, &nonce, &ciphertext).unwrap();
    assert_eq!(decrypted, plaintext);
}

#[test]
fn test_ciphertext_differs_from_plaintext() {
    let key = test_key();
    let plaintext = b"the cipher must not hand its input back";
    let (_, ciphertext) = encrypt(&key, plaintext).unwrap();
    assert_eq!(ciphertext.len(), plaintext.len() + 16);
    assert_ne!(&ciphertext[..plaintext.len()], &plaintext[..]);
}

#[test]
fn test_generate_salt_length() {
    let salt = generate_salt(32);
    assert_eq!(salt.len(), 32);
}

#[test]
fn test_generate_salt_uniqueness() {
    let salt1 = generate_salt(32);
    let salt2 = generate_salt(32);
    assert_ne!(salt1, salt2);
}

#[test]
fn test_derive_key_deterministic() {
    let params = test_params();
    let salt = vec![0u8; 32];
    let key1 = derive_key("password", &salt, &params).unwrap();
    let key2 = derive_key("password", &salt, &params).unwrap();
    assert_eq!(key1, key2);
}

#[test]
fn test_derive_key_different_passwords() {
    let params = test_params();
    let salt = vec![0u8; 32];
    let key1 = derive_key("password1", &salt, &params).unwrap();
    let key2 = derive_key("password2", &salt, &params).unwrap();
    assert_ne!(key1, key2);
}

#[test]
fn test_derive_key_different_salts() {
    let params = test_params();
    let salt1 = vec![0u8; 32];
    let salt2 = vec![1u8; 32];
    let key1 = derive_key("password", &salt1, &params).unwrap();
    let key2 = derive_key("password", &salt2, &params).unwrap();
    assert_ne!(key1, key2);
}

#[test]
fn test_derive_key_length() {
    let params = test_params();
    let salt = generate_salt(32);
    let key = derive_key("password", &salt, &params).unwrap();
    assert_eq!(key.len(), 32);
}

#[test]
fn test_derive_key_differs_from_password() {
    let params = test_params();
    let salt = vec![7u8; 32];
    let key = derive_key("password", &salt, &params).unwrap();
    assert_ne!(key.as_slice(), b"password".as_slice());
}

#[test]
fn test_derive_key_rejects_bad_params() {
    let bad = KdfParams { memory_cost_kib: 0, time_cost: 1, parallelism: 1 };
    let salt = vec![0u8; 32];
    let result = derive_key("password", &salt, &bad);
    assert!(matches!(result, Err(vaultura::error::VaulturaError::Kdf(_))));
}
