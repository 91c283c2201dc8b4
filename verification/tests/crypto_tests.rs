use edisondb::{decrypt_payload, derive_key, encrypt_payload, EdisonError};

#[test]
fn payload_encrypts_and_decrypts() {
    let key = [0u8; 32];
    let plaintext = b"sovereign data";
    let encrypted = encrypt_payload(plaintext, &key).unwrap();
    assert_ne!(encrypted, plaintext.to_vec());
    let decrypted = decrypt_payload(&encrypted, &key).unwrap();
    assert_eq!(decrypted, plaintext);
}

#[test]
fn same_password_same_key() {
    let salt = [1u8; 32];
    let key1 = derive_key("owner_password", &salt).unwrap();
    let key2 = derive_key("owner_password", &salt).unwrap();
    assert_eq!(key1, key2);
}

#[test]
fn different_password_different_key() {
    let salt = [1u8; 32];
    let key1 = derive_key("owner_password", &salt).unwrap();
    let key2 = derive_key("wrong_password", &salt).unwrap();
    assert_ne!(key1, key2);
}

#[test]
fn envelope_leads_with_nonce_and_grows_by_tag() {
    let key = [7u8; 32];
    let data = b"abc";
    let env = encrypt_payload(data, &key).unwrap();
    // 12-byte nonce, then the ciphertext with its 16-byte tag.
    assert_eq!(env.len(), 12 + data.len() + 16);
}

#[test]
fn short_envelope_is_refused() {
    let key = [0u8; 32];
    assert_eq!(decrypt_payload(&[1, 2, 3], &key), Err(EdisonError::DecryptionFailed));
}

#[test]
fn wrong_key_is_refused() {
    let env = encrypt_payload(b"secret", &[1u8; 32]).unwrap();
    assert_eq!(decrypt_payload(&env, &[2u8; 32]), Err(EdisonError::DecryptionFailed));
}

#[test]
fn tampered_envelope_is_refused() {
    let key = [3u8; 32];
    let mut env = encrypt_payload(b"secret", &key).unwrap();
    let last = env.len() - 1;
    env[last] ^= 1;
    assert_eq!(decrypt_payload(&env, &key), Err(EdisonError::DecryptionFailed));
}

#[test]
fn different_salt_different_key() {
    let k1 = derive_key("pw", &[1u8; 32]).unwrap();
    let k2 = derive_key("pw", &[2u8; 32]).unwrap();
    assert_ne!(k1, k2);
}

#[test]
fn two_encryptions_differ_by_nonce() {
    let key = [4u8; 32];
    let a = encrypt_payload(b"same", &key).unwrap();
    let b = encrypt_payload(b"same", &key).unwrap();
    assert_ne!(a, b);
    assert_eq!(decrypt_payload(&a, &key).unwrap(), b"same");
    assert_eq!(decrypt_payload(&b, &key).unwrap(), b"same");
}
