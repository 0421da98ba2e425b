use vault_core::crypto::{decrypt, derive_key, encrypt, key_from_hash, KEY_LEN, NONCE_LEN, TAG_LEN};
use vault_core::error::VaultError;

#[test]
fn test_encryption_decryption() -> Result<(), VaultError> {
    let password = "strong_password".to_string();
    let salt = [1u8; 16];
    let data = b"sensitive data";

    let key = derive_key(&password, &salt)?;
    let (ciphertext, nonce) = encrypt(data, &key)?;
    let decrypted = decrypt(&ciphertext, &key, &nonce)?;

    assert_eq!(data.to_vec(), decrypted);
    Ok(())
}

#[test]
fn test_wrong_password() -> Result<(), VaultError> {
    let password = "strong_password".to_string();
    let wrong_password = "wrong_password".to_string();
    let salt = [1u8; 16];
    let data = b"sensitive data";

    let key = derive_key(&password, &salt)?;
    let wrong_key = derive_key(&wrong_password, &salt)?;

    let (ciphertext, nonce) = encrypt(data, &key)?;
    let result = decrypt(&ciphertext, &wrong_key, &nonce);

    assert!(result.is_err());
    Ok(())
}

#[test]
fn derive_key_is_deterministic_and_sized() {
    let salt = [7u8; 16];
    let a = derive_key("correct horse", &salt).unwrap();
    let b = derive_key("correct horse", &salt).unwrap();
    assert_eq!(a.len(), KEY_LEN);
    assert_eq!(a, b);
}

#[test]
fn derive_key_depends_on_salt_and_password() {
    let a = derive_key("correct horse", &[7u8; 16]).unwrap();
    let b = derive_key("correct horse", &[8u8; 16]).unwrap();
    let c = derive_key("battery staple", &[7u8; 16]).unwrap();
    assert_ne!(a, b);
    assert_ne!(a, c);
}

#[test]
fn key_from_hash_takes_the_first_bytes() {
    let hash: Vec<u8> = (0u8..40u8).collect();
    let key = key_from_hash(&hash).unwrap();
    assert_eq!(key, (0u8..32u8).collect::<Vec<u8>>());
    assert_eq!(key_from_hash(&hash[..31]), None);
    assert_eq!(key_from_hash(&hash[..32]).unwrap().len(), 32);
}

#[test]
fn encrypt_changes_the_bytes_and_adds_a_tag() {
    let key = derive_key("pw", &[3u8; 16]).unwrap();
    let data = b"hello vault";
    let (ciphertext, nonce) = encrypt(data, &key).unwrap();
    assert_eq!(nonce.len(), NONCE_LEN);
    assert_eq!(ciphertext.len(), data.len() + 16);
    assert_ne!(&ciphertext[..data.len()], &data[..]);
}

#[test]
fn encrypt_uses_a_fresh_nonce_each_time() {
    let key = derive_key("pw", &[3u8; 16]).unwrap();
    let (c1, n1) = encrypt(b"same", &key).unwrap();
    let (c2, n2) = encrypt(b"same", &key).unwrap();
    assert_ne!(n1, n2);
    assert_ne!(c1, c2);
}

#[test]
fn decrypt_rejects_a_flipped_bit() {
    let key = derive_key("pw", &[3u8; 16]).unwrap();
    let (mut ciphertext, nonce) = encrypt(b"payload", &key).unwrap();
    ciphertext[0] ^= 1;
    assert_eq!(decrypt(&ciphertext, &key, &nonce), Err(VaultError::Decryption));
}

#[test]
fn decrypt_rejects_input_shorter_than_a_tag() {
    let key = derive_key("pw", &[3u8; 16]).unwrap();
    assert_eq!(decrypt(&[1u8, 2u8, 3u8], &key, &[0u8; 12]), Err(VaultError::Decryption));
}

#[test]
fn encrypt_output_is_plaintext_plus_tag() {
    let key = derive_key("", &[9u8; 16]).unwrap();
    assert_eq!(key.len(), KEY_LEN);
    for len in [0usize, 1, 15, 16, 17, 100] {
        let data = vec![0xA5u8; len];
        let (ciphertext, _) = encrypt(&data, &key).unwrap();
        assert_eq!(ciphertext.len(), len + TAG_LEN);
    }
}
