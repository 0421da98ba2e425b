use vault_core::crypto::{decrypt, derive_key, encrypt};
use vault_core::envelope::{decode_envelope, encode_envelope, EncryptedVault};
use vault_core::error::VaultError;
use vault_core::store::{open_vault, seal_vault};

const EMPTY_VAULT_JSON: &[u8] = b"{\"items\":[],\"version\":1}";

#[test]
fn envelope_is_written_as_compact_json() {
    let e = EncryptedVault { salt: vec![1u8; 16], nonce: vec![2u8; 12], ciphertext: vec![0, 9, 10, 99, 100, 255] };
    let bytes = encode_envelope(&e);
    let expected = "{\"salt\":[1,1,1,1,1,1,1,1,1,1,1,1,1,1,1,1],\"nonce\":[2,2,2,2,2,2,2,2,2,2,2,2],\"ciphertext\":[0,9,10,99,100,255]}";
    assert_eq!(String::from_utf8(bytes.clone()).unwrap(), expected);
    assert_eq!(decode_envelope(&bytes), Ok(e));
}

#[test]
fn envelope_with_empty_ciphertext_round_trips() {
    let e = EncryptedVault { salt: vec![5u8; 16], nonce: vec![6u8; 12], ciphertext: vec![] };
    let bytes = encode_envelope(&e);
    assert!(bytes.ends_with(b",\"ciphertext\":[]}"));
    assert_eq!(decode_envelope(&bytes), Ok(e));
}

fn envelope_text(salt: &str, nonce: &str, ciphertext: &str) -> Vec<u8> {
    format!("{{\"salt\":[{}],\"nonce\":[{}],\"ciphertext\":[{}]}}", salt, nonce, ciphertext).into_bytes()
}

#[test]
fn envelope_decodes_hand_written_json() {
    let bytes = envelope_text("0,1,2,3,4,5,6,7,8,9,10,11,12,13,14,15", "200,201,202,203,204,205,206,207,208,209,210,211", "42");
    let e = decode_envelope(&bytes).unwrap();
    assert_eq!(e.salt, (0u8..16u8).collect::<Vec<u8>>());
    assert_eq!(e.nonce, (200u8..212u8).collect::<Vec<u8>>());
    assert_eq!(e.ciphertext, vec![42u8]);
}

#[test]
fn envelope_with_wrong_salt_length_is_a_serialization_error() {
    let bytes = envelope_text("1,2,3", "0,0,0,0,0,0,0,0,0,0,0,0", "1");
    assert_eq!(decode_envelope(&bytes), Err(VaultError::Serialization));
}

#[test]
fn envelope_with_bad_numbers_is_a_serialization_error() {
    let salt = "1,1,1,1,1,1,1,1,1,1,1,1,1,1,1,1";
    let nonce = "0,0,0,0,0,0,0,0,0,0,0,0";
    assert!(decode_envelope(&envelope_text(salt, nonce, "256")).is_err());
    assert!(decode_envelope(&envelope_text(salt, nonce, "07")).is_err());
    assert!(decode_envelope(&envelope_text(salt, nonce, "1,")).is_err());
    assert!(decode_envelope(&envelope_text(salt, nonce, "-1")).is_err());
    assert!(decode_envelope(&envelope_text(salt, nonce, "1")).is_ok());
    let mut trailing = envelope_text(salt, nonce, "1");
    trailing.push(b' ');
    assert_eq!(decode_envelope(&trailing), Err(VaultError::Serialization));
}

#[test]
fn envelope_too_short_is_a_serialization_error() {
    assert_eq!(decode_envelope(&[0u8; 27]), Err(VaultError::Serialization));
    assert_eq!(decode_envelope(&[]), Err(VaultError::Serialization));
}

#[test]
fn seal_then_open_round_trips() {
    let plaintext = b"{\"items\":[{\"id\":\"x\"}],\"version\":1}".to_vec();
    let sealed = seal_vault("master".to_string(), &plaintext).unwrap();
    let envelope = decode_envelope(&sealed).unwrap();
    assert_eq!(envelope.ciphertext.len(), plaintext.len() + 16);
    assert_eq!(open_vault("master".to_string(), &sealed), Ok(plaintext));
}

#[test]
fn empty_vault_bytes_round_trip() {
    let sealed = seal_vault("pw".to_string(), EMPTY_VAULT_JSON).unwrap();
    assert_eq!(open_vault("pw".to_string(), &sealed), Ok(EMPTY_VAULT_JSON.to_vec()));
}

#[test]
fn open_with_wrong_password_is_a_decryption_error() {
    let sealed = seal_vault("right".to_string(), b"secret").unwrap();
    assert_eq!(open_vault("wrong".to_string(), &sealed), Err(VaultError::Decryption));
}

#[test]
fn flipping_any_ciphertext_bit_is_detected() {
    let key = derive_key("pw", &[4u8; 16]).unwrap();
    let (ciphertext, nonce) = encrypt(b"abc", &key).unwrap();
    for byte in 0..ciphertext.len() {
        for bit in 0..8 {
            let mut tampered = ciphertext.clone();
            tampered[byte] ^= 1u8 << bit;
            assert_eq!(decrypt(&tampered, &key, &nonce), Err(VaultError::Decryption));
        }
    }
}

#[test]
fn flipping_a_stored_ciphertext_bit_fails_to_open() {
    let sealed = seal_vault("pw".to_string(), b"abc").unwrap();
    let mut envelope = decode_envelope(&sealed).unwrap();
    envelope.ciphertext[1] ^= 0x04;
    let tampered = encode_envelope(&envelope);
    assert_eq!(open_vault("pw".to_string(), &tampered), Err(VaultError::Decryption));
}

#[test]
fn flipping_a_nonce_bit_is_detected() {
    let sealed = seal_vault("pw".to_string(), b"abc").unwrap();
    let mut envelope = decode_envelope(&sealed).unwrap();
    envelope.nonce[3] ^= 0x80;
    let tampered = encode_envelope(&envelope);
    assert_eq!(open_vault("pw".to_string(), &tampered), Err(VaultError::Decryption));
}

#[test]
fn two_saves_use_fresh_salt_and_nonce() {
    let a = seal_vault("pw".to_string(), EMPTY_VAULT_JSON).unwrap();
    let b = seal_vault("pw".to_string(), EMPTY_VAULT_JSON).unwrap();
    let ea = decode_envelope(&a).unwrap();
    let eb = decode_envelope(&b).unwrap();
    assert_ne!(ea.salt, eb.salt);
    assert_ne!(ea.nonce, eb.nonce);
    assert_eq!(open_vault("pw".to_string(), &a), Ok(EMPTY_VAULT_JSON.to_vec()));
    assert_eq!(open_vault("pw".to_string(), &b), Ok(EMPTY_VAULT_JSON.to_vec()));
}

#[test]
fn open_of_short_data_is_a_serialization_error() {
    assert_eq!(open_vault("pw".to_string(), b"not a vault"), Err(VaultError::Serialization));
}

#[test]
fn open_with_malformed_envelope_is_a_serialization_error() {
    assert_eq!(open_vault("pw".to_string(), b"{\"salt\":[1]}"), Err(VaultError::Serialization));
}

#[test]
fn seal_succeeds_for_an_ordinary_password_and_empty_plaintext() {
    let sealed = seal_vault("päss wörd".to_string(), b"").unwrap();
    let envelope = decode_envelope(&sealed).unwrap();
    assert_eq!(envelope.salt.len(), 16);
    assert_eq!(envelope.nonce.len(), 12);
    assert_eq!(envelope.ciphertext.len(), 16);
    assert_eq!(open_vault("päss wörd".to_string(), &sealed), Ok(vec![]));
}
