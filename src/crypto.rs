//! Key derivation from the master password and authenticated encryption of
//! byte payloads under the derived key.
use aes_gcm::aead::{Aead, KeyInit};
use argon2::password_hash::PasswordHasher;
use rand::RngCore;
use vstd::prelude::*;

use crate::error::VaultError;

verus! {

/// Length of a symmetric key, in bytes.
pub const KEY_LEN: usize = 32;

/// Length of a key-derivation salt, in bytes.
pub const SALT_LEN: usize = 16;

/// Length of an encryption nonce, in bytes.
pub const NONCE_LEN: usize = 12;

/// Length of the authentication tag that AES-GCM appends, in bytes.
pub const TAG_LEN: usize = 16;

/// Longest password Argon2 takes, in characters: it takes up to 2^32 - 1
/// bytes, and a character is at most four bytes long.
pub const MAX_PASSWORD_CHARS: u64 = 0x3FFF_FFFF;

/// Longest plaintext that AES-GCM encrypts, in bytes.
pub const MAX_PLAINTEXT_LEN: u64 = 0x10_0000_0000;

/// What Argon2id with its default parameters makes of a password and a salt:
/// the raw hash output, or nothing where hashing is refused.
pub uninterp spec fn argon2_hash(password: Seq<char>, salt: Seq<u8>) -> Option<Seq<u8>>;

/// AES-256-GCM's sealing of `plaintext` under `key` and `nonce`, with no
/// associated data: the ciphertext followed by its tag, or nothing where the
/// plaintext is too long.
pub uninterp spec fn aes_gcm_seal(key: Seq<u8>, nonce: Seq<u8>, plaintext: Seq<u8>) -> Option<
    Seq<u8>,
>;

/// The key derived from `password` and `salt`: the first `KEY_LEN` bytes of
/// the hash output, where that output is long enough.
pub open spec fn derived_key(password: Seq<char>, salt: Seq<u8>) -> Option<Seq<u8>> {
    match argon2_hash(password, salt) {
        Some(h) => if h.len() >= KEY_LEN {
            Some(h.take(KEY_LEN as int))
        } else {
            None
        },
        None => None,
    }
}

/// Relies on argon2's `PasswordHasher::hash_password` under `Argon2::default()`,
/// with the salt handed over through `SaltString::encode_b64`, and on the
/// `hash` field of the result: the output depends on password and salt alone.
/// A salt under three bytes makes `hash_password` panic, so the length is
/// fixed here. The default output is 32 bytes (`Params::DEFAULT_OUTPUT_LEN`),
/// and with a 16-byte salt hashing fails only for a password over
/// `MAX_PWD_LEN` (2^32 - 1) bytes; the result always carries its hash.
#[verifier::external_body]
fn argon2_default_hash(password: &str, salt: &[u8]) -> (r: Option<Vec<u8>>)
    requires
        salt@.len() == SALT_LEN,
    ensures
        r matches Some(h) ==> argon2_hash(password@, salt@) == Some(h@),
        r is None ==> argon2_hash(password@, salt@) is None,
        r matches Some(h) ==> h@.len() == KEY_LEN,
        password@.len() <= MAX_PASSWORD_CHARS ==> r is Some,
{
    let salt = argon2::password_hash::SaltString::encode_b64(salt).ok()?;
    let hash = argon2::Argon2::default().hash_password(password.as_bytes(), &salt).ok()?;
    hash.hash.map(|h| h.as_bytes().to_vec())
}

/// Relies on aes-gcm's `Aead::encrypt` for `Aes256Gcm`, which refuses only a
/// plaintext longer than `P_MAX` (2^36 bytes) and appends a 16-byte tag to
/// the ciphertext, which is as long as the plaintext.
#[verifier::external_body]
fn aes_gcm_encrypt(key: &[u8], nonce: &[u8], plaintext: &[u8]) -> (r: Option<Vec<u8>>)
    requires
        key@.len() == KEY_LEN,
        nonce@.len() == NONCE_LEN,
    ensures
        r matches Some(c) ==> aes_gcm_seal(key@, nonce@, plaintext@) == Some(c@),
        r is None ==> aes_gcm_seal(key@, nonce@, plaintext@) is None,
        r is Some <==> plaintext@.len() <= MAX_PLAINTEXT_LEN,
        r matches Some(c) ==> c@.len() == plaintext@.len() + TAG_LEN,
{
    let cipher = aes_gcm::Aes256Gcm::new(aes_gcm::Key::<aes_gcm::Aes256Gcm>::from_slice(key));
    cipher.encrypt(aes_gcm::Nonce::from_slice(nonce), plaintext).ok()
}

/// Relies on aes-gcm's `Aead::decrypt` for `Aes256Gcm`: it returns a
/// plaintext only where the tag verifies, that plaintext seals back to the
/// ciphertext, and every sealed ciphertext opens to what was sealed.
#[verifier::external_body]
fn aes_gcm_decrypt(key: &[u8], nonce: &[u8], ciphertext: &[u8]) -> (r: Option<Vec<u8>>)
    requires
        key@.len() == KEY_LEN,
        nonce@.len() == NONCE_LEN,
    ensures
        r matches Some(p) ==> (p@.len() <= MAX_PLAINTEXT_LEN ==> aes_gcm_seal(key@, nonce@, p@)
            == Some(ciphertext@)),
        r is None ==> forall|p: Seq<u8>| #[trigger]
            aes_gcm_seal(key@, nonce@, p) != Some(ciphertext@),
        r matches Some(v) ==> forall|p: Seq<u8>| #[trigger]
            aes_gcm_seal(key@, nonce@, p) == Some(ciphertext@) ==> v@ == p,
{
    let cipher = aes_gcm::Aes256Gcm::new(aes_gcm::Key::<aes_gcm::Aes256Gcm>::from_slice(key));
    cipher.decrypt(aes_gcm::Nonce::from_slice(nonce), ciphertext).ok()
}

/// Relies on rand's `thread_rng().fill_bytes`: `n` bytes from a
/// cryptographically secure generator, of which only the count is known.
#[verifier::external_body]
pub(crate) fn random_bytes(n: usize) -> (r: Vec<u8>)
    ensures
        r@.len() == n,
{
    let mut bytes = vec![0u8; n];
    rand::thread_rng().fill_bytes(&mut bytes);
    bytes
}

/// Relies on zeroize's `Zeroize` for `Vec<u8>`: the bytes are overwritten
/// with zeros and the vector is left empty.
#[verifier::external_body]
pub(crate) fn wipe_bytes(bytes: &mut Vec<u8>)
    ensures
        final(bytes)@.len() == 0,
{
    zeroize::Zeroize::zeroize(bytes)
}

/// Relies on zeroize's `Zeroize` for `String`: the characters are
/// overwritten with zeros and the string is left empty.
#[verifier::external_body]
pub(crate) fn wipe_text(text: &mut String)
    ensures
        final(text)@.len() == 0,
{
    zeroize::Zeroize::zeroize(text)
}

/// The key held in a raw hash output: its first `KEY_LEN` bytes, or nothing
/// where the output is shorter.
pub fn key_from_hash(hash: &[u8]) -> (r: Option<Vec<u8>>)
    ensures
        hash@.len() >= KEY_LEN ==> (r matches Some(k) && k@ == hash@.take(KEY_LEN as int)),
        hash@.len() < KEY_LEN ==> r is None,
{
    if hash.len() < KEY_LEN {
        return None;
    }
    let mut key: Vec<u8> = Vec::with_capacity(KEY_LEN);
    let mut i: usize = 0;
    while i < KEY_LEN
        invariant
            i <= KEY_LEN,
            hash@.len() >= KEY_LEN,
            key@ == hash@.take(i as int),
        decreases KEY_LEN - i,
    {
        key.push(hash[i]);
        i = i + 1;
        assert(key@ =~= hash@.take(i as int));
    }
    Some(key)
}

/// Derives the symmetric key for `password` and `salt`.
pub fn derive_key(password: &str, salt: &[u8]) -> (r: Result<Vec<u8>, VaultError>)
    requires
        salt@.len() == SALT_LEN,
    ensures
        match derived_key(password@, salt@) {
            Some(k) => r matches Ok(v) && v@ == k,
            None => r == Err::<Vec<u8>, VaultError>(VaultError::KeyDerivation),
        },
        r matches Ok(k) ==> k@.len() == KEY_LEN,
        password@.len() <= MAX_PASSWORD_CHARS ==> r is Ok,
{
    match argon2_default_hash(password, salt) {
        Some(hash) => {
            let mut hash = hash;
            let key = key_from_hash(&hash);
            wipe_bytes(&mut hash);
            match key {
                Some(k) => Ok(k),
                None => Err(VaultError::KeyDerivation),
            }
        },
        None => Err(VaultError::KeyDerivation),
    }
}

/// Encrypts `data` under `key` with a fresh random nonce; gives back the
/// sealed ciphertext and that nonce.
pub fn encrypt(data: &[u8], key: &[u8]) -> (r: Result<(Vec<u8>, Vec<u8>), VaultError>)
    requires
        key@.len() == KEY_LEN,
    ensures
        r matches Ok((c, n)) ==> n@.len() == NONCE_LEN && aes_gcm_seal(key@, n@, data@) == Some(
            c@,
        ),
        r matches Ok((c, n)) ==> c@.len() == data@.len() + TAG_LEN,
        r is Ok <==> data@.len() <= MAX_PLAINTEXT_LEN,
        r is Err ==> r == Err::<(Vec<u8>, Vec<u8>), VaultError>(VaultError::Encryption),
{
    let nonce = random_bytes(NONCE_LEN);
    match aes_gcm_encrypt(key, nonce.as_slice(), data) {
        Some(c) => Ok((c, nonce)),
        None => Err(VaultError::Encryption),
    }
}

/// Decrypts `ciphertext` under `key` and `nonce`, failing where the tag does
/// not verify (a wrong key or an altered ciphertext).
pub fn decrypt(ciphertext: &[u8], key: &[u8], nonce: &[u8]) -> (r: Result<Vec<u8>, VaultError>)
    requires
        key@.len() == KEY_LEN,
        nonce@.len() == NONCE_LEN,
    ensures
        r matches Ok(p) ==> (p@.len() <= MAX_PLAINTEXT_LEN ==> aes_gcm_seal(key@, nonce@, p@)
            == Some(ciphertext@)),
        r is Err ==> r == Err::<Vec<u8>, VaultError>(VaultError::Decryption),
        forall|p: Seq<u8>|
            #[trigger] aes_gcm_seal(key@, nonce@, p) == Some(ciphertext@) ==> (r matches Ok(v)
                && v@ == p),
{
    match aes_gcm_decrypt(key, nonce, ciphertext) {
        Some(p) => Ok(p),
        None => Err(VaultError::Decryption),
    }
}

} // verus!
