//! Sealing a vault's plaintext bytes into an envelope under a master
//! password, and opening such an envelope again. Reading and writing the
//! file, and turning a vault into bytes, are the caller's part.
use vstd::prelude::*;

use crate::crypto::{
    aes_gcm_seal, decrypt, derive_key, derived_key, encrypt, random_bytes, wipe_bytes, wipe_text,
    MAX_PASSWORD_CHARS, MAX_PLAINTEXT_LEN, NONCE_LEN, SALT_LEN,
};
use crate::envelope::{
    decode_envelope, encode_envelope, envelope_bytes, is_envelope, is_envelope_of, EncryptedVault,
};
use crate::error::VaultError;

verus! {

/// `bytes` is an envelope that holds `plaintext` sealed under `password`:
/// the key derived from the password and the stored salt, with the stored
/// nonce, seals the plaintext to exactly the stored ciphertext.
pub open spec fn sealed_with(password: Seq<char>, plaintext: Seq<u8>, bytes: Seq<u8>) -> bool {
    exists|s: Seq<u8>, n: Seq<u8>, c: Seq<u8>|
        #[trigger] is_envelope_of(bytes, s, n, c) && match derived_key(password, s) {
            Some(k) => aes_gcm_seal(k, n, plaintext) == Some(c),
            None => false,
        }
}

/// An envelope made of a salt, a nonce and the sealing of `plaintext` under
/// the key derived from `password` and that salt holds `plaintext` sealed
/// under `password`; by `open_vault`'s contract, opening it with the same
/// password gives back exactly `plaintext`.
pub proof fn lemma_sealed_envelope(
    password: Seq<char>,
    plaintext: Seq<u8>,
    salt: Seq<u8>,
    nonce: Seq<u8>,
    ciphertext: Seq<u8>,
)
    requires
        salt.len() == SALT_LEN,
        nonce.len() == NONCE_LEN,
        derived_key(password, salt) is Some,
        aes_gcm_seal(derived_key(password, salt)->0, nonce, plaintext) == Some(ciphertext),
    ensures
        sealed_with(password, plaintext, envelope_bytes(salt, nonce, ciphertext)),
{
    assert(is_envelope_of(envelope_bytes(salt, nonce, ciphertext), salt, nonce, ciphertext));
}

/// Seals `plaintext` under `master_password` with a fresh random salt and
/// nonce, and gives back the envelope's bytes. The password and the derived
/// key are wiped on every path.
pub fn seal_vault(master_password: String, plaintext: &[u8]) -> (r: Result<Vec<u8>, VaultError>)
    ensures
        r matches Ok(b) ==> sealed_with(master_password@, plaintext@, b@),
        r is Err ==> r == Err::<Vec<u8>, VaultError>(VaultError::KeyDerivation) || r == Err::<
            Vec<u8>,
            VaultError,
        >(VaultError::Encryption),
        r == Err::<Vec<u8>, VaultError>(VaultError::KeyDerivation) ==> exists|s: Seq<u8>|
            s.len() == SALT_LEN && #[trigger] derived_key(master_password@, s) is None,
        r == Err::<Vec<u8>, VaultError>(VaultError::Encryption) ==> plaintext@.len()
            > MAX_PLAINTEXT_LEN,
        master_password@.len() <= MAX_PASSWORD_CHARS && plaintext@.len() <= MAX_PLAINTEXT_LEN
            ==> r is Ok,
{
    let mut password = master_password;
    let salt = random_bytes(SALT_LEN);
    let mut key = match derive_key(password.as_str(), salt.as_slice()) {
        Ok(k) => k,
        Err(e) => {
            wipe_text(&mut password);
            return Err(e);
        },
    };
    let sealed = encrypt(plaintext, key.as_slice());
    wipe_bytes(&mut key);
    wipe_text(&mut password);
    match sealed {
        Ok((ciphertext, nonce)) => {
            let e = EncryptedVault { salt, nonce, ciphertext };
            let out = encode_envelope(&e);
            proof {
                lemma_sealed_envelope(
                    master_password@,
                    plaintext@,
                    e.salt@,
                    e.nonce@,
                    e.ciphertext@,
                );
            }
            Ok(out)
        },
        Err(e) => Err(e),
    }
}

/// Opens the envelope in `data` with `master_password`, giving back the
/// plaintext it holds. Fails with `Serialization` where `data` holds no
/// envelope, `KeyDerivation` where the password hash gives no key, and
/// `Decryption` where the tag does not verify. The password and the derived
/// key are wiped on every path.
pub fn open_vault(master_password: String, data: &[u8]) -> (r: Result<Vec<u8>, VaultError>)
    ensures
        !is_envelope(data@) ==> r == Err::<Vec<u8>, VaultError>(VaultError::Serialization),
        forall|s: Seq<u8>, n: Seq<u8>, c: Seq<u8>| #[trigger]
            is_envelope_of(data@, s, n, c) ==> (derived_key(master_password@, s) is None ==> r
                == Err::<Vec<u8>, VaultError>(VaultError::KeyDerivation)) && (derived_key(
                master_password@,
                s,
            ) is Some ==> (r is Ok || r == Err::<Vec<u8>, VaultError>(VaultError::Decryption))),
        r matches Ok(x) ==> (x@.len() <= MAX_PLAINTEXT_LEN ==> sealed_with(
            master_password@,
            x@,
            data@,
        )),
        forall|x: Seq<u8>| #[trigger]
            sealed_with(master_password@, x, data@) ==> (r matches Ok(v) && v@ == x),
        is_envelope(data@) && master_password@.len() <= MAX_PASSWORD_CHARS ==> (r is Ok || r
            == Err::<Vec<u8>, VaultError>(VaultError::Decryption)),
{
    let mut password = master_password;
    let e = match decode_envelope(data) {
        Ok(e) => e,
        Err(err) => {
            wipe_text(&mut password);
            return Err(err);
        },
    };
    proof {
        assert(is_envelope_of(data@, e.salt@, e.nonce@, e.ciphertext@));
    }
    let mut key = match derive_key(password.as_str(), e.salt.as_slice()) {
        Ok(k) => k,
        Err(err) => {
            wipe_text(&mut password);
            return Err(err);
        },
    };
    let opened = decrypt(e.ciphertext.as_slice(), key.as_slice(), e.nonce.as_slice());
    wipe_bytes(&mut key);
    wipe_text(&mut password);
    proof {
        assert(is_envelope_of(data@, e.salt@, e.nonce@, e.ciphertext@));
    }
    opened
}

} // verus!
