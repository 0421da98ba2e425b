//! The ways a vault operation can fail.
use vstd::prelude::*;

verus! {

/// One failure of a vault operation. A wrong password and an altered file
/// both surface as `Decryption`: the two cannot be told apart.
#[derive(Clone, Copy, Debug, PartialEq, Eq, Structural)]
pub enum VaultError {
    /// The password hash gave no usable key.
    KeyDerivation,
    /// Authenticated encryption refused the payload.
    Encryption,
    /// The authentication tag did not verify.
    Decryption,
    /// The vault file could not be read or written.
    Io,
    /// Bytes did not decode to the expected structure.
    Serialization,
}

} // verus!
