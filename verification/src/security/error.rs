//! The errors of the envelope protocol.

use vstd::prelude::*;

verus! {

/// What can go wrong while an envelope is sealed or opened.
#[derive(Clone, Copy, Debug, PartialEq, Eq, Structural)]
pub enum SecurityError {
    /// The signature does not verify under the sender's key: the envelope
    /// was tampered with, or comes from someone else.
    SignatureVerificationFailed,
    /// The ciphertext does not authenticate under the derived key, the nonce
    /// and the associated data.
    DecryptionFailed,
    /// The key derivation function gave no key. The derivation that this
    /// library uses always gives one.
    KeyDerivationFailed,
    /// The cipher refused the plaintext.
    EncryptionFailed,
    /// A key handed in as a slice does not have the length of a key.
    MalformedKey,
}

} // verus!
