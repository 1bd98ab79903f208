//! Authenticated encryption of a payload under XChaCha20-Poly1305.

use vstd::prelude::*;
use vstd::utf8::{decode_utf8, encode_utf8, valid_utf8};
use chacha20poly1305::aead::{Aead, KeyInit, Payload};
use chacha20poly1305::{AeadCore, Key, XChaCha20Poly1305, XNonce};
use rand::Rng;
use crate::security::error::SecurityError;

verus! {

/// Length of an XChaCha20-Poly1305 key in bytes.
pub const XCHACHA20_POLY1305_KEY_SIZE: usize = 32;

/// Length of an XChaCha20-Poly1305 nonce in bytes.
pub const XCHACHA20_POLY1305_NONCE_SIZE: usize = 24;

/// The XChaCha20-Poly1305 ciphertext of `message`, tag included, where the
/// cipher accepts the message.
pub uninterp spec fn xchacha20poly1305_encrypt(
    key: Seq<u8>,
    nonce: Seq<u8>,
    associated_data: Seq<u8>,
    message: Seq<u8>,
) -> Option<Seq<u8>>;

/// The plaintext of an XChaCha20-Poly1305 ciphertext, where it
/// authenticates.
pub uninterp spec fn xchacha20poly1305_decrypt(
    key: Seq<u8>,
    nonce: Seq<u8>,
    associated_data: Seq<u8>,
    ciphertext: Seq<u8>,
) -> Option<Seq<u8>>;

/// The text that `String::from_utf8_lossy` reads from bytes.
pub uninterp spec fn utf8_lossy(bytes: Seq<u8>) -> Seq<char>;

/// The view of optional bytes.
pub open spec fn bytes_view(bytes: Option<Vec<u8>>) -> Option<Seq<u8>> {
    match bytes {
        Some(b) => Some(b@),
        None => None,
    }
}

/// The associated data that the cipher authenticates: the bytes given, or
/// none at all.
pub open spec fn associated_bytes(associated_data: Option<&[u8]>) -> Seq<u8> {
    match associated_data {
        Some(a) => a@,
        None => Seq::empty(),
    }
}

/// `Rng::fill` of rand on the thread's generator: 32 random bytes. Nothing
/// is claimed of them.
#[verifier::external_body]
pub fn generate_encryption_key() -> [u8; 32] {
    let mut key = [0u8; 32];
    rand::thread_rng().fill(&mut key);
    key
}

/// `AeadCore::generate_nonce` of chacha20poly1305's `XChaCha20Poly1305` on
/// the thread's generator: 24 random bytes. Nothing is claimed of them.
#[verifier::external_body]
pub(crate) fn random_nonce() -> [u8; 24] {
    XChaCha20Poly1305::generate_nonce(&mut rand::thread_rng()).into()
}

/// Length of the authentication tag that ends a ciphertext, in bytes.
pub const XCHACHA20_POLY1305_TAG_SIZE: usize = 16;

/// The cipher takes a message of this many bytes: one of fewer than
/// 2^32 - 1 blocks of 64 bytes.
pub open spec fn fits_cipher(length: nat) -> bool {
    length / 64 < 0xffff_ffff
}

/// `Aead::encrypt` of chacha20poly1305's `XChaCha20Poly1305`: a function of
/// key, nonce, associated data and message alone; `None` where the cipher
/// reports an error, which it does only for a message of 2^32 - 1 or more
/// blocks of 64 bytes. The ciphertext is the encrypted message followed by
/// the 16-byte tag. The key must have 32 bytes, else the call panics.
#[verifier::external_body]
fn aead_encrypt(key: &[u8], nonce: &[u8; 24], associated_data: &[u8], message: &[u8]) -> (r:
    Option<Vec<u8>>)
    requires
        key@.len() == 32,
    ensures
        bytes_view(r) == xchacha20poly1305_encrypt(key@, nonce@, associated_data@, message@),
        message@.len() / 64 < 0xffff_ffff ==> r is Some,
        r matches Some(c) ==> c@.len() == message@.len() + 16,
{
    let cipher = XChaCha20Poly1305::new(Key::from_slice(key));
    let payload = Payload { msg: message, aad: associated_data };
    cipher.encrypt(XNonce::from_slice(nonce), payload).ok()
}

/// `Aead::decrypt` of chacha20poly1305's `XChaCha20Poly1305`: a function of
/// key, nonce, associated data and ciphertext alone; `None` where the
/// ciphertext does not authenticate. What `Aead::encrypt` made under the
/// same key, nonce and associated data decrypts to the message it was made
/// from, as the crate's usage example asserts. The key must have 32 bytes,
/// else the call panics.
#[verifier::external_body]
fn aead_decrypt(key: &[u8], nonce: &[u8; 24], associated_data: &[u8], ciphertext: &[u8]) -> (r:
    Option<Vec<u8>>)
    requires
        key@.len() == 32,
    ensures
        bytes_view(r) == xchacha20poly1305_decrypt(key@, nonce@, associated_data@, ciphertext@),
        forall|message: Seq<u8>|
            #[trigger] xchacha20poly1305_encrypt(key@, nonce@, associated_data@, message) == Some(
                ciphertext@,
            ) ==> bytes_view(r) == Some(message),
{
    let cipher = XChaCha20Poly1305::new(Key::from_slice(key));
    let payload = Payload { msg: ciphertext, aad: associated_data };
    cipher.decrypt(XNonce::from_slice(nonce), payload).ok()
}

/// `String::from_utf8_lossy` of std: the text of the bytes, a function of
/// the bytes alone; valid UTF-8 is read as it stands.
#[verifier::external_body]
fn text_of(bytes: &[u8]) -> (r: String)
    ensures
        r@ == utf8_lossy(bytes@),
        valid_utf8(bytes@) ==> r@ == decode_utf8(bytes@),
{
    String::from_utf8_lossy(bytes).into_owned()
}

/// What encrypting `plaintext` under `key` and `nonce` gives: the
/// ciphertext, or the reason why there is none.
pub open spec fn encrypted(
    plaintext: Seq<char>,
    key: Seq<u8>,
    nonce: Seq<u8>,
    associated_data: Seq<u8>,
) -> Result<Seq<u8>, SecurityError> {
    if key.len() != 32 {
        Err(SecurityError::MalformedKey)
    } else {
        match xchacha20poly1305_encrypt(key, nonce, associated_data, encode_utf8(plaintext)) {
            Some(ciphertext) => Ok(ciphertext),
            None => Err(SecurityError::EncryptionFailed),
        }
    }
}

/// What decrypting `ciphertext` under `key` and `nonce` gives: the text, or
/// the reason why there is none.
pub open spec fn decrypted(
    ciphertext: Seq<u8>,
    nonce: Seq<u8>,
    key: Seq<u8>,
    associated_data: Seq<u8>,
) -> Result<Seq<char>, SecurityError> {
    if key.len() != 32 {
        Err(SecurityError::MalformedKey)
    } else {
        match xchacha20poly1305_decrypt(key, nonce, associated_data, ciphertext) {
            Some(bytes) => Ok(utf8_lossy(bytes)),
            None => Err(SecurityError::DecryptionFailed),
        }
    }
}

/// The view of an encryption result.
pub open spec fn ciphertext_view(r: Result<Vec<u8>, SecurityError>) -> Result<
    Seq<u8>,
    SecurityError,
> {
    match r {
        Ok(c) => Ok(c@),
        Err(e) => Err(e),
    }
}

/// The view of a decryption result.
pub open spec fn text_view(r: Result<String, SecurityError>) -> Result<Seq<char>, SecurityError> {
    match r {
        Ok(s) => Ok(s@),
        Err(e) => Err(e),
    }
}

/// Encrypts `plaintext` under `key` with the given nonce and optional
/// associated data. A key that does not have 32 bytes is rejected; with a
/// key of 32 bytes every plaintext that the cipher takes is encrypted, and
/// the ciphertext is 16 bytes longer than the plaintext, whose length in
/// bytes is the one that `len` gives.
pub fn encrypt_with_nonce(
    plaintext: &str,
    key: &[u8],
    nonce: &[u8; 24],
    associated_data: Option<&[u8]>,
) -> (r: Result<Vec<u8>, SecurityError>)
    ensures
        ciphertext_view(r) == encrypted(
            plaintext@,
            key@,
            nonce@,
            associated_bytes(associated_data),
        ),
        encode_utf8(plaintext@).len() == plaintext.len(),
        key@.len() == 32 && fits_cipher(encode_utf8(plaintext@).len()) ==> r is Ok,
        r matches Ok(c) ==> c@.len() == encode_utf8(plaintext@).len() + 16,
{
    let message = plaintext.as_bytes();
    let length = message.len();
    assert(encode_utf8(plaintext@).len() == length);
    if key.len() != XCHACHA20_POLY1305_KEY_SIZE {
        return Err(SecurityError::MalformedKey);
    }
    let nothing: Vec<u8> = Vec::new();
    let authenticated: &[u8] = match associated_data {
        Some(a) => a,
        None => nothing.as_slice(),
    };
    match aead_encrypt(key, nonce, authenticated, message) {
        Some(ciphertext) => Ok(ciphertext),
        None => Err(SecurityError::EncryptionFailed),
    }
}

/// Encrypts `plaintext` under `key` with a fresh random nonce and optional
/// associated data, and returns the ciphertext with the nonce. A key that
/// does not have 32 bytes is rejected; with a key of 32 bytes every
/// plaintext that the cipher takes is encrypted, and the ciphertext is 16
/// bytes longer than the plaintext's bytes.
pub fn encrypt_message(plaintext: &str, key: &[u8], associated_data: Option<&[u8]>) -> (r: Result<
    (Vec<u8>, [u8; 24]),
    SecurityError,
>)
    ensures
        match r {
            Ok((ciphertext, nonce)) => encrypted(
                plaintext@,
                key@,
                nonce@,
                associated_bytes(associated_data),
            ) == Ok::<Seq<u8>, SecurityError>(ciphertext@),
            Err(e) => exists|nonce: Seq<u8>|
                nonce.len() == 24 && #[trigger] encrypted(
                    plaintext@,
                    key@,
                    nonce,
                    associated_bytes(associated_data),
                ) == Err::<Seq<u8>, SecurityError>(e),
        },
        key@.len() != 32 ==> r == Err::<(Vec<u8>, [u8; 24]), SecurityError>(
            SecurityError::MalformedKey,
        ),
        encode_utf8(plaintext@).len() == plaintext.len(),
        key@.len() == 32 && fits_cipher(encode_utf8(plaintext@).len()) ==> r is Ok,
        r matches Ok((ciphertext, _)) ==> ciphertext@.len() == encode_utf8(plaintext@).len() + 16,
{
    let nonce = random_nonce();
    match encrypt_with_nonce(plaintext, key, &nonce, associated_data) {
        Ok(ciphertext) => Ok((ciphertext, nonce)),
        Err(e) => {
            assert(encrypted(plaintext@, key@, nonce@, associated_bytes(associated_data)) == Err::<
                Seq<u8>,
                SecurityError,
            >(e));
            Err(e)
        },
    }
}

/// Decrypts `ciphertext` under `key`, `nonce` and optional associated data.
/// A key that does not have 32 bytes is rejected; a ciphertext that does not
/// authenticate is a decryption failure. What was encrypted under the same
/// key, nonce and associated data comes back as it was.
pub fn decrypt_message(
    ciphertext: &[u8],
    nonce: &[u8; 24],
    key: &[u8],
    associated_data: Option<&[u8]>,
) -> (r: Result<String, SecurityError>)
    ensures
        text_view(r) == decrypted(ciphertext@, nonce@, key@, associated_bytes(associated_data)),
        forall|plaintext: Seq<char>|
            #[trigger] encrypted(plaintext, key@, nonce@, associated_bytes(associated_data))
                == Ok::<Seq<u8>, SecurityError>(ciphertext@) ==> text_view(r) == Ok::<
                Seq<char>,
                SecurityError,
            >(plaintext),
{
    if key.len() != XCHACHA20_POLY1305_KEY_SIZE {
        return Err(SecurityError::MalformedKey);
    }
    let nothing: Vec<u8> = Vec::new();
    let authenticated: &[u8] = match associated_data {
        Some(a) => a,
        None => nothing.as_slice(),
    };
    match aead_decrypt(key, nonce, authenticated, ciphertext) {
        Some(bytes) => {
            let text = text_of(bytes.as_slice());
            proof {
                broadcast use vstd::utf8::group_utf8_lib;

                assert forall|plaintext: Seq<char>|
                    #[trigger] encrypted(
                        plaintext,
                        key@,
                        nonce@,
                        associated_bytes(associated_data),
                    ) == Ok::<Seq<u8>, SecurityError>(ciphertext@) implies text@ == plaintext by {
                    assert(xchacha20poly1305_encrypt(
                        key@,
                        nonce@,
                        associated_bytes(associated_data),
                        encode_utf8(plaintext),
                    ) == Some(ciphertext@));
                    assert(bytes@ == encode_utf8(plaintext));
                    assert(decode_utf8(encode_utf8(plaintext)) == plaintext);
                }
            }
            Ok(text)
        },
        None => {
            proof {
                assert forall|plaintext: Seq<char>|
                    #[trigger] encrypted(
                        plaintext,
                        key@,
                        nonce@,
                        associated_bytes(associated_data),
                    ) == Ok::<Seq<u8>, SecurityError>(ciphertext@) implies false by {
                    assert(xchacha20poly1305_encrypt(
                        key@,
                        nonce@,
                        associated_bytes(associated_data),
                        encode_utf8(plaintext),
                    ) == Some(ciphertext@));
                }
            }
            Err(SecurityError::DecryptionFailed)
        },
    }
}

} // verus!
