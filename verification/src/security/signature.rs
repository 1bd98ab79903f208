//! Ed25519 signatures under a node's long-term identity.

use vstd::prelude::*;
use ed25519_dalek::{Signature, Signer, SigningKey, Verifier, VerifyingKey};
use rand::rngs::OsRng;
use crate::security::error::SecurityError;

verus! {

/// The error type of ed25519-dalek.
#[verifier::external_type_specification]
#[verifier::external_body]
pub struct ExSignatureError(ed25519_dalek::SignatureError);

/// The Ed25519 verifying key that belongs to a signing key.
pub uninterp spec fn ed25519_verifying_key(signing_key: Seq<u8>) -> Seq<u8>;

/// The Ed25519 signature of `message` under a signing key.
pub uninterp spec fn ed25519_signature(signing_key: Seq<u8>, message: Seq<u8>) -> Seq<u8>;

/// Whether `signature` verifies as a signature of `message` under the
/// verifying key with the given bytes.
pub uninterp spec fn ed25519_verifies(verifying_key: Seq<u8>, message: Seq<u8>, signature: Seq<u8>)
    -> bool;

/// `SigningKey::generate` of ed25519-dalek on the operating system's
/// generator: the 32 bytes of a fresh signing key. Nothing is claimed of
/// them.
#[verifier::external_body]
fn random_signing_key() -> [u8; 32] {
    SigningKey::generate(&mut OsRng).to_bytes()
}

/// `SigningKey::verifying_key` of ed25519-dalek: the public half of a
/// signing key, a function of the key's bytes alone.
#[verifier::external_body]
fn verifying_key_of(signing_key: &[u8; 32]) -> (r: [u8; 32])
    ensures
        r@ == ed25519_verifying_key(signing_key@),
{
    SigningKey::from_bytes(signing_key).verifying_key().to_bytes()
}

/// `Signer::sign` of ed25519-dalek's `SigningKey`: Ed25519 signing draws no
/// randomness, so the signature is a function of key and message alone.
#[verifier::external_body]
fn sign(signing_key: &[u8; 32], message: &[u8]) -> (r: [u8; 64])
    ensures
        r@ == ed25519_signature(signing_key@, message@),
{
    SigningKey::from_bytes(signing_key).sign(message).to_bytes()
}

/// `Verifier::verify` of ed25519-dalek's `VerifyingKey`, on a key decoded by
/// `VerifyingKey::from_bytes`: `Ok` iff the key decodes and the signature
/// verifies, a function of the three byte strings alone. A signature made
/// over the same message with the signing key that the verifying key
/// belongs to verifies, as the crate's usage example asserts.
#[verifier::external_body]
fn verify(verifying_key: &[u8; 32], message: &[u8], signature: &[u8; 64]) -> (r: Result<
    (),
    ed25519_dalek::SignatureError,
>)
    ensures
        r is Ok <==> ed25519_verifies(verifying_key@, message@, signature@),
        forall|signing_key: Seq<u8>|
            signing_key.len() == 32 && verifying_key@ == ed25519_verifying_key(signing_key)
                && signature@ == #[trigger] ed25519_signature(signing_key, message@) ==> r is Ok,
{
    VerifyingKey::from_bytes(verifying_key)?.verify(message, &Signature::from_bytes(signature))
}

/// A fresh identity: the signing key, then its verifying key.
pub fn generate_identity_keypair() -> (r: ([u8; 32], [u8; 32]))
    ensures
        r.1@ == ed25519_verifying_key(r.0@),
{
    let signing_key = random_signing_key();
    let verifying_key = verifying_key_of(&signing_key);
    (signing_key, verifying_key)
}

/// The verifying key of a signing key.
pub fn verifying_key(signing_key: &[u8; 32]) -> (r: [u8; 32])
    ensures
        r@ == ed25519_verifying_key(signing_key@),
{
    verifying_key_of(signing_key)
}

/// Signs `message` with `private_key`.
pub fn sign_message(private_key: &[u8; 32], message: &[u8]) -> (r: [u8; 64])
    ensures
        r@ == ed25519_signature(private_key@, message@),
{
    sign(private_key, message)
}

/// Checks `signature` over `message` against `public_key`. What the owner of
/// the matching signing key signed over the same message is accepted.
pub fn verify_signature(public_key: &[u8; 32], message: &[u8], signature: &[u8; 64]) -> (r: Result<
    (),
    SecurityError,
>)
    ensures
        r == (if ed25519_verifies(public_key@, message@, signature@) {
            Ok::<(), SecurityError>(())
        } else {
            Err::<(), SecurityError>(SecurityError::SignatureVerificationFailed)
        }),
        forall|signing_key: Seq<u8>|
            signing_key.len() == 32 && public_key@ == ed25519_verifying_key(signing_key)
                && signature@ == #[trigger] ed25519_signature(signing_key, message@) ==> r is Ok,
{
    match verify(public_key, message, signature) {
        Ok(_) => Ok(()),
        Err(_) => Err(SecurityError::SignatureVerificationFailed),
    }
}

} // verus!
