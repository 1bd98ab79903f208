//! X25519 key exchange and the derivation of the encryption key from the
//! shared secret.

use vstd::prelude::*;
use blake2::digest::{Update, VariableOutput};
use blake2::Blake2sVar;
use rand::rngs::OsRng;
use x25519_dalek::{PublicKey, StaticSecret};
use crate::security::error::SecurityError;

verus! {

/// The X25519 public key that belongs to a secret key.
pub uninterp spec fn x25519_public_key(secret: Seq<u8>) -> Seq<u8>;

/// The X25519 Diffie-Hellman value of a secret key and a peer's public key.
pub uninterp spec fn x25519_shared_secret(secret: Seq<u8>, peer_public: Seq<u8>) -> Seq<u8>;

/// The 32-byte BLAKE2s digest of `input`.
pub uninterp spec fn blake2s_256(input: Seq<u8>) -> Seq<u8>;

/// The view of an optional key.
pub open spec fn key_view(key: Option<[u8; 32]>) -> Option<Seq<u8>> {
    match key {
        Some(k) => Some(k@),
        None => None,
    }
}

/// `StaticSecret::random_from_rng` of x25519-dalek on the operating system's
/// generator: 32 fresh random bytes. Nothing is claimed of them.
#[verifier::external_body]
fn random_secret() -> [u8; 32] {
    StaticSecret::random_from_rng(OsRng).to_bytes()
}

/// `PublicKey::from(&StaticSecret)` of x25519-dalek: the public key of a
/// secret key, a function of the secret's bytes alone.
#[verifier::external_body]
fn public_key_of(secret: &[u8; 32]) -> (r: [u8; 32])
    ensures
        r@ == x25519_public_key(secret@),
{
    PublicKey::from(&StaticSecret::from(*secret)).to_bytes()
}

/// `StaticSecret::diffie_hellman` of x25519-dalek: a function of the two
/// keys' bytes alone, and the value on which both sides of an exchange
/// agree, as the crate's usage example asserts of Alice and Bob: had the
/// peer's public key been made from a secret `other`, the peer would get the
/// same bytes from `other` and this side's public key.
#[verifier::external_body]
fn diffie_hellman(secret: &[u8; 32], peer_public: &[u8; 32]) -> (r: [u8; 32])
    ensures
        r@ == x25519_shared_secret(secret@, peer_public@),
        forall|other: Seq<u8>|
            other.len() == 32 && #[trigger] x25519_public_key(other) == peer_public@ ==> r@
                == x25519_shared_secret(other, x25519_public_key(secret@)),
{
    StaticSecret::from(*secret).diffie_hellman(&PublicKey::from(*peer_public)).to_bytes()
}

/// `Blake2sVar` of blake2 with 32 bytes of output: `VariableOutput::new`,
/// `Update::update` with the input, and `VariableOutput::finalize_variable`.
/// The digest is a function of the input alone. Both fallible calls
/// succeed: 32 bytes is an output size that the hasher has, and the buffer
/// handed to it has that size.
#[verifier::external_body]
fn blake2s_digest(input: &[u8]) -> (r: Option<[u8; 32]>)
    ensures
        key_view(r) == Some(blake2s_256(input@)),
{
    let mut key = [0u8; 32];
    let mut kdf = Blake2sVar::new(32).ok()?;
    kdf.update(input);
    kdf.finalize_variable(&mut key).ok()?;
    Some(key)
}

/// A fresh key-exchange keypair: the secret key, then its public key.
pub fn generate_keypair() -> (r: ([u8; 32], [u8; 32]))
    ensures
        r.1@ == x25519_public_key(r.0@),
{
    let private_key = random_secret();
    let public_key = public_key_of(&private_key);
    (private_key, public_key)
}

/// The public key of a key-exchange secret.
pub fn public_key(private_key: &[u8; 32]) -> (r: [u8; 32])
    ensures
        r@ == x25519_public_key(private_key@),
{
    public_key_of(private_key)
}

/// The secret that both sides of an X25519 exchange share. It is the same
/// for the owner of `private_key` and for the owner of the secret behind
/// `peer_public_key`.
pub fn derive_shared_secret(private_key: &[u8; 32], peer_public_key: &[u8; 32]) -> (r: [u8; 32])
    ensures
        r@ == x25519_shared_secret(private_key@, peer_public_key@),
        forall|other: Seq<u8>|
            other.len() == 32 && #[trigger] x25519_public_key(other) == peer_public_key@ ==> r@
                == x25519_shared_secret(other, x25519_public_key(private_key@)),
{
    diffie_hellman(private_key, peer_public_key)
}

/// The encryption key derived from a shared secret: its BLAKE2s digest. The
/// derivation always gives a key, and the same secret always gives the same
/// key.
pub fn derive_encryption_key(shared_secret: &[u8]) -> (r: Result<[u8; 32], SecurityError>)
    ensures
        r matches Ok(k) && k@ == blake2s_256(shared_secret@),
{
    match blake2s_digest(shared_secret) {
        Some(key) => Ok(key),
        None => Err(SecurityError::KeyDerivationFailed),
    }
}

} // verus!
