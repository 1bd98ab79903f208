//! Sealing and opening of envelopes: exchange, derive, encrypt and sign on
//! the way out; verify, then decrypt on the way in.

use vstd::prelude::*;
use vstd::utf8::encode_utf8;
use crate::common::copy_of;
use crate::security::encryption::{
    associated_bytes, decrypt_message, encrypt_with_nonce, encrypted, fits_cipher, random_nonce,
    text_view,
    utf8_lossy, xchacha20poly1305_decrypt, xchacha20poly1305_encrypt,
};
use crate::security::error::SecurityError;
use crate::security::key_exchange::{
    blake2s_256, derive_encryption_key, derive_shared_secret, generate_keypair, public_key,
    x25519_public_key, x25519_shared_secret,
};
use crate::security::signature::{
    ed25519_signature, ed25519_verifies, ed25519_verifying_key, sign_message, verify_signature,
};

verus! {

/// A sealed payload as it travels: relays forward it byte for byte and can
/// neither read nor forge it.
#[derive(Debug)]
pub struct SignedAndEncryptedMessage {
    pub ciphertext: Vec<u8>,
    pub nonce: [u8; 24],
    pub ephemeral_public_key: [u8; 32],
    pub signature: [u8; 64],
    pub associated_data: Option<Vec<u8>>,
}

/// The bytes of an envelope.
pub struct Envelope {
    pub ciphertext: Seq<u8>,
    pub nonce: Seq<u8>,
    pub ephemeral_public_key: Seq<u8>,
    pub signature: Seq<u8>,
    pub associated_data: Option<Seq<u8>>,
}

impl View for SignedAndEncryptedMessage {
    type V = Envelope;

    open spec fn view(&self) -> Envelope {
        Envelope {
            ciphertext: self.ciphertext@,
            nonce: self.nonce@,
            ephemeral_public_key: self.ephemeral_public_key@,
            signature: self.signature@,
            associated_data: match self.associated_data {
                Some(a) => Some(a@),
                None => None,
            },
        }
    }
}

impl SignedAndEncryptedMessage {
    /// The envelope as a relay hands it on: a copy, byte for byte.
    pub fn forwarded(&self) -> (r: SignedAndEncryptedMessage)
        ensures
            r@ == self@,
    {
        SignedAndEncryptedMessage {
            ciphertext: copy_of(self.ciphertext.as_slice()),
            nonce: self.nonce,
            ephemeral_public_key: self.ephemeral_public_key,
            signature: self.signature,
            associated_data: match &self.associated_data {
                Some(a) => Some(copy_of(a.as_slice())),
                None => None,
            },
        }
    }
}

/// The view of optional associated data.
pub open spec fn associated_view(associated_data: Option<&[u8]>) -> Option<Seq<u8>> {
    match associated_data {
        Some(a) => Some(a@),
        None => None,
    }
}

/// The bytes that the cipher authenticates for optional associated data.
pub open spec fn authenticated_bytes(associated_data: Option<Seq<u8>>) -> Seq<u8> {
    match associated_data {
        Some(a) => a,
        None => Seq::empty(),
    }
}

/// The envelope that sealing `plaintext` gives once the ephemeral secret and
/// the nonce are drawn: the key comes from the exchange between the
/// ephemeral secret and the receiver's public key, the plaintext is
/// encrypted under it, and the ciphertext is signed.
pub open spec fn sealed(
    plaintext: Seq<char>,
    sender_signing_key: Seq<u8>,
    receiver_public_key: Seq<u8>,
    associated_data: Option<Seq<u8>>,
    ephemeral_secret: Seq<u8>,
    nonce: Seq<u8>,
) -> Result<Envelope, SecurityError> {
    let key = blake2s_256(x25519_shared_secret(ephemeral_secret, receiver_public_key));
    match xchacha20poly1305_encrypt(
        key,
        nonce,
        authenticated_bytes(associated_data),
        encode_utf8(plaintext),
    ) {
        None => Err(SecurityError::EncryptionFailed),
        Some(ciphertext) => Ok(
            Envelope {
                ciphertext,
                nonce,
                ephemeral_public_key: x25519_public_key(ephemeral_secret),
                signature: ed25519_signature(sender_signing_key, ciphertext),
                associated_data,
            },
        ),
    }
}

/// What opening an envelope gives: the key is derived from the exchange
/// between the receiver's secret and the envelope's ephemeral public key;
/// the signature over the ciphertext is verified first, and only then is the
/// ciphertext decrypted.
pub open spec fn opened(
    envelope: Envelope,
    sender_verifying_key: Seq<u8>,
    receiver_private_key: Seq<u8>,
    associated_data: Option<Seq<u8>>,
) -> Result<Seq<char>, SecurityError> {
    let key = blake2s_256(
        x25519_shared_secret(receiver_private_key, envelope.ephemeral_public_key),
    );
    if !ed25519_verifies(sender_verifying_key, envelope.ciphertext, envelope.signature) {
        Err(SecurityError::SignatureVerificationFailed)
    } else {
        match xchacha20poly1305_decrypt(
            key,
            envelope.nonce,
            authenticated_bytes(associated_data),
            envelope.ciphertext,
        ) {
            Some(bytes) => Ok(utf8_lossy(bytes)),
            None => Err(SecurityError::DecryptionFailed),
        }
    }
}

/// The view of a sealing result.
pub open spec fn envelope_view(r: Result<SignedAndEncryptedMessage, SecurityError>) -> Result<
    Envelope,
    SecurityError,
> {
    match r {
        Ok(m) => Ok(m@),
        Err(e) => Err(e),
    }
}

/// An envelope opens only if its signature verifies under the sender's key
/// and its ciphertext authenticates under the derived key: no other
/// envelope yields a plaintext.
pub proof fn lemma_opened_only_if_authentic(
    envelope: Envelope,
    sender_verifying_key: Seq<u8>,
    receiver_private_key: Seq<u8>,
    associated_data: Option<Seq<u8>>,
)
    requires
        opened(envelope, sender_verifying_key, receiver_private_key, associated_data) is Ok,
    ensures
        ed25519_verifies(sender_verifying_key, envelope.ciphertext, envelope.signature),
        xchacha20poly1305_decrypt(
            blake2s_256(
                x25519_shared_secret(receiver_private_key, envelope.ephemeral_public_key),
            ),
            envelope.nonce,
            authenticated_bytes(associated_data),
            envelope.ciphertext,
        ) is Some,
{
}

/// Seals `plaintext` with a given ephemeral secret and nonce. Every
/// plaintext that the cipher takes is sealed, and the envelope's ciphertext
/// is 16 bytes longer than the plaintext's bytes.
pub fn seal_with(
    plaintext: &str,
    sender_signing_key: &[u8; 32],
    receiver_public_key: &[u8; 32],
    associated_data: Option<&[u8]>,
    ephemeral_secret: &[u8; 32],
    nonce: &[u8; 24],
) -> (r: Result<SignedAndEncryptedMessage, SecurityError>)
    ensures
        envelope_view(r) == sealed(
            plaintext@,
            sender_signing_key@,
            receiver_public_key@,
            associated_view(associated_data),
            ephemeral_secret@,
            nonce@,
        ),
        encode_utf8(plaintext@).len() == plaintext.len(),
        fits_cipher(encode_utf8(plaintext@).len()) ==> r is Ok,
        r matches Ok(envelope) ==> envelope.ciphertext@.len() == encode_utf8(plaintext@).len()
            + 16,
{
    let ephemeral_public_key = public_key(ephemeral_secret);
    let shared_secret = derive_shared_secret(ephemeral_secret, receiver_public_key);
    let encryption_key = match derive_encryption_key(shared_secret.as_slice()) {
        Ok(key) => key,
        Err(e) => {
            return Err(e);
        },
    };
    let ciphertext = match encrypt_with_nonce(
        plaintext,
        encryption_key.as_slice(),
        nonce,
        associated_data,
    ) {
        Ok(ciphertext) => ciphertext,
        Err(e) => {
            return Err(e);
        },
    };
    let signature = sign_message(sender_signing_key, ciphertext.as_slice());
    let kept = match associated_data {
        Some(a) => Some(copy_of(a)),
        None => None,
    };
    Ok(
        SignedAndEncryptedMessage {
            ciphertext,
            nonce: *nonce,
            ephemeral_public_key,
            signature,
            associated_data: kept,
        },
    )
}

/// Seals `plaintext` for the owner of `receiver_public_key`: a fresh
/// ephemeral keypair and a fresh nonce are drawn, and the envelope is the one
/// that `sealed` gives for them. Every plaintext that the cipher takes is
/// sealed, and the envelope's ciphertext is 16 bytes longer than the
/// plaintext's bytes.
pub fn encrypt_and_sign(
    plaintext: &str,
    sender_signing_key: &[u8; 32],
    receiver_public_key: &[u8; 32],
    associated_data: Option<&[u8]>,
) -> (r: Result<SignedAndEncryptedMessage, SecurityError>)
    ensures
        exists|ephemeral_secret: Seq<u8>, nonce: Seq<u8>|
            ephemeral_secret.len() == 32 && nonce.len() == 24 && envelope_view(r)
                == #[trigger] sealed(
                plaintext@,
                sender_signing_key@,
                receiver_public_key@,
                associated_view(associated_data),
                ephemeral_secret,
                nonce,
            ),
        encode_utf8(plaintext@).len() == plaintext.len(),
        fits_cipher(encode_utf8(plaintext@).len()) ==> r is Ok,
        r matches Ok(envelope) ==> envelope.ciphertext@.len() == encode_utf8(plaintext@).len()
            + 16,
{
    let (ephemeral_private_key, _) = generate_keypair();
    let nonce = random_nonce();
    let r = seal_with(
        plaintext,
        sender_signing_key,
        receiver_public_key,
        associated_data,
        &ephemeral_private_key,
        &nonce,
    );
    assert(envelope_view(r) == sealed(
        plaintext@,
        sender_signing_key@,
        receiver_public_key@,
        associated_view(associated_data),
        ephemeral_private_key@,
        nonce@,
    ));
    r
}

/// Opens an envelope: verify, then decrypt. A signature that does not verify
/// is reported before any decryption is tried, and differently from a
/// ciphertext that does not authenticate.
///
/// Round trip: an envelope that was sealed for this receiver by the owner of
/// the signing key behind `sender_verifying_key`, with the same associated
/// data, opens to the plaintext that was sealed.
pub fn verify_and_decrypt(
    signed_encrypted_msg: &SignedAndEncryptedMessage,
    sender_verifying_key: &[u8; 32],
    receiver_private_key: &[u8; 32],
    associated_data: Option<&[u8]>,
) -> (r: Result<String, SecurityError>)
    ensures
        text_view(r) == opened(
            signed_encrypted_msg@,
            sender_verifying_key@,
            receiver_private_key@,
            associated_view(associated_data),
        ),
        forall|plaintext: Seq<char>, sender_signing_key: Seq<u8>, ephemeral_secret: Seq<u8>|
            sender_signing_key.len() == 32 && ephemeral_secret.len() == 32 && sender_verifying_key@
                == ed25519_verifying_key(sender_signing_key) && #[trigger] sealed(
                plaintext,
                sender_signing_key,
                x25519_public_key(receiver_private_key@),
                associated_view(associated_data),
                ephemeral_secret,
                signed_encrypted_msg.nonce@,
            ) == Ok::<Envelope, SecurityError>(signed_encrypted_msg@) ==> text_view(r) == Ok::<
                Seq<char>,
                SecurityError,
            >(plaintext),
{
    let shared_secret = derive_shared_secret(
        receiver_private_key,
        &signed_encrypted_msg.ephemeral_public_key,
    );
    let ghost aad = associated_view(associated_data);
    assert(authenticated_bytes(aad) == associated_bytes(associated_data));
    proof {
        // Whoever sealed the envelope derived the same shared secret.
        assert forall|plaintext: Seq<char>, sender_signing_key: Seq<u8>, ephemeral_secret: Seq<u8>|
            ephemeral_secret.len() == 32 && #[trigger] sealed(
                plaintext,
                sender_signing_key,
                x25519_public_key(receiver_private_key@),
                aad,
                ephemeral_secret,
                signed_encrypted_msg.nonce@,
            ) == Ok::<Envelope, SecurityError>(signed_encrypted_msg@) implies shared_secret@
            == x25519_shared_secret(
            ephemeral_secret,
            x25519_public_key(receiver_private_key@),
        ) by {
            assert(x25519_public_key(ephemeral_secret)
                == signed_encrypted_msg.ephemeral_public_key@);
        }
    }
    let encryption_key = match derive_encryption_key(shared_secret.as_slice()) {
        Ok(key) => key,
        Err(e) => {
            return Err(e);
        },
    };
    match verify_signature(
        sender_verifying_key,
        signed_encrypted_msg.ciphertext.as_slice(),
        &signed_encrypted_msg.signature,
    ) {
        Ok(_) => {
            let r = decrypt_message(
                signed_encrypted_msg.ciphertext.as_slice(),
                &signed_encrypted_msg.nonce,
                encryption_key.as_slice(),
                associated_data,
            );
            proof {
                assert forall|
                    plaintext: Seq<char>,
                    sender_signing_key: Seq<u8>,
                    ephemeral_secret: Seq<u8>,
                |
                    sender_signing_key.len() == 32 && ephemeral_secret.len() == 32
                        && sender_verifying_key@ == ed25519_verifying_key(sender_signing_key)
                        && #[trigger] sealed(
                        plaintext,
                        sender_signing_key,
                        x25519_public_key(receiver_private_key@),
                        aad,
                        ephemeral_secret,
                        signed_encrypted_msg.nonce@,
                    ) == Ok::<Envelope, SecurityError>(signed_encrypted_msg@) implies text_view(r)
                    == Ok::<Seq<char>, SecurityError>(plaintext) by {
                    assert(encrypted(
                        plaintext,
                        encryption_key@,
                        signed_encrypted_msg.nonce@,
                        associated_bytes(associated_data),
                    ) == Ok::<Seq<u8>, SecurityError>(signed_encrypted_msg.ciphertext@));
                }
            }
            r
        },
        Err(e) => {
            proof {
                assert forall|
                    plaintext: Seq<char>,
                    sender_signing_key: Seq<u8>,
                    ephemeral_secret: Seq<u8>,
                |
                    sender_signing_key.len() == 32 && ephemeral_secret.len() == 32
                        && sender_verifying_key@ == ed25519_verifying_key(sender_signing_key)
                        && #[trigger] sealed(
                        plaintext,
                        sender_signing_key,
                        x25519_public_key(receiver_private_key@),
                        aad,
                        ephemeral_secret,
                        signed_encrypted_msg.nonce@,
                    ) == Ok::<Envelope, SecurityError>(signed_encrypted_msg@) implies false by {
                    assert(signed_encrypted_msg.signature@ == ed25519_signature(
                        sender_signing_key,
                        signed_encrypted_msg.ciphertext@,
                    ));
                }
            }
            Err(e)
        },
    }
}

} // verus!
