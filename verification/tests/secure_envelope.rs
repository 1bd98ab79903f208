use satellite_simulation::security::encryption::{
    decrypt_message, encrypt_message, encrypt_with_nonce, generate_encryption_key,
};
use satellite_simulation::security::error::SecurityError;
use satellite_simulation::security::key_exchange::{
    derive_encryption_key, derive_shared_secret, generate_keypair, public_key,
};
use satellite_simulation::security::secure_comm::{encrypt_and_sign, seal_with, verify_and_decrypt};
use satellite_simulation::security::signature::{
    generate_identity_keypair, sign_message, verify_signature, verifying_key,
};

fn hex(text: &str) -> Vec<u8> {
    let digits: Vec<u8> = text
        .bytes()
        .map(|b| match b {
            b'0'..=b'9' => b - b'0',
            b'a'..=b'f' => b - b'a' + 10,
            _ => panic!("not a hex digit"),
        })
        .collect();
    digits.chunks(2).map(|pair| pair[0] * 16 + pair[1]).collect()
}

fn hex32(text: &str) -> [u8; 32] {
    hex(text).try_into().unwrap()
}

fn hex64(text: &str) -> [u8; 64] {
    hex(text).try_into().unwrap()
}

#[test]
fn sealed_envelope_opens_to_the_plaintext() {
    let (sender_signing, sender_verifying) = generate_identity_keypair();
    let (receiver_secret, receiver_public) = generate_keypair();
    for plaintext in ["", "telemetry frame 42", "données Ω 衛星"] {
        let envelope = encrypt_and_sign(plaintext, &sender_signing, &receiver_public, None).unwrap();
        let opened = verify_and_decrypt(&envelope, &sender_verifying, &receiver_secret, None);
        assert_eq!(opened, Ok(plaintext.to_string()));
    }
}

#[test]
fn ciphertext_is_the_plaintext_and_a_tag() {
    let (sender_signing, _) = generate_identity_keypair();
    let (_, receiver_public) = generate_keypair();
    let key = generate_encryption_key();
    let block = "sixty-four bytes ...............................................";
    assert_eq!(block.len(), 64);
    for plaintext in ["", "a", "données Ω 衛星", block] {
        let bytes = plaintext.len();
        let envelope = encrypt_and_sign(plaintext, &sender_signing, &receiver_public, None).unwrap();
        assert_eq!(envelope.ciphertext.len(), bytes + 16);
        let (ciphertext, _) = encrypt_message(plaintext, &key, Some(b"leg")).unwrap();
        assert_eq!(ciphertext.len(), bytes + 16);
        let fixed = encrypt_with_nonce(plaintext, &key, &[1u8; 24], None).unwrap();
        assert_eq!(fixed.len(), bytes + 16);
    }
}

#[test]
fn key_derivation_always_gives_a_key() {
    for length in [0usize, 1, 31, 32, 33, 64, 65, 1000] {
        let secret = vec![7u8; length];
        assert!(derive_encryption_key(&secret).is_ok());
    }
}

#[test]
fn sealed_envelope_with_associated_data_round_trips() {
    let (sender_signing, sender_verifying) = generate_identity_keypair();
    let (receiver_secret, receiver_public) = generate_keypair();
    let leg: &[u8] = b"ground-7";
    let envelope = encrypt_and_sign("payload", &sender_signing, &receiver_public, Some(leg)).unwrap();
    assert_eq!(envelope.associated_data, Some(leg.to_vec()));
    assert_eq!(
        verify_and_decrypt(&envelope, &sender_verifying, &receiver_secret, Some(leg)),
        Ok("payload".to_string())
    );
    // Another route leg does not authenticate.
    assert_eq!(
        verify_and_decrypt(&envelope, &sender_verifying, &receiver_secret, Some(b"ground-8")),
        Err(SecurityError::DecryptionFailed)
    );
    assert_eq!(
        verify_and_decrypt(&envelope, &sender_verifying, &receiver_secret, None),
        Err(SecurityError::DecryptionFailed)
    );
}

#[test]
fn flipped_ciphertext_bit_is_detected() {
    let (sender_signing, sender_verifying) = generate_identity_keypair();
    let (receiver_secret, receiver_public) = generate_keypair();
    let envelope = encrypt_and_sign("attitude nominal", &sender_signing, &receiver_public, None)
        .unwrap();
    for byte in 0..envelope.ciphertext.len() {
        for bit in 0..8 {
            let mut tampered = envelope.forwarded();
            tampered.ciphertext[byte] ^= 1 << bit;
            assert_eq!(
                verify_and_decrypt(&tampered, &sender_verifying, &receiver_secret, None),
                Err(SecurityError::SignatureVerificationFailed)
            );
        }
    }
}

#[test]
fn flipped_signature_bit_is_detected() {
    let (sender_signing, sender_verifying) = generate_identity_keypair();
    let (receiver_secret, receiver_public) = generate_keypair();
    let envelope = encrypt_and_sign("attitude nominal", &sender_signing, &receiver_public, None)
        .unwrap();
    for byte in 0..64 {
        for bit in 0..8 {
            let mut tampered = envelope.forwarded();
            tampered.signature[byte] ^= 1 << bit;
            assert_eq!(
                verify_and_decrypt(&tampered, &sender_verifying, &receiver_secret, None),
                Err(SecurityError::SignatureVerificationFailed)
            );
        }
    }
}

#[test]
fn resigned_tampering_fails_at_decryption_not_at_the_signature() {
    // A sender that signs a ciphertext which the cipher never made: the
    // signature verifies, the ciphertext does not authenticate.
    let (sender_signing, sender_verifying) = generate_identity_keypair();
    let (receiver_secret, receiver_public) = generate_keypair();
    let mut envelope = encrypt_and_sign("orbit raise", &sender_signing, &receiver_public, None)
        .unwrap();
    envelope.ciphertext[0] ^= 0x80;
    envelope.signature = sign_message(&sender_signing, &envelope.ciphertext);
    assert_eq!(
        verify_and_decrypt(&envelope, &sender_verifying, &receiver_secret, None),
        Err(SecurityError::DecryptionFailed)
    );
    // Undersized ciphertext, correctly signed.
    envelope.ciphertext = vec![1, 2, 3];
    envelope.signature = sign_message(&sender_signing, &envelope.ciphertext);
    assert_eq!(
        verify_and_decrypt(&envelope, &sender_verifying, &receiver_secret, None),
        Err(SecurityError::DecryptionFailed)
    );
}

#[test]
fn relayed_envelope_opens_at_the_ground() {
    let (sender_signing, sender_verifying) = generate_identity_keypair();
    let (receiver_secret, receiver_public) = generate_keypair();
    let envelope = encrypt_and_sign("via two relays", &sender_signing, &receiver_public, Some(b"leg"))
        .unwrap();
    let hop = envelope.forwarded().forwarded();
    assert_eq!(hop.ciphertext, envelope.ciphertext);
    assert_eq!(hop.nonce, envelope.nonce);
    assert_eq!(hop.ephemeral_public_key, envelope.ephemeral_public_key);
    assert_eq!(hop.signature, envelope.signature);
    assert_eq!(hop.associated_data, envelope.associated_data);
    assert_eq!(
        verify_and_decrypt(&hop, &sender_verifying, &receiver_secret, Some(b"leg")),
        Ok("via two relays".to_string())
    );
}

#[test]
fn envelope_from_another_sender_is_rejected() {
    let (sender_signing, _) = generate_identity_keypair();
    let (_, other_verifying) = generate_identity_keypair();
    let (receiver_secret, receiver_public) = generate_keypair();
    let envelope = encrypt_and_sign("hello", &sender_signing, &receiver_public, None).unwrap();
    assert_eq!(
        verify_and_decrypt(&envelope, &other_verifying, &receiver_secret, None),
        Err(SecurityError::SignatureVerificationFailed)
    );
}

#[test]
fn relay_without_the_receiver_secret_cannot_read() {
    let (sender_signing, sender_verifying) = generate_identity_keypair();
    let (_, receiver_public) = generate_keypair();
    let (relay_secret, _) = generate_keypair();
    let envelope = encrypt_and_sign("hello", &sender_signing, &receiver_public, None).unwrap();
    assert_eq!(
        verify_and_decrypt(&envelope, &sender_verifying, &relay_secret, None),
        Err(SecurityError::DecryptionFailed)
    );
}

#[test]
fn two_seals_share_neither_nonce_nor_ephemeral_key() {
    let (sender_signing, _) = generate_identity_keypair();
    let (_, receiver_public) = generate_keypair();
    let first = encrypt_and_sign("same text", &sender_signing, &receiver_public, None).unwrap();
    let second = encrypt_and_sign("same text", &sender_signing, &receiver_public, None).unwrap();
    assert_ne!(first.nonce, second.nonce);
    assert_ne!(first.ephemeral_public_key, second.ephemeral_public_key);
    assert_ne!(first.ciphertext, second.ciphertext);
}

#[test]
fn seal_with_is_a_function_of_its_inputs() {
    let (sender_signing, sender_verifying) = generate_identity_keypair();
    let (receiver_secret, receiver_public) = generate_keypair();
    let ephemeral = [7u8; 32];
    let nonce = [9u8; 24];
    let first = seal_with("fixed", &sender_signing, &receiver_public, None, &ephemeral, &nonce)
        .unwrap();
    let second = seal_with("fixed", &sender_signing, &receiver_public, None, &ephemeral, &nonce)
        .unwrap();
    assert_eq!(first.ciphertext, second.ciphertext);
    assert_eq!(first.signature, second.signature);
    assert_eq!(first.nonce, nonce);
    assert_eq!(first.ephemeral_public_key, public_key(&ephemeral));
    // Ciphertext is the plaintext's length plus the 16-byte tag, and is not the plaintext.
    assert_eq!(first.ciphertext.len(), 5 + 16);
    assert_ne!(&first.ciphertext[..5], b"fixed");
    assert_eq!(
        verify_and_decrypt(&first, &sender_verifying, &receiver_secret, None),
        Ok("fixed".to_string())
    );
}

#[test]
fn x25519_matches_the_published_vectors() {
    let alice_secret = hex32("77076d0a7318a57d3c16c17251b26645df4c2f87ebc0992ab177fba51db92c2a");
    let alice_public = hex32("8520f0098930a754748b7ddcb43ef75a0dbf3a0d26381af4eba4a98eaa9b4e6a");
    let bob_public = hex32("de9edb7d7b7dc1b4d35b61c2ece435373f8343c85b78674dadfc7e146f882b4f");
    let shared = hex32("4a5d9d5ba4ce2de1728e3bf480350f25e07e21c947d19e3376f09b3c1e161742");
    assert_eq!(public_key(&alice_secret), alice_public);
    assert_eq!(derive_shared_secret(&alice_secret, &bob_public), shared);
}

#[test]
fn generated_keypairs_agree_on_the_shared_secret() {
    let (alice_secret, alice_public) = generate_keypair();
    let (bob_secret, bob_public) = generate_keypair();
    assert_eq!(public_key(&alice_secret), alice_public);
    assert_ne!(alice_secret, bob_secret);
    assert_eq!(
        derive_shared_secret(&alice_secret, &bob_public),
        derive_shared_secret(&bob_secret, &alice_public)
    );
}

#[test]
fn derived_key_is_the_blake2s_digest() {
    let key = derive_encryption_key(b"abc").unwrap();
    assert_eq!(
        key,
        hex32("508c5e8c327c14e2e1a72ba34eeb452f37458b209ed63a294d999b4c86675982")
    );
    assert_eq!(derive_encryption_key(b"abc"), Ok(key));
    assert_ne!(derive_encryption_key(b"abd"), Ok(key));
}

#[test]
fn ed25519_matches_the_published_vector() {
    let secret = hex32("9d61b19deffd5a60ba844af492ec2cc44449c5697b326919703bac031cae7f60");
    let public = hex32("d75a980182b10ab7d54bfed3c964073a0ee172f3daa62325af021a68f707511a");
    let signature = hex64(
        "e5564300c360ac729086e2cc806e828a84877f1eb8e5d974d873e065224901555fb8821590a33bacc61e39701cf9b46bd25bf5f0595bbe24655141438e7a100b",
    );
    assert_eq!(verifying_key(&secret), public);
    assert_eq!(sign_message(&secret, b""), signature);
    assert_eq!(verify_signature(&public, b"", &signature), Ok(()));
    assert_eq!(
        verify_signature(&public, b"x", &signature),
        Err(SecurityError::SignatureVerificationFailed)
    );
}

#[test]
fn verifying_key_that_is_no_curve_point_is_rejected() {
    let (signing, _) = generate_identity_keypair();
    let signature = sign_message(&signing, b"msg");
    // y = 2 is not the y-coordinate of a point of the curve.
    let mut not_a_point = [0u8; 32];
    not_a_point[0] = 2;
    assert_eq!(
        verify_signature(&not_a_point, b"msg", &signature),
        Err(SecurityError::SignatureVerificationFailed)
    );
}

#[test]
fn generated_identity_signs_and_verifies() {
    let (signing, verifying) = generate_identity_keypair();
    assert_eq!(verifying_key(&signing), verifying);
    let signature = sign_message(&signing, b"downlink request");
    assert_eq!(verify_signature(&verifying, b"downlink request", &signature), Ok(()));
}

#[test]
fn message_encryption_round_trips() {
    let key = generate_encryption_key();
    let (ciphertext, nonce) = encrypt_message("battery 87%", &key, Some(b"sat-3")).unwrap();
    assert_eq!(ciphertext.len(), "battery 87%".len() + 16);
    assert_eq!(
        decrypt_message(&ciphertext, &nonce, &key, Some(b"sat-3")),
        Ok("battery 87%".to_string())
    );
    assert_eq!(
        decrypt_message(&ciphertext, &nonce, &key, None),
        Err(SecurityError::DecryptionFailed)
    );
    let other_key = generate_encryption_key();
    assert_ne!(key, other_key);
    assert_eq!(
        decrypt_message(&ciphertext, &nonce, &other_key, Some(b"sat-3")),
        Err(SecurityError::DecryptionFailed)
    );
}

#[test]
fn fresh_nonce_for_every_message() {
    let key = generate_encryption_key();
    let (first, first_nonce) = encrypt_message("same", &key, None).unwrap();
    let (second, second_nonce) = encrypt_message("same", &key, None).unwrap();
    assert_ne!(first_nonce, second_nonce);
    assert_ne!(first, second);
}

#[test]
fn key_of_the_wrong_length_is_rejected() {
    let short = [0u8; 31];
    let long = [0u8; 33];
    let nonce = [0u8; 24];
    assert_eq!(encrypt_message("x", &short, None), Err(SecurityError::MalformedKey));
    assert_eq!(encrypt_message("x", &long, None), Err(SecurityError::MalformedKey));
    assert_eq!(encrypt_with_nonce("x", &[], &nonce, None), Err(SecurityError::MalformedKey));
    assert_eq!(
        decrypt_message(&[0u8; 20], &nonce, &short, None),
        Err(SecurityError::MalformedKey)
    );
}

#[test]
fn undersized_ciphertext_is_a_decryption_failure() {
    let key = generate_encryption_key();
    let nonce = [0u8; 24];
    assert_eq!(decrypt_message(&[], &nonce, &key, None), Err(SecurityError::DecryptionFailed));
    assert_eq!(
        decrypt_message(&[1, 2, 3], &nonce, &key, None),
        Err(SecurityError::DecryptionFailed)
    );
}
