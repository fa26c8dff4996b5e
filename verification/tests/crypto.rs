use securechat_core::crypto::{EncryptedMessage, IdentityKeyPair, MasterKey, MessageKeyPair};
use securechat_core::error::CoreError;
use securechat_core::primitives::{hash_password, verify_password};

#[test]
fn test_master_key_encryption() {
    let password = "test_password_123";

    let (master_key_store, original_key) = match MasterKey::from_password(password) {
        Ok(pair) => pair,
        Err(_) => panic!("Failed to create master key"),
    };

    let decrypted_key = match master_key_store.unlock(password) {
        Ok(key) => key,
        Err(_) => panic!("Failed to unlock master key"),
    };

    assert_eq!(original_key, decrypted_key);
}

#[test]
fn test_identity_key_encryption() {
    let master_key: [u8; 32] = MasterKey::generate_random_bytes();

    let identity = IdentityKeyPair::generate();
    let encrypted = match identity.encrypt(&master_key) {
        Ok(e) => e,
        Err(_) => panic!("Failed to encrypt identity"),
    };

    let decrypted = match IdentityKeyPair::decrypt(&encrypted, &master_key) {
        Ok(d) => d,
        Err(_) => panic!("Failed to decrypt identity"),
    };

    assert_eq!(identity.public_key(), decrypted.public_key());
}

#[test]
fn test_message_encryption() {
    let alice = MessageKeyPair::generate();
    let bob = MessageKeyPair::generate();

    let message = b"Hello, secure world!";

    let encrypted = match alice.encrypt_message(&bob.public_key(), message) {
        Ok(e) => e,
        Err(_) => panic!("Failed to encrypt message"),
    };

    let decrypted = match bob.decrypt_message(&encrypted) {
        Ok(d) => d,
        Err(_) => panic!("Failed to decrypt message"),
    };

    assert_eq!(message.as_slice(), decrypted.as_slice());
}

#[test]
fn test_signing() {
    let identity = IdentityKeyPair::generate();

    let message = b"Test message to sign";
    let signature = identity.sign(message);

    if IdentityKeyPair::verify(&identity.public_key(), message, &signature).is_err() {
        panic!("Signature verification failed");
    }
}

#[test]
fn wrong_password_is_reported_as_wrong_password() {
    let (store, _) = MasterKey::from_password("test_password_123").unwrap();
    assert_eq!(store.unlock("test_password_124"), Err(CoreError::WrongPassword));
}

#[test]
fn master_key_envelope_is_forty_eight_bytes_and_keeps_salt_and_nonce() {
    let salt = [7u8; 32];
    let nonce = [9u8; 12];
    let key = [3u8; 32];
    let store = MasterKey::seal("pw", salt, nonce, &key).unwrap();
    assert_eq!(store.encrypted_key.len(), 48);
    assert_eq!(store.salt, salt);
    assert_eq!(store.nonce, nonce);
    assert_ne!(&store.encrypted_key[..32], &key[..]);
    assert_eq!(store.unlock("pw"), Ok(key));
}

#[test]
fn sealing_the_master_key_is_deterministic_in_its_inputs() {
    let a = MasterKey::seal("pw", [1u8; 32], [2u8; 12], &[3u8; 32]).unwrap();
    let b = MasterKey::seal("pw", [1u8; 32], [2u8; 12], &[3u8; 32]).unwrap();
    let c = MasterKey::seal("pw", [4u8; 32], [2u8; 12], &[3u8; 32]).unwrap();
    assert_eq!(a.encrypted_key, b.encrypted_key);
    assert_ne!(a.encrypted_key, c.encrypted_key);
}

#[test]
fn corrupted_master_key_envelope_is_wrong_password() {
    let (mut store, _) = MasterKey::from_password("pw").unwrap();
    store.encrypted_key[0] ^= 1;
    assert_eq!(store.unlock("pw"), Err(CoreError::WrongPassword));
    store.encrypted_key.truncate(10);
    assert_eq!(store.unlock("pw"), Err(CoreError::WrongPassword));
}

#[test]
fn identity_public_key_is_stable_across_unlock_cycles() {
    let master_key = [5u8; 32];
    let identity = IdentityKeyPair::from_secret([11u8; 32]);
    let sealed = identity.encrypt_with_nonce(&master_key, [1u8; 12]).unwrap();
    assert_eq!(sealed.public_key, identity.public_key());
    assert_eq!(sealed.nonce, [1u8; 12]);
    assert_eq!(sealed.encrypted_secret.len(), 48);
    let first = IdentityKeyPair::decrypt(&sealed, &master_key).unwrap();
    let second = IdentityKeyPair::decrypt(&sealed, &master_key).unwrap();
    assert_eq!(first.public_key(), sealed.public_key);
    assert_eq!(second.public_key(), sealed.public_key);
    let signature = first.sign(b"abc");
    assert!(IdentityKeyPair::verify(&sealed.public_key, b"abc", &signature).is_ok());
}

#[test]
fn identity_does_not_unseal_with_another_master_key() {
    let identity = IdentityKeyPair::generate();
    let sealed = identity.encrypt(&[5u8; 32]).unwrap();
    assert!(matches!(
        IdentityKeyPair::decrypt(&sealed, &[6u8; 32]),
        Err(CoreError::AuthFailure)
    ));
}

#[test]
fn ed25519_matches_the_first_rfc_8032_vector() {
    let secret: [u8; 32] = [
        0x9d, 0x61, 0xb1, 0x9d, 0xef, 0xfd, 0x5a, 0x60, 0xba, 0x84, 0x4a, 0xf4, 0x92, 0xec, 0x2c,
        0xc4, 0x44, 0x49, 0xc5, 0x69, 0x7b, 0x32, 0x69, 0x19, 0x70, 0x3b, 0xac, 0x03, 0x1c, 0xae,
        0x7f, 0x60,
    ];
    let public: [u8; 32] = [
        0xd7, 0x5a, 0x98, 0x01, 0x82, 0xb1, 0x0a, 0xb7, 0xd5, 0x4b, 0xfe, 0xd3, 0xc9, 0x64, 0x07,
        0x3a, 0x0e, 0xe1, 0x72, 0xf3, 0xda, 0xa6, 0x23, 0x25, 0xaf, 0x02, 0x1a, 0x68, 0xf7, 0x07,
        0x51, 0x1a,
    ];
    let identity = IdentityKeyPair::from_secret(secret);
    assert_eq!(identity.public_key(), public);
    let signature = identity.sign(b"");
    assert_eq!(&signature[..4], &[0xe5, 0x56, 0x43, 0x00]);
    assert!(IdentityKeyPair::verify(&public, b"", &signature).is_ok());
}

#[test]
fn every_single_bit_mutation_of_the_message_fails_verification() {
    let identity = IdentityKeyPair::generate();
    let message = b"Test message to sign".to_vec();
    let signature = identity.sign(&message);
    for byte in 0..message.len() {
        for bit in 0..8 {
            let mut mutated = message.clone();
            mutated[byte] ^= 1 << bit;
            assert_eq!(
                IdentityKeyPair::verify(&identity.public_key(), &mutated, &signature),
                Err(CoreError::AuthFailure)
            );
        }
    }
}

#[test]
fn every_single_bit_mutation_of_the_signature_fails_verification() {
    let identity = IdentityKeyPair::generate();
    let message = b"Test message to sign";
    let signature = identity.sign(message);
    for byte in 0..signature.len() {
        for bit in 0..8 {
            let mut mutated = signature;
            mutated[byte] ^= 1 << bit;
            assert_eq!(
                IdentityKeyPair::verify(&identity.public_key(), message, &mutated),
                Err(CoreError::AuthFailure)
            );
        }
    }
}

#[test]
fn bytes_that_are_no_public_key_fail_verification() {
    let identity = IdentityKeyPair::generate();
    let signature = identity.sign(b"m");
    assert_eq!(
        IdentityKeyPair::verify(&[0xffu8; 32], b"m", &signature),
        Err(CoreError::AuthFailure)
    );
}

#[test]
fn x25519_public_key_matches_the_rfc_7748_vector() {
    let alice_secret: [u8; 32] = [
        0x77, 0x07, 0x6d, 0x0a, 0x73, 0x18, 0xa5, 0x7d, 0x3c, 0x16, 0xc1, 0x72, 0x51, 0xb2, 0x66,
        0x45, 0xdf, 0x4c, 0x2f, 0x87, 0xeb, 0xc0, 0x99, 0x2a, 0xb1, 0x77, 0xfb, 0xa5, 0x1d, 0xb9,
        0x2c, 0x2a,
    ];
    let alice_public: [u8; 32] = [
        0x85, 0x20, 0xf0, 0x09, 0x89, 0x30, 0xa7, 0x54, 0x74, 0x8b, 0x7d, 0xdc, 0xb4, 0x3e, 0xf7,
        0x5a, 0x0d, 0xbf, 0x3a, 0x0d, 0x26, 0x38, 0x1a, 0xf4, 0xeb, 0xa4, 0xa9, 0x8e, 0xaa, 0x9b,
        0x4e, 0x6a,
    ];
    assert_eq!(MessageKeyPair::from_secret(alice_secret).public_key(), alice_public);
}

#[test]
fn message_sealed_with_given_ephemeral_and_nonce_opens_at_the_recipient() {
    let alice = MessageKeyPair::from_secret([1u8; 32]);
    let bob = MessageKeyPair::from_secret([2u8; 32]);
    let ephemeral = [3u8; 32];
    let sealed = alice
        .encrypt_message_with(&bob.public_key(), b"Hello, secure world!", &ephemeral, [4u8; 12])
        .unwrap();
    assert_eq!(sealed.nonce, [4u8; 12]);
    assert_eq!(sealed.sender_pubkey, alice.public_key());
    assert_eq!(
        sealed.ephemeral_pubkey,
        MessageKeyPair::from_secret(ephemeral).public_key()
    );
    assert_eq!(sealed.ciphertext.len(), 20 + 16);
    assert_eq!(bob.decrypt_message(&sealed).unwrap(), b"Hello, secure world!".to_vec());
    let again = alice
        .encrypt_message_with(&bob.public_key(), b"Hello, secure world!", &ephemeral, [4u8; 12])
        .unwrap();
    assert_eq!(again.ciphertext, sealed.ciphertext);
}

#[test]
fn message_for_another_session_key_is_rejected() {
    let alice = MessageKeyPair::generate();
    let bob = MessageKeyPair::generate();
    let carol = MessageKeyPair::generate();
    let sealed = alice.encrypt_message(&bob.public_key(), b"for bob").unwrap();
    assert_eq!(carol.decrypt_message(&sealed), Err(CoreError::AuthFailure));
    assert_eq!(alice.decrypt_message(&sealed), Err(CoreError::AuthFailure));
}

#[test]
fn tampered_message_is_rejected() {
    let alice = MessageKeyPair::generate();
    let bob = MessageKeyPair::generate();
    let mut sealed = alice.encrypt_message(&bob.public_key(), b"payload").unwrap();
    sealed.ciphertext[0] ^= 0x80;
    assert_eq!(bob.decrypt_message(&sealed), Err(CoreError::AuthFailure));
}

#[test]
fn ciphertext_shorter_than_a_tag_is_rejected() {
    let alice = MessageKeyPair::generate();
    let bob = MessageKeyPair::generate();
    for len in 0..16usize {
        let message = EncryptedMessage {
            ciphertext: vec![0u8; len],
            nonce: [0u8; 12],
            sender_pubkey: alice.public_key(),
            ephemeral_pubkey: alice.public_key(),
        };
        assert_eq!(bob.decrypt_message(&message), Err(CoreError::AuthFailure));
    }
}

#[test]
fn empty_message_seals_to_a_bare_tag() {
    let alice = MessageKeyPair::generate();
    let bob = MessageKeyPair::generate();
    let sealed = alice.encrypt_message(&bob.public_key(), b"").unwrap();
    assert_eq!(sealed.ciphertext.len(), 16);
    assert_eq!(bob.decrypt_message(&sealed).unwrap(), Vec::<u8>::new());
}

#[test]
fn hashed_password_verifies_and_another_does_not() {
    let hash = hash_password("correct horse").unwrap();
    assert!(hash.starts_with("$argon2id$"));
    assert_eq!(verify_password("correct horse", &hash), Ok(true));
    assert_eq!(verify_password("battery staple", &hash), Ok(false));
}

#[test]
fn malformed_password_hash_is_a_crypto_failure() {
    assert_eq!(verify_password("pw", "not a hash"), Err(CoreError::CryptoFailure));
}
