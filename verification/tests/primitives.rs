use securechat_core::error::CoreError;
use securechat_core::primitives::{
    derive_from_password, dh, expand, open, random_bytes, random_key, random_nonce, seal, to_key,
    to_nonce,
};

fn hex(text: &str) -> Vec<u8> {
    (0..text.len() / 2).map(|i| u8::from_str_radix(&text[2 * i..2 * i + 2], 16).unwrap()).collect()
}

#[test]
fn aes_gcm_matches_the_zero_key_vector() {
    let sealed = seal(&[0u8; 32], &[0u8; 12], &[0u8; 16]).unwrap();
    assert_eq!(
        sealed,
        hex("cea7403d4d606b6e074ec5d3baf39d18d0d1c8a799996bf0265b98b5d48ab919")
    );
    let tag_only = seal(&[0u8; 32], &[0u8; 12], &[]).unwrap();
    assert_eq!(tag_only, hex("530f8afbc74536b9a963b4f1c4cb738b"));
}

#[test]
fn seal_then_open_gives_the_plaintext_back() {
    let key = random_key();
    let nonce = random_nonce();
    let sealed = seal(&key, &nonce, b"some bytes").unwrap();
    assert_eq!(sealed.len(), 10 + 16);
    assert_eq!(open(&key, &nonce, &sealed).unwrap(), b"some bytes".to_vec());
}

#[test]
fn open_rejects_a_wrong_key_a_wrong_nonce_and_a_flipped_bit() {
    let sealed = seal(&[1u8; 32], &[2u8; 12], b"some bytes").unwrap();
    assert_eq!(open(&[9u8; 32], &[2u8; 12], &sealed), Err(CoreError::AuthFailure));
    assert_eq!(open(&[1u8; 32], &[9u8; 12], &sealed), Err(CoreError::AuthFailure));
    for i in 0..sealed.len() {
        let mut bad = sealed.clone();
        bad[i] ^= 0x01;
        assert_eq!(open(&[1u8; 32], &[2u8; 12], &bad), Err(CoreError::AuthFailure));
    }
}

#[test]
fn open_rejects_what_is_shorter_than_a_tag() {
    for len in 0..16usize {
        assert_eq!(open(&[1u8; 32], &[2u8; 12], &vec![0u8; len]), Err(CoreError::AuthFailure));
    }
}

#[test]
fn hkdf_matches_the_rfc_5869_vector_without_salt_and_info() {
    let okm = expand(&[0x0b; 22], &[], 42).unwrap();
    assert_eq!(
        okm,
        hex("8da4e775a563c18f715f802a063c5a31b8a11f5c5ee1879ec3454e5f3c738d2d9d201395faa4b61a96c8")
    );
    assert_eq!(securechat_core::primitives::derive(&[0x0b; 22], &[]).unwrap().to_vec(), okm[..32].to_vec());
}

#[test]
fn hkdf_refuses_more_than_255_blocks() {
    assert_eq!(expand(b"ikm", b"info", 8160).unwrap().len(), 8160);
    assert_eq!(expand(b"ikm", b"info", 8161), Err(CoreError::CryptoFailure));
    assert_eq!(expand(b"ikm", b"info", 0).unwrap().len(), 0);
}

#[test]
fn hkdf_labels_separate_outputs() {
    assert_ne!(securechat_core::primitives::derive(b"ikm", b"a").unwrap(), securechat_core::primitives::derive(b"ikm", b"b").unwrap());
    assert_eq!(securechat_core::primitives::derive(b"ikm", b"a").unwrap(), securechat_core::primitives::derive(b"ikm", b"a").unwrap());
}

#[test]
fn password_kdf_is_deterministic_and_depends_on_password_and_salt() {
    let a = derive_from_password("pw", &[1u8; 32]).unwrap();
    assert_eq!(a, derive_from_password("pw", &[1u8; 32]).unwrap());
    assert_ne!(a, derive_from_password("pw", &[2u8; 32]).unwrap());
    assert_ne!(a, derive_from_password("pv", &[1u8; 32]).unwrap());
    assert_ne!(a, [0u8; 32]);
}

#[test]
fn password_kdf_matches_argon2id_with_default_parameters() {
    let mut expected = [0u8; 32];
    argon2::Argon2::default()
        .hash_password_into(b"test_password_123", &[5u8; 32], &mut expected)
        .unwrap();
    assert_eq!(derive_from_password("test_password_123", &[5u8; 32]).unwrap(), expected);
}

#[test]
fn diffie_hellman_matches_the_rfc_7748_vector() {
    let alice_secret = hex("77076d0a7318a57d3c16c17251b26645df4c2f87ebc0992ab177fba51db92c2a");
    let bob_public = hex("de9edb7d7b7dc1b4d35b61c2ece435373f8343c85b78674dadfc7e146f882b4f");
    let shared = dh(&to_key(&alice_secret), &to_key(&bob_public));
    assert_eq!(
        shared.to_vec(),
        hex("4a5d9d5ba4ce2de1728e3bf480350f25e07e21c947d19e3376f09b3c1e161742")
    );
}

#[test]
fn random_values_have_their_lengths_and_differ() {
    assert_eq!(random_bytes(0).len(), 0);
    assert_eq!(random_bytes(16).len(), 16);
    assert_ne!(random_key(), random_key());
    assert_ne!(random_nonce(), random_nonce());
}

#[test]
fn a_hundred_thousand_nonces_do_not_collide() {
    let mut seen = std::collections::HashSet::new();
    for _ in 0..100_000 {
        assert!(seen.insert(random_nonce()));
    }
}

#[test]
fn to_key_and_to_nonce_take_the_leading_bytes() {
    let bytes: Vec<u8> = (0u8..40).collect();
    assert_eq!(to_key(&bytes).to_vec(), bytes[..32].to_vec());
    assert_eq!(to_nonce(&bytes).to_vec(), bytes[..12].to_vec());
}
