use aes_gcm::aead::{Aead, KeyInit};
use aes_gcm::{Aes256Gcm, Key, Nonce};
use hkdf::Hkdf;
use securechat_core::error::CoreError;
use securechat_core::ratchet::{keys_equal, DoubleRatchet, RatchetMessage, MAX_SKIPPED_KEYS};
use sha2::Sha256;

fn hkdf32(ikm: &[u8], info: &[u8]) -> [u8; 32] {
    let mut out = [0u8; 32];
    Hkdf::<Sha256>::new(None, ikm).expand(info, &mut out).unwrap();
    out
}

fn in_step() -> (DoubleRatchet, DoubleRatchet) {
    let secret = [42u8; 32];
    let mut alice = DoubleRatchet::initialize(&secret);
    let bob = DoubleRatchet::initialize(&secret);
    alice.ratchet_sending(&[1u8; 32]).unwrap();
    (alice, bob)
}

fn five(alice: &mut DoubleRatchet) -> Vec<RatchetMessage> {
    let mut sent = Vec::new();
    for i in 1..=5u8 {
        sent.push(alice.send(format!("message {}", i).as_bytes()).unwrap());
    }
    sent
}

#[test]
fn initial_state_has_the_secret_as_root_and_nothing_else() {
    let r = DoubleRatchet::initialize(&[9u8; 32]);
    assert_eq!(r.root_key, [9u8; 32]);
    assert_eq!(r.sending_chain_key, None);
    assert_eq!(r.receiving_chain_key, None);
    assert_eq!(r.sending_message_number, 0);
    assert_eq!(r.receiving_message_number, 0);
    assert!(r.skipped_message_keys.is_empty());
    assert_eq!(r.local_dh_public, None);
    assert_eq!(r.remote_dh_public, None);
}

#[test]
fn ratchet_step_derives_three_keys_under_three_labels() {
    let root = [7u8; 32];
    let mut r = DoubleRatchet::initialize(&root);
    r.sending_message_number = 5;
    r.receiving_message_number = 6;
    r.ratchet(&[3u8; 32]).unwrap();
    assert_eq!(r.root_key, hkdf32(&root, b"ratchet-root"));
    assert_eq!(r.sending_chain_key, Some(hkdf32(&root, b"ratchet-send")));
    assert_eq!(r.receiving_chain_key, Some(hkdf32(&root, b"ratchet-recv")));
    assert_eq!(r.sending_message_number, 0);
    assert_eq!(r.receiving_message_number, 0);
    assert_eq!(r.remote_dh_public, Some([3u8; 32]));
    assert_ne!(r.root_key, r.sending_chain_key.unwrap());
    assert_ne!(r.sending_chain_key, r.receiving_chain_key);
}

#[test]
fn announcing_step_takes_the_chain_keys_crosswise() {
    let root = [7u8; 32];
    let mut r = DoubleRatchet::initialize(&root);
    r.ratchet_sending(&[4u8; 32]).unwrap();
    assert_eq!(r.root_key, hkdf32(&root, b"ratchet-root"));
    assert_eq!(r.sending_chain_key, Some(hkdf32(&root, b"ratchet-recv")));
    assert_eq!(r.receiving_chain_key, Some(hkdf32(&root, b"ratchet-send")));
    assert_eq!(r.local_dh_public, Some([4u8; 32]));
    assert_eq!(r.remote_dh_public, None);
}

#[test]
fn message_key_and_next_chain_key_follow_the_labels() {
    let (mut alice, _) = in_step();
    let chain = alice.sending_chain_key.unwrap();
    let msg = alice.send_with_nonce([5u8; 12], b"payload").unwrap();
    assert_eq!(msg.counter, 0);
    assert_eq!(msg.dh_public, [1u8; 32]);
    assert_eq!(msg.nonce, [5u8; 12]);
    let key = hkdf32(&chain, &[b'm', b'k', 0, 0, 0, 0]);
    let cipher = Aes256Gcm::new(Key::<Aes256Gcm>::from_slice(&key));
    let expected = cipher.encrypt(Nonce::from_slice(&[5u8; 12]), &b"payload"[..]).unwrap();
    assert_eq!(msg.ciphertext, expected);
    assert_eq!(alice.sending_chain_key, Some(hkdf32(&chain, b"ck")));
    assert_eq!(alice.sending_message_number, 1);
}

#[test]
fn counter_is_encoded_most_significant_byte_first() {
    let (mut alice, _) = in_step();
    alice.sending_message_number = 0x0102_0304;
    let chain = alice.sending_chain_key.unwrap();
    let msg = alice.send_with_nonce([0u8; 12], b"x").unwrap();
    assert_eq!(msg.counter, 0x0102_0304);
    let key = hkdf32(&chain, &[b'm', b'k', 1, 2, 3, 4]);
    let cipher = Aes256Gcm::new(Key::<Aes256Gcm>::from_slice(&key));
    assert_eq!(
        cipher.decrypt(Nonce::from_slice(&[0u8; 12]), &msg.ciphertext[..]).unwrap(),
        b"x".to_vec()
    );
}

#[test]
fn sending_without_a_chain_is_state_missing() {
    let mut r = DoubleRatchet::initialize(&[1u8; 32]);
    assert!(matches!(r.send(b"hello"), Err(CoreError::StateMissing)));
    r.ratchet(&[2u8; 32]).unwrap();
    assert!(matches!(r.send(b"hello"), Err(CoreError::StateMissing)));
    assert_eq!(r.sending_message_number, 0);
}

#[test]
fn sending_at_the_last_counter_is_a_crypto_failure() {
    let (mut alice, _) = in_step();
    alice.sending_message_number = u32::MAX;
    let before = alice.sending_chain_key;
    assert!(matches!(alice.send(b"hello"), Err(CoreError::CryptoFailure)));
    assert_eq!(alice.sending_message_number, u32::MAX);
    assert_eq!(alice.sending_chain_key, before);
}

#[test]
fn send_then_receive_in_step_yields_the_plaintext() {
    let (mut alice, mut bob) = in_step();
    for text in [&b"one"[..], &b""[..], &b"three with more bytes"[..]] {
        let msg = alice.send(text).unwrap();
        assert_eq!(bob.receive(&msg).unwrap(), text.to_vec());
        assert_eq!(bob.receiving_chain_key, alice.sending_chain_key);
        assert_eq!(bob.receiving_message_number, alice.sending_message_number);
    }
}

#[test]
fn ratchet_in_order() {
    let (mut alice, mut bob) = in_step();
    let sent = five(&mut alice);
    for (i, msg) in sent.iter().enumerate() {
        assert_eq!(bob.receive(msg).unwrap(), format!("message {}", i + 1).into_bytes());
    }
    assert_eq!(bob.receiving_message_number, 5);
    assert!(bob.skipped_message_keys.is_empty());
}

#[test]
fn ratchet_out_of_order() {
    let (mut alice, mut bob) = in_step();
    let sent = five(&mut alice);
    let mut peak = 0;
    for &k in &[3usize, 1, 5, 2, 4] {
        assert_eq!(bob.receive(&sent[k - 1]).unwrap(), format!("message {}", k).into_bytes());
        peak = peak.max(bob.skipped_message_keys.len());
    }
    assert!(peak <= 2);
    assert_eq!(peak, 2);
    assert!(bob.skipped_message_keys.is_empty());
    assert_eq!(bob.receiving_message_number, 5);
}

#[test]
fn replay_is_rejected_and_leaves_the_state_unchanged() {
    let (mut alice, mut bob) = in_step();
    let sent = five(&mut alice);
    for &k in &[3usize, 1, 5, 2, 4] {
        bob.receive(&sent[k - 1]).unwrap();
    }
    let root = bob.root_key;
    let chain = bob.receiving_chain_key;
    let sending = bob.sending_chain_key;
    assert_eq!(bob.receive(&sent[1]), Err(CoreError::ReplayOrStale));
    assert_eq!(bob.root_key, root);
    assert_eq!(bob.receiving_chain_key, chain);
    assert_eq!(bob.sending_chain_key, sending);
    assert_eq!(bob.receiving_message_number, 5);
    assert_eq!(bob.sending_message_number, 0);
    assert!(bob.skipped_message_keys.is_empty());
    assert_eq!(bob.remote_dh_public, Some([1u8; 32]));
    for msg in &sent {
        assert_eq!(bob.receive(msg), Err(CoreError::ReplayOrStale));
    }
}

#[test]
fn every_order_of_four_messages_decrypts_each_exactly_once() {
    let orders: [[usize; 4]; 24] = [
        [0, 1, 2, 3], [0, 1, 3, 2], [0, 2, 1, 3], [0, 2, 3, 1], [0, 3, 1, 2], [0, 3, 2, 1],
        [1, 0, 2, 3], [1, 0, 3, 2], [1, 2, 0, 3], [1, 2, 3, 0], [1, 3, 0, 2], [1, 3, 2, 0],
        [2, 0, 1, 3], [2, 0, 3, 1], [2, 1, 0, 3], [2, 1, 3, 0], [2, 3, 0, 1], [2, 3, 1, 0],
        [3, 0, 1, 2], [3, 0, 2, 1], [3, 1, 0, 2], [3, 1, 2, 0], [3, 2, 0, 1], [3, 2, 1, 0],
    ];
    for order in orders.iter() {
        let (mut alice, mut bob) = in_step();
        let mut sent = Vec::new();
        for i in 0..4u8 {
            sent.push(alice.send(&[i; 3]).unwrap());
        }
        for &k in order.iter() {
            assert_eq!(bob.receive(&sent[k]).unwrap(), vec![k as u8; 3]);
            assert_eq!(bob.receive(&sent[k]), Err(CoreError::ReplayOrStale));
        }
        assert!(bob.skipped_message_keys.is_empty());
        assert_eq!(bob.receiving_message_number, 4);
    }
}

#[test]
fn tampered_message_is_an_auth_failure_and_does_not_advance() {
    let (mut alice, mut bob) = in_step();
    let first = alice.send(b"first").unwrap();
    bob.receive(&first).unwrap();
    let _lost = alice.send(b"second").unwrap();
    let mut msg = alice.send(b"third").unwrap();
    msg.ciphertext[0] ^= 1;
    let chain = bob.receiving_chain_key;
    assert_eq!(bob.receive(&msg), Err(CoreError::AuthFailure));
    assert_eq!(bob.receiving_chain_key, chain);
    assert_eq!(bob.receiving_message_number, 1);
    assert!(bob.skipped_message_keys.is_empty());
    msg.ciphertext[0] ^= 1;
    assert_eq!(bob.receive(&msg).unwrap(), b"third".to_vec());
    assert_eq!(bob.skipped_message_keys.len(), 1);
    assert_eq!(bob.skipped_message_keys[0].0, 1);
}

#[test]
fn tampered_first_message_does_not_take_the_ratchet_step() {
    let (mut alice, mut bob) = in_step();
    let mut msg = alice.send(b"hello").unwrap();
    msg.ciphertext.truncate(3);
    assert_eq!(bob.receive(&msg), Err(CoreError::AuthFailure));
    assert_eq!(bob.root_key, [42u8; 32]);
    assert_eq!(bob.receiving_chain_key, None);
    assert_eq!(bob.remote_dh_public, None);
}

#[test]
fn buffered_key_that_does_not_open_stays_buffered() {
    let (mut alice, mut bob) = in_step();
    let first = alice.send(b"first").unwrap();
    let second = alice.send(b"second").unwrap();
    bob.receive(&second).unwrap();
    assert_eq!(bob.skipped_message_keys.len(), 1);
    let mut forged = first.clone();
    forged.ciphertext[2] ^= 0x10;
    assert_eq!(bob.receive(&forged), Err(CoreError::AuthFailure));
    assert_eq!(bob.skipped_message_keys.len(), 1);
    assert_eq!(bob.receive(&first).unwrap(), b"first".to_vec());
    assert!(bob.skipped_message_keys.is_empty());
    assert_eq!(bob.receiving_message_number, 2);
}

#[test]
fn counter_that_cannot_be_advanced_past_is_stale() {
    let (mut alice, mut bob) = in_step();
    let first = alice.send(b"first").unwrap();
    bob.receive(&first).unwrap();
    let mut msg = alice.send(b"second").unwrap();
    msg.counter = u32::MAX;
    assert_eq!(bob.receive(&msg), Err(CoreError::ReplayOrStale));
    assert_eq!(bob.receiving_message_number, 1);
}

#[test]
fn receiving_without_a_chain_is_state_missing() {
    let mut bob = DoubleRatchet::initialize(&[1u8; 32]);
    bob.remote_dh_public = Some([1u8; 32]);
    let msg = RatchetMessage {
        counter: 0,
        dh_public: [1u8; 32],
        nonce: [0u8; 12],
        ciphertext: vec![0u8; 20],
    };
    assert_eq!(bob.receive(&msg), Err(CoreError::StateMissing));
}

#[test]
fn buffer_at_its_cap_drops_the_oldest_entry() {
    let mut r = DoubleRatchet::initialize(&[1u8; 32]);
    for i in 0..MAX_SKIPPED_KEYS as u32 {
        r.store_skipped(i, [(i % 251) as u8; 32]);
    }
    assert_eq!(r.skipped_message_keys.len(), MAX_SKIPPED_KEYS);
    assert_eq!(r.skipped_message_keys[0].0, 0);
    r.store_skipped(5000, [0xee; 32]);
    assert_eq!(r.skipped_message_keys.len(), MAX_SKIPPED_KEYS);
    assert_eq!(r.skipped_message_keys[0], (1, [1u8; 32]));
    assert_eq!(r.skipped_message_keys[MAX_SKIPPED_KEYS - 2], (999, [(999 % 251) as u8; 32]));
    assert_eq!(r.skipped_message_keys[MAX_SKIPPED_KEYS - 1], (5000, [0xee; 32]));
}

#[test]
fn gap_beyond_the_cap_keeps_the_newest_keys() {
    let (mut alice, mut bob) = in_step();
    let mut sent = Vec::new();
    for i in 0..(MAX_SKIPPED_KEYS as u32 + 3) {
        sent.push(alice.send(&i.to_be_bytes()).unwrap());
    }
    let last = sent.len() - 1;
    assert_eq!(bob.receive(&sent[last]).unwrap(), (last as u32).to_be_bytes().to_vec());
    assert_eq!(bob.skipped_message_keys.len(), MAX_SKIPPED_KEYS);
    assert_eq!(bob.skipped_message_keys[0].0, 2);
    assert_eq!(bob.skipped_message_keys[MAX_SKIPPED_KEYS - 1].0, last as u32 - 1);
    assert_eq!(bob.receive(&sent[0]), Err(CoreError::ReplayOrStale));
    assert_eq!(bob.receive(&sent[1]), Err(CoreError::ReplayOrStale));
    assert_eq!(bob.receive(&sent[2]).unwrap(), 2u32.to_be_bytes().to_vec());
}

#[test]
fn both_directions_work_after_one_step_each() {
    let (mut alice, mut bob) = in_step();
    let hello = alice.send(b"hello bob").unwrap();
    assert_eq!(bob.receive(&hello).unwrap(), b"hello bob".to_vec());
    bob.ratchet_sending(&[2u8; 32]).unwrap();
    let reply = bob.send(b"hello alice").unwrap();
    assert_eq!(reply.counter, 0);
    assert_eq!(reply.dh_public, [2u8; 32]);
    assert_eq!(alice.receive(&reply).unwrap(), b"hello alice".to_vec());
    assert_eq!(alice.remote_dh_public, Some([2u8; 32]));
    let next = alice.send(b"again").unwrap();
    assert_eq!(bob.receive(&next).unwrap(), b"again".to_vec());
}

#[test]
fn nonces_of_sent_messages_do_not_repeat() {
    let (mut alice, _) = in_step();
    let mut seen = std::collections::HashSet::new();
    for _ in 0..2000 {
        let msg = alice.send(b"x").unwrap();
        assert!(seen.insert(msg.nonce));
    }
}

#[test]
fn keys_equal_compares_all_bytes() {
    let a = [3u8; 32];
    let mut b = a;
    assert!(keys_equal(&a, &b));
    b[31] = 4;
    assert!(!keys_equal(&a, &b));
    b[31] = 3;
    b[0] = 0;
    assert!(!keys_equal(&a, &b));
}
