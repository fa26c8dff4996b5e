use securechat_core::backup::{open_backup, seal_backup, seal_backup_with};
use securechat_core::crypto::MasterKey;
use securechat_core::error::CoreError;
use securechat_core::primitives::seal;
use securechat_core::protocol::{DeviceInfo, LocalMessage, MessageContent, Platform, UserProfile};
use securechat_core::crypto::IdentityKeyPair;
use securechat_core::ChatEvent;

#[test]
fn master_key_envelope_at_rest_is_salt_nonce_length_and_sealed_key() {
    let store = MasterKey::seal("pw", [1u8; 32], [2u8; 12], &[3u8; 32]).unwrap();
    let bytes = store.to_bytes().unwrap();
    assert_eq!(bytes.len(), 32 + 12 + 4 + 48);
    assert_eq!(&bytes[..32], &[1u8; 32]);
    assert_eq!(&bytes[32..44], &[2u8; 12]);
    assert_eq!(&bytes[44..48], &[0, 0, 0, 48]);
    assert_eq!(&bytes[48..], &store.encrypted_key[..]);
    let back = MasterKey::from_bytes(&bytes).unwrap();
    assert_eq!(back.salt, store.salt);
    assert_eq!(back.nonce, store.nonce);
    assert_eq!(back.encrypted_key, store.encrypted_key);
    assert_eq!(back.unlock("pw"), Ok([3u8; 32]));
}

#[test]
fn master_key_envelope_with_a_wrong_length_is_refused() {
    let store = MasterKey::seal("pw", [1u8; 32], [2u8; 12], &[3u8; 32]).unwrap();
    let bytes = store.to_bytes().unwrap();
    assert!(matches!(MasterKey::from_bytes(&bytes[..47]), Err(CoreError::CryptoFailure)));
    assert!(matches!(MasterKey::from_bytes(&bytes[..95]), Err(CoreError::CryptoFailure)));
    assert!(matches!(MasterKey::from_bytes(&[]), Err(CoreError::CryptoFailure)));
    let mut longer = bytes.clone();
    longer.push(0);
    assert!(matches!(MasterKey::from_bytes(&longer), Err(CoreError::CryptoFailure)));
    let empty = MasterKey { encrypted_key: vec![], salt: [0u8; 32], nonce: [0u8; 12] };
    let back = MasterKey::from_bytes(&empty.to_bytes().unwrap()).unwrap();
    assert!(back.encrypted_key.is_empty());
}

#[test]
fn backup_has_the_documented_layout() {
    let bytes =
        seal_backup_with("pw", b"{\"version\":1}", [1u8; 32], [2u8; 12], &[3u8; 32], [4u8; 12])
            .unwrap();
    let store = MasterKey::seal("pw", [1u8; 32], [2u8; 12], &[3u8; 32]).unwrap().to_bytes().unwrap();
    assert_eq!(&bytes[..4], &[0, 0, 0, 96]);
    assert_eq!(&bytes[4..100], &store[..]);
    assert_eq!(&bytes[100..112], &[4u8; 12]);
    assert_eq!(&bytes[112..], &seal(&[3u8; 32], &[4u8; 12], b"{\"version\":1}").unwrap()[..]);
}

#[test]
fn backup_opens_with_its_password_only() {
    let bytes = seal_backup("correct", b"payload").unwrap();
    assert_eq!(open_backup("correct", &bytes), Ok(b"payload".to_vec()));
    assert_eq!(open_backup("wrong", &bytes), Err(CoreError::WrongPassword));
    assert_ne!(bytes, seal_backup("correct", b"payload").unwrap());
}

#[test]
fn damaged_backup_is_refused() {
    let bytes = seal_backup("pw", b"payload").unwrap();
    assert_eq!(open_backup("pw", &[]), Err(CoreError::CryptoFailure));
    assert_eq!(open_backup("pw", &bytes[..3]), Err(CoreError::CryptoFailure));
    assert_eq!(open_backup("pw", &bytes[..111]), Err(CoreError::CryptoFailure));
    assert_eq!(open_backup("pw", &bytes[..112]), Err(CoreError::AuthFailure));
    let mut bad = bytes.clone();
    let last = bad.len() - 1;
    bad[last] ^= 1;
    assert_eq!(open_backup("pw", &bad), Err(CoreError::AuthFailure));
    let mut bad = bytes.clone();
    bad[60] ^= 1;
    assert_eq!(open_backup("pw", &bad), Err(CoreError::WrongPassword));
    let mut bad = bytes.clone();
    bad[3] = 95;
    assert_eq!(open_backup("pw", &bad), Err(CoreError::CryptoFailure));
    let mut bad = bytes;
    bad[0] = 0xff;
    assert_eq!(open_backup("pw", &bad), Err(CoreError::CryptoFailure));
}

#[test]
fn events_have_their_names() {
    let id = || "x".to_string();
    let message = LocalMessage::outgoing_text(id(), id(), id(), 0);
    let cases = vec![
        (ChatEvent::MessageReceived { conversation_id: id(), message }, "message-received"),
        (ChatEvent::MessageSent { conversation_id: id(), message_id: id() }, "message-sent"),
        (ChatEvent::MessageDelivered { conversation_id: id(), message_id: id() }, "message-delivered"),
        (ChatEvent::MessageRead { conversation_id: id(), message_id: id() }, "message-read"),
        (ChatEvent::ContactOnline { contact_id: id() }, "contact-online"),
        (ChatEvent::ContactOffline { contact_id: id() }, "contact-offline"),
        (
            ChatEvent::ContactRequestReceived { contact_id: id(), display_name: id(), message: id() },
            "contact-request",
        ),
        (ChatEvent::SyncCompleted, "sync-completed"),
        (ChatEvent::Error { message: id() }, "error"),
    ];
    for (event, name) in cases {
        assert_eq!(event.event_name(), name);
    }
}

#[test]
fn outgoing_text_is_unsent_and_from_self() {
    let m = LocalMessage::outgoing_text("m1".to_string(), "c1".to_string(), "hi".to_string(), 42);
    assert_eq!(m.id, "m1");
    assert_eq!(m.conversation_id, "c1");
    assert_eq!(m.sender_id, "self");
    assert!(m.is_outgoing);
    assert!(matches!(&m.content, MessageContent::Text { text } if text == "hi"));
    assert_eq!(m.timestamp, 42);
    assert!(!m.sent && !m.delivered && !m.read);
    assert_eq!(m.reply_to, None);
}

#[test]
fn profile_update_replaces_what_is_given_and_keeps_the_rest() {
    let fresh = UserProfile::updated(None, None, None, 7);
    assert_eq!(fresh.display_name, "Anonymous");
    assert_eq!(fresh.status_message, None);
    assert_eq!(fresh.avatar, None);
    assert_eq!(fresh.created_at, 7);
    let named = UserProfile::updated(None, Some("Alice".to_string()), Some("busy".to_string()), 7);
    assert_eq!(named.display_name, "Alice");
    assert_eq!(named.status_message, Some("busy".to_string()));
    let mut old = UserProfile::new("Bob".to_string(), 3);
    old.avatar = Some(vec![1, 2, 3]);
    old.status_message = Some("away".to_string());
    let kept = UserProfile::updated(Some(old.clone()), None, None, 9);
    assert_eq!(kept.display_name, "Bob");
    assert_eq!(kept.status_message, Some("away".to_string()));
    assert_eq!(kept.avatar, Some(vec![1, 2, 3]));
    assert_eq!(kept.created_at, 3);
    let renamed = UserProfile::updated(Some(old), Some("Robert".to_string()), None, 9);
    assert_eq!(renamed.display_name, "Robert");
    assert_eq!(renamed.status_message, Some("away".to_string()));
    assert_eq!(renamed.created_at, 3);
}

#[test]
fn device_is_named_after_the_user() {
    let identity = IdentityKeyPair::generate().encrypt(&[1u8; 32]).unwrap();
    let public_key = identity.public_key;
    let device = DeviceInfo::new("d1".to_string(), "Test User", Platform::Linux, identity, 11);
    assert_eq!(device.device_id, "d1");
    assert_eq!(device.device_name, "Test User's Device");
    assert_eq!(device.platform, Platform::Linux);
    assert_eq!(device.last_seen, 11);
    assert_eq!(device.identity_key.public_key, public_key);
}
