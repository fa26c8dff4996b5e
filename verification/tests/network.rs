use securechat_core::error::CoreError;
use securechat_core::network::utils::{generate_contact_qr, parse_contact_qr};
use securechat_core::network::{NetworkCommand, NetworkConfig, NetworkEvent, PeerInfo, PeerManager};
use securechat_core::protocol::{KeyBundle, ProtocolMessage};
use securechat_core::{chat_event_for, ChatEvent};

fn peer(id: &str, trusted: bool) -> PeerInfo {
    PeerInfo {
        peer_id: id.to_string(),
        public_key: [id.len() as u8; 32],
        display_name: None,
        last_seen: 0,
        addresses: vec![],
        trusted,
    }
}

#[test]
fn default_config_listens_on_tcp_and_quic() {
    let config = NetworkConfig::default();
    assert_eq!(
        config.listen_addrs,
        vec!["/ip4/0.0.0.0/tcp/0".to_string(), "/ip4/0.0.0.0/udp/0/quic-v1".to_string()]
    );
    assert!(config.bootstrap_peers.is_empty());
    assert!(config.enable_mdns);
    assert_eq!(config.topic, "securechat-v1");
}

#[test]
fn new_table_knows_nobody() {
    let peers = PeerManager::new();
    assert!(peers.get_peer("a").is_none());
    assert!(peers.get_trusted_peers().is_empty());
}

#[test]
fn added_peer_is_found_by_its_identifier() {
    let mut peers = PeerManager::new();
    peers.add_peer(peer("alice", true));
    peers.add_peer(peer("bob", false));
    assert_eq!(peers.get_peer("alice").unwrap().public_key, [5u8; 32]);
    assert_eq!(peers.get_peer("bob").unwrap().public_key, [3u8; 32]);
    assert!(peers.get_peer("carol").is_none());
    assert!(peers.get_peer("").is_none());
}

#[test]
fn adding_a_known_identifier_replaces_the_entry() {
    let mut peers = PeerManager::new();
    peers.add_peer(peer("alice", false));
    peers.add_peer(peer("bob", true));
    let mut again = peer("alice", true);
    again.display_name = Some("Alice".to_string());
    peers.add_peer(again);
    assert_eq!(peers.get_peer("alice").unwrap().display_name, Some("Alice".to_string()));
    let trusted: Vec<String> =
        peers.get_trusted_peers().iter().map(|p| p.peer_id.clone()).collect();
    assert_eq!(trusted, vec!["alice".to_string(), "bob".to_string()]);
}

#[test]
fn last_seen_is_updated_for_a_known_peer_only() {
    let mut peers = PeerManager::new();
    peers.add_peer(peer("alice", false));
    peers.update_last_seen("alice", 77);
    peers.update_last_seen("nobody", 99);
    assert_eq!(peers.get_peer("alice").unwrap().last_seen, 77);
    assert!(peers.get_peer("nobody").is_none());
}

#[test]
fn trusted_peers_are_listed_in_table_order() {
    let mut peers = PeerManager::new();
    for (id, trusted) in [("a", true), ("b", false), ("c", true), ("d", true), ("e", false)] {
        peers.add_peer(peer(id, trusted));
    }
    let ids: Vec<&str> = peers.get_trusted_peers().iter().map(|p| p.peer_id.as_str()).collect();
    assert_eq!(ids, vec!["a", "c", "d"]);
}

#[test]
fn contact_link_has_the_documented_form() {
    let link = generate_contact_qr(&[0u8; 32], "Alice");
    assert_eq!(
        link,
        "securechat://contact?key=AAAAAAAAAAAAAAAAAAAAAAAAAAAAAAAAAAAAAAAAAAA=&name=Alice"
    );
    let link = generate_contact_qr(&[0xffu8; 32], "A b&c=d/é~");
    assert_eq!(
        link,
        "securechat://contact?key=//////////////////////////////////////////8=&name=A%20b%26c%3Dd%2F%C3%A9~"
    );
}

#[test]
fn contact_link_parses_back_to_name_and_key() {
    for name in ["Alice", "", "A b&c=d/é~", "名前 & 100%", "%41"] {
        let key: [u8; 32] = core::array::from_fn(|i| (i * 7 + 3) as u8);
        let link = generate_contact_qr(&key, name);
        assert!(link.is_ascii());
        assert_eq!(parse_contact_qr(&link), Ok((name.to_string(), key)));
    }
}

#[test]
fn parser_accepts_lower_case_escapes_and_plain_characters() {
    let link = "securechat://contact?key=AAAAAAAAAAAAAAAAAAAAAAAAAAAAAAAAAAAAAAAAAAA=&name=a%2fb c";
    assert_eq!(parse_contact_qr(link), Ok(("a/b c".to_string(), [0u8; 32])));
}

#[test]
fn parser_rejects_unknown_schemes_and_malformed_links() {
    let key = "AAAAAAAAAAAAAAAAAAAAAAAAAAAAAAAAAAAAAAAAAAA=";
    let bad = [
        String::new(),
        "securechat://contact?key=".to_string(),
        format!("https://contact?key={}&name=Alice", key),
        format!("securechat://contacts?key={}&name=Alice", key),
        format!("Securechat://contact?key={}&name=Alice", key),
        format!("securechat://contact?key={}", key),
        format!("securechat://contact?key={}&nam=Alice", key),
        format!("securechat://contact?key={}&name", key),
        format!("securechat://contact?key={}&name=Al%", key),
        format!("securechat://contact?key={}&name=Al%4", key),
        format!("securechat://contact?key={}&name=Al%zz", key),
        format!("securechat://contact?key={}&name=%ff", key),
        format!("securechat://contact?key={}&name=Alicé", key),
        "securechat://contact?key=AAAA&name=Alice".to_string(),
        "securechat://contact?key=&name=Alice".to_string(),
        "securechat://contact?key=AAAAAAAAAAAAAAAAAAAAAAAAAAAAAAAAAAAAAAAAAA*=&name=Alice"
            .to_string(),
        "securechat://contact?key=AAAAAAAAAAAAAAAAAAAAAAAAAAAAAAAAAAAAAAAAAAA&name=Alice"
            .to_string(),
    ];
    for link in bad.iter() {
        assert_eq!(parse_contact_qr(link), Err(CoreError::CryptoFailure), "{}", link);
    }
}

#[test]
fn only_shutdown_stops_the_transport() {
    assert!(NetworkCommand::Shutdown.stops());
    assert!(!NetworkCommand::ConnectPeer { addr: "/ip4/1.2.3.4/tcp/1".to_string() }.stops());
    assert!(!NetworkCommand::DisconnectPeer { peer_id: "p".to_string() }.stops());
    let message = ProtocolMessage::Typing { conversation_id: "c".to_string(), is_typing: true };
    assert!(!NetworkCommand::SendMessage { peer_id: None, message }.stops());
}

#[test]
fn front_end_hears_of_contact_requests_and_of_peers_coming_and_going() {
    let bundle = KeyBundle {
        identity_key: [1u8; 32],
        signed_prekey: [2u8; 32],
        signed_prekey_signature: vec![3u8; 64],
        one_time_prekeys: vec![],
    };
    let request = ProtocolMessage::ContactRequest {
        display_name: "Alice".to_string(),
        message: "hi".to_string(),
        key_bundle: bundle,
    };
    match chat_event_for(NetworkEvent::MessageReceived { peer_id: "peer-a".to_string(), message: request }) {
        Some(ChatEvent::ContactRequestReceived { contact_id, display_name, message }) => {
            assert_eq!(contact_id, "peer-a");
            assert_eq!(display_name, "Alice");
            assert_eq!(message, "hi");
        }
        _ => panic!("expected a contact request"),
    }
    match chat_event_for(NetworkEvent::PeerConnected { peer_id: "peer-b".to_string() }) {
        Some(ChatEvent::ContactOnline { contact_id }) => assert_eq!(contact_id, "peer-b"),
        _ => panic!("expected a contact coming online"),
    }
    match chat_event_for(NetworkEvent::PeerDisconnected { peer_id: "peer-c".to_string() }) {
        Some(ChatEvent::ContactOffline { contact_id }) => assert_eq!(contact_id, "peer-c"),
        _ => panic!("expected a contact going offline"),
    }
    let typing = ProtocolMessage::Typing { conversation_id: "c".to_string(), is_typing: true };
    assert!(chat_event_for(NetworkEvent::MessageReceived { peer_id: "p".to_string(), message: typing }).is_none());
    assert!(chat_event_for(NetworkEvent::Connected).is_none());
    assert!(chat_event_for(NetworkEvent::Disconnected).is_none());
    assert!(chat_event_for(NetworkEvent::PeerDiscovered { peer_id: "p".to_string(), addrs: vec![] }).is_none());
}
