//! Cryptographic and protocol core of a peer-to-peer end-to-end encrypted
//! messenger: the at-rest key hierarchy, session establishment, the Double
//! Ratchet, and the signed message envelope.

use vstd::prelude::*;

pub mod error;
pub mod primitives;
pub mod crypto;
pub mod ratchet;
pub mod delivery;
pub mod envelope;
pub mod storage;
pub mod backup;
pub mod records;
pub mod network;
pub mod protocol;

pub use crate::primitives::hash_password;
pub use crate::primitives::verify_password;
use crate::network::NetworkEvent;
use crate::protocol::LocalMessage;
use crate::protocol::ProtocolMessage;

verus! {

/// What the front end is told.
#[derive(Debug, Clone)]
#[allow(inconsistent_fields)]
pub enum ChatEvent {
    MessageReceived { conversation_id: String, message: LocalMessage },
    MessageSent { conversation_id: String, message_id: String },
    MessageDelivered { conversation_id: String, message_id: String },
    MessageRead { conversation_id: String, message_id: String },
    ContactOnline { contact_id: String },
    ContactOffline { contact_id: String },
    ContactRequestReceived { contact_id: String, display_name: String, message: String },
    SyncCompleted,
    Error { message: String },
}

impl ChatEvent {
    /// The name under which the front end hears of an event.
    pub open spec fn spec_event_name(self) -> Seq<char> {
        match self {
            ChatEvent::MessageReceived { .. } => "message-received"@,
            ChatEvent::MessageSent { .. } => "message-sent"@,
            ChatEvent::MessageDelivered { .. } => "message-delivered"@,
            ChatEvent::MessageRead { .. } => "message-read"@,
            ChatEvent::ContactOnline { .. } => "contact-online"@,
            ChatEvent::ContactOffline { .. } => "contact-offline"@,
            ChatEvent::ContactRequestReceived { .. } => "contact-request"@,
            ChatEvent::SyncCompleted => "sync-completed"@,
            ChatEvent::Error { .. } => "error"@,
        }
    }

    /// The name under which the front end hears of an event.
    pub fn event_name(&self) -> (name: &'static str)
        ensures
            name@ == self.spec_event_name(),
    {
        match self {
            ChatEvent::MessageReceived { .. } => "message-received",
            ChatEvent::MessageSent { .. } => "message-sent",
            ChatEvent::MessageDelivered { .. } => "message-delivered",
            ChatEvent::MessageRead { .. } => "message-read",
            ChatEvent::ContactOnline { .. } => "contact-online",
            ChatEvent::ContactOffline { .. } => "contact-offline",
            ChatEvent::ContactRequestReceived { .. } => "contact-request",
            ChatEvent::SyncCompleted => "sync-completed",
            ChatEvent::Error { .. } => "error",
        }
    }
}

/// What the front end is told of an event of the transport, if anything: a
/// contact request that arrived, and a peer that came or went. Every other
/// event is of no concern to it.
pub open spec fn chat_event_of(event: NetworkEvent) -> Option<ChatEvent> {
    match event {
        NetworkEvent::MessageReceived {
            peer_id,
            message: ProtocolMessage::ContactRequest { display_name, message, key_bundle },
        } => Some(ChatEvent::ContactRequestReceived { contact_id: peer_id, display_name, message }),
        NetworkEvent::PeerConnected { peer_id } => Some(
            ChatEvent::ContactOnline { contact_id: peer_id },
        ),
        NetworkEvent::PeerDisconnected { peer_id } => Some(
            ChatEvent::ContactOffline { contact_id: peer_id },
        ),
        _ => None,
    }
}

/// Turns an event of the transport into what the front end is told.
pub fn chat_event_for(event: NetworkEvent) -> (r: Option<ChatEvent>)
    ensures
        r == chat_event_of(event),
{
    match event {
        NetworkEvent::MessageReceived { peer_id, message } => match message {
            ProtocolMessage::ContactRequest { display_name, message, key_bundle } => Some(
                ChatEvent::ContactRequestReceived { contact_id: peer_id, display_name, message },
            ),
            _ => None,
        },
        NetworkEvent::PeerConnected { peer_id } => Some(
            ChatEvent::ContactOnline { contact_id: peer_id },
        ),
        NetworkEvent::PeerDisconnected { peer_id } => Some(
            ChatEvent::ContactOffline { contact_id: peer_id },
        ),
        _ => None,
    }
}

} // verus!
