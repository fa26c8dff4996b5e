//! The records that the core keeps and exchanges: contacts, conversations,
//! profiles, devices and the messages of the peer-to-peer protocol.

use vstd::prelude::*;
use vstd::string::StringExecFns;
use vstd::string::StrSliceExecFns;
use crate::crypto::EncryptedIdentityKeys;
use crate::crypto::EncryptedMessage;
use crate::primitives::base64_encode;
use crate::primitives::blake3_hex;
use crate::ratchet::DoubleRatchet;

verus! {

/// A contact. Times are seconds since the Unix epoch, on the caller's
/// clock.
#[derive(Debug, Clone)]
pub struct Contact {
    pub id: String,
    pub display_name: String,
    pub public_key: [u8; 32],
    pub added_at: i64,
    pub last_seen: Option<i64>,
    pub verified: bool,
    pub blocked: bool,
}

/// What a message holds. A position is given in millionths of a degree and
/// its accuracy in millimetres.
#[derive(Debug, Clone)]
pub enum MessageContent {
    Text { text: String },
    Image { data: Vec<u8>, mime_type: String, caption: Option<String> },
    File { data: Vec<u8>, filename: String, mime_type: String },
    Voice { data: Vec<u8>, duration_secs: u32 },
    Location { latitude: i64, longitude: i64, accuracy: Option<u32> },
    Contact { name: String, public_key: [u8; 32] },
}

/// A message on its way: sealed content and what the transport needs.
#[derive(Debug, Clone)]
pub struct MessageEnvelope {
    pub id: String,
    pub sender_id: String,
    pub recipient_id: String,
    pub timestamp: i64,
    pub encrypted_content: EncryptedMessage,
    pub signature: Vec<u8>,
    pub reply_to: Option<String>,
}

/// A message at rest, decrypted.
#[derive(Debug, Clone)]
pub struct LocalMessage {
    pub id: String,
    pub conversation_id: String,
    pub sender_id: String,
    pub is_outgoing: bool,
    pub content: MessageContent,
    pub timestamp: i64,
    pub sent: bool,
    pub delivered: bool,
    pub read: bool,
    pub reply_to: Option<String>,
}

/// A conversation with one contact and the state of its ratchet.
#[derive(Debug, Clone)]
pub struct Conversation {
    pub id: String,
    pub contact_id: String,
    pub created_at: i64,
    pub updated_at: i64,
    pub last_message_preview: Option<String>,
    pub unread_count: u32,
    pub archived: bool,
    pub pinned: bool,
    pub ratchet_state: Option<DoubleRatchet>,
}

/// The user's own profile.
#[derive(Debug, Clone)]
pub struct UserProfile {
    pub display_name: String,
    pub status_message: Option<String>,
    pub avatar: Option<Vec<u8>>,
    pub created_at: i64,
}

/// One of the user's devices.
#[derive(Debug, Clone)]
pub struct DeviceInfo {
    pub device_id: String,
    pub device_name: String,
    pub platform: Platform,
    pub last_seen: i64,
    pub identity_key: EncryptedIdentityKeys,
}

/// The kind of system a device runs.
#[derive(Debug, Clone, Copy, PartialEq, Eq, Structural)]
pub enum Platform {
    Linux,
    Windows,
    Android,
    MacOS,
    IOS,
    Unknown,
}

/// The public keys that a peer offers for session establishment.
#[derive(Debug, Clone)]
pub struct KeyBundle {
    pub identity_key: [u8; 32],
    pub signed_prekey: [u8; 32],
    pub signed_prekey_signature: Vec<u8>,
    pub one_time_prekeys: Vec<[u8; 32]>,
}

/// The messages that peers exchange.
#[derive(Debug, Clone)]
#[allow(inconsistent_fields)]
pub enum ProtocolMessage {
    /// The key bundle of the initial handshake.
    KeyBundle {
        identity_key: [u8; 32],
        signed_prekey: [u8; 32],
        signed_prekey_signature: Vec<u8>,
        one_time_prekeys: Vec<[u8; 32]>,
    },
    /// A sealed message.
    Encrypted { envelope: MessageEnvelope },
    /// A message was delivered.
    DeliveryReceipt { message_id: String, timestamp: i64 },
    /// A message was read.
    ReadReceipt { message_id: String, timestamp: i64 },
    /// The peer is or is not typing.
    Typing { conversation_id: String, is_typing: bool },
    /// The peer changed its profile.
    ProfileUpdate {
        display_name: Option<String>,
        status_message: Option<String>,
        avatar_hash: Option<String>,
    },
    /// A request to become contacts, with the requester's key bundle.
    ContactRequest { display_name: String, message: String, key_bundle: KeyBundle },
    /// The answer to a request, with the key bundle where it was accepted.
    ContactResponse { accepted: bool, key_bundle: Option<KeyBundle> },
    /// Another device of the user asks for its data.
    SyncRequest { device_id: String, nonce: [u8; 32] },
    /// The data for another device of the user.
    SyncData {
        conversations: Vec<Conversation>,
        contacts: Vec<Contact>,
        settings: Vec<(String, String)>,
    },
}

/// The platform that an operating system's name stands for.
pub open spec fn platform_of(os_name: Seq<char>) -> Platform {
    if os_name == "linux"@ {
        Platform::Linux
    } else if os_name == "windows"@ {
        Platform::Windows
    } else if os_name == "android"@ {
        Platform::Android
    } else if os_name == "macos"@ {
        Platform::MacOS
    } else if os_name == "ios"@ {
        Platform::IOS
    } else {
        Platform::Unknown
    }
}

/// Whether a string is the given word.
fn is_word(text: &String, word: &str) -> (r: bool)
    ensures
        r == (text@ == word@),
{
    let other = word.to_owned();
    *text == other
}

/// The platform that an operating system's name stands for: `linux`,
/// `windows`, `android`, `macos` or `ios`; any other name is `Unknown`.
pub fn detect_platform(os_name: &str) -> (platform: Platform)
    ensures
        platform == platform_of(os_name@),
{
    let name = os_name.to_owned();
    if is_word(&name, "linux") {
        Platform::Linux
    } else if is_word(&name, "windows") {
        Platform::Windows
    } else if is_word(&name, "android") {
        Platform::Android
    } else if is_word(&name, "macos") {
        Platform::MacOS
    } else if is_word(&name, "ios") {
        Platform::IOS
    } else {
        Platform::Unknown
    }
}

/// The number of random bytes behind an identifier.
pub const ID_BYTES: usize = 16;

/// A fresh identifier: the base64 of sixteen random bytes.
pub fn generate_id() -> (id: String)
    ensures
        exists|bytes: Seq<u8>| bytes.len() == ID_BYTES && id@ == #[trigger] base64_encode(bytes),
{
    let bytes = crate::primitives::random_bytes(ID_BYTES);
    crate::primitives::base64_encode_standard(bytes.as_slice())
}

/// The length of a fingerprint, in characters.
pub const FINGERPRINT_LEN: usize = 32;

/// The fingerprint of a public key: the first 32 hexadecimal digits of its
/// BLAKE3 hash.
pub open spec fn fingerprint_of(public_key: Seq<u8>) -> Seq<char> {
    blake3_hex(public_key).subrange(0, FINGERPRINT_LEN as int)
}

/// The fingerprint of a public key, for comparison out of band.
pub fn fingerprint(public_key: &[u8; 32]) -> (text: String)
    ensures
        text@ == fingerprint_of(public_key@),
        text@.len() == FINGERPRINT_LEN,
{
    let hex = crate::primitives::blake3_hash_hex(public_key.as_slice());
    let head = hex.as_str().substring_ascii(0, FINGERPRINT_LEN);
    String::from_str(head)
}

impl Contact {
    /// A new contact, added at `now`: not yet seen, verified or blocked.
    pub fn new(id: String, display_name: String, public_key: [u8; 32], now: i64) -> (contact: Self)
        ensures
            contact.id == id,
            contact.display_name == display_name,
            contact.public_key == public_key,
            contact.added_at == now,
            contact.last_seen is None,
            !contact.verified,
            !contact.blocked,
    {
        Contact {
            id,
            display_name,
            public_key,
            added_at: now,
            last_seen: None,
            verified: false,
            blocked: false,
        }
    }

    /// The fingerprint of the contact's public key.
    pub fn fingerprint(&self) -> (text: String)
        ensures
            text@ == fingerprint_of(self.public_key@),
            text@.len() == FINGERPRINT_LEN,
    {
        fingerprint(&self.public_key)
    }
}

impl Conversation {
    /// A new conversation with a contact, created at `now` under a fresh
    /// identifier: nothing read or unread, no ratchet yet.
    pub fn new(contact_id: String, now: i64) -> (conversation: Self)
        ensures
            conversation.contact_id == contact_id,
            conversation.created_at == now,
            conversation.updated_at == now,
            conversation.last_message_preview is None,
            conversation.unread_count == 0,
            !conversation.archived,
            !conversation.pinned,
            conversation.ratchet_state is None,
            exists|bytes: Seq<u8>|
                bytes.len() == ID_BYTES && conversation.id@ == #[trigger] base64_encode(bytes),
    {
        Conversation {
            id: generate_id(),
            contact_id,
            created_at: now,
            updated_at: now,
            last_message_preview: None,
            unread_count: 0,
            archived: false,
            pinned: false,
            ratchet_state: None,
        }
    }
}


/// The most characters of a text that a preview shows.
pub const PREVIEW_LEN: usize = 100;

/// The one-line preview of what a message holds: a text cut to its first
/// hundred characters, with three dots where something was cut; the
/// caption of an image; the name of a file or of a contact; and a fixed
/// word for the rest.
pub open spec fn preview_of(content: MessageContent) -> Seq<char> {
    match content {
        MessageContent::Text { text } => if text@.len() > PREVIEW_LEN {
            text@.subrange(0, PREVIEW_LEN as int) + "..."@
        } else {
            text@
        },
        MessageContent::Image { data, mime_type, caption } => match caption {
            Some(c) => c@,
            None => "\u{1F4F7} Image"@,
        },
        MessageContent::File { data, filename, mime_type } => "\u{1F4CE} "@ + filename@,
        MessageContent::Voice { data, duration_secs } => "\u{1F3A4} Voice message"@,
        MessageContent::Location { latitude, longitude, accuracy } => "\u{1F4CD} Location"@,
        MessageContent::Contact { name, public_key } => "\u{1F464} Contact: "@ + name@,
    }
}

impl LocalMessage {
    /// The one-line preview of the message.
    pub fn preview_text(&self) -> (preview: String)
        ensures
            preview@ == preview_of(self.content),
    {
        match &self.content {
            MessageContent::Text { text } => {
                if text.as_str().unicode_len() > PREVIEW_LEN {
                    String::from_str(text.as_str().substring_char(0, PREVIEW_LEN)).concat("...")
                } else {
                    text.clone()
                }
            },
            MessageContent::Image { data, mime_type, caption } => match caption {
                Some(c) => c.clone(),
                None => String::from_str("\u{1F4F7} Image"),
            },
            MessageContent::File { data, filename, mime_type } => String::from_str(
                "\u{1F4CE} ",
            ).concat(filename.as_str()),
            MessageContent::Voice { data, duration_secs } => String::from_str(
                "\u{1F3A4} Voice message",
            ),
            MessageContent::Location { latitude, longitude, accuracy } => String::from_str(
                "\u{1F4CD} Location",
            ),
            MessageContent::Contact { name, public_key } => String::from_str(
                "\u{1F464} Contact: ",
            ).concat(name.as_str()),
        }
    }

    /// An outgoing text message, written at `now` and not yet sent.
    pub fn outgoing_text(id: String, conversation_id: String, text: String, now: i64) -> (message:
        Self)
        ensures
            message.id == id,
            message.conversation_id == conversation_id,
            message.sender_id@ == "self"@,
            message.is_outgoing,
            message.content == (MessageContent::Text { text }),
            message.timestamp == now,
            !message.sent,
            !message.delivered,
            !message.read,
            message.reply_to is None,
    {
        LocalMessage {
            id,
            conversation_id,
            sender_id: String::from_str("self"),
            is_outgoing: true,
            content: MessageContent::Text { text },
            timestamp: now,
            sent: false,
            delivered: false,
            read: false,
            reply_to: None,
        }
    }
}

impl UserProfile {
    /// A profile with a display name, created at `now`.
    pub fn new(display_name: String, now: i64) -> (profile: Self)
        ensures
            profile.display_name == display_name,
            profile.status_message is None,
            profile.avatar is None,
            profile.created_at == now,
    {
        UserProfile { display_name, status_message: None, avatar: None, created_at: now }
    }

    /// The profile after an update. Where there is no profile yet, one
    /// named `Anonymous` is created at `now` first. A given display name
    /// and a given status message replace the old ones; what is not given
    /// stays.
    pub fn updated(
        current: Option<UserProfile>,
        display_name: Option<String>,
        status_message: Option<String>,
        now: i64,
    ) -> (profile: Self)
        ensures
            match display_name {
                Some(name) => profile.display_name == name,
                None => match current {
                    Some(old) => profile.display_name == old.display_name,
                    None => profile.display_name@ == "Anonymous"@,
                },
            },
            match status_message {
                Some(status) => profile.status_message == Some(status),
                None => match current {
                    Some(old) => profile.status_message == old.status_message,
                    None => profile.status_message is None,
                },
            },
            match current {
                Some(old) => profile.avatar == old.avatar && profile.created_at == old.created_at,
                None => profile.avatar is None && profile.created_at == now,
            },
    {
        let mut profile = match current {
            Some(old) => old,
            None => UserProfile::new(String::from_str("Anonymous"), now),
        };
        match display_name {
            Some(name) => {
                profile.display_name = name;
            },
            None => {},
        }
        match status_message {
            Some(status) => {
                profile.status_message = Some(status);
            },
            None => {},
        }
        profile
    }
}

impl DeviceInfo {
    /// The record of the user's own device: named after the user, seen at
    /// `now`, with the sealed identity.
    pub fn new(
        device_id: String,
        display_name: &str,
        platform: Platform,
        identity_key: EncryptedIdentityKeys,
        now: i64,
    ) -> (device: Self)
        ensures
            device.device_id == device_id,
            device.device_name@ == display_name@ + "'s Device"@,
            device.platform == platform,
            device.last_seen == now,
            device.identity_key == identity_key,
    {
        DeviceInfo {
            device_id,
            device_name: String::from_str(display_name).concat("'s Device"),
            platform,
            last_seen: now,
            identity_key,
        }
    }
}

} // verus!
