//! What the core hands to the record store: sealed blobs under readable
//! keys. The store itself is a collaborator and sees no cleartext.
//!
//! A sealed entry is 16 reserved bytes, then the 12-byte nonce, then the
//! ciphertext with its tag. The reserved bytes are drawn at random when an
//! entry is sealed and are not read when it is opened.

use vstd::prelude::*;
use vstd::slice::slice_subrange;
use vstd::string::StringExecFns;
use crate::error::CoreError;
use crate::primitives::aead_fits;
use crate::primitives::aead_seal;
use crate::primitives::open_result;

verus! {

/// The number of reserved bytes at the head of a sealed entry.
pub const RESERVED_LEN: usize = 16;

/// The length of what precedes the ciphertext in a sealed entry.
pub const ENTRY_HEAD_LEN: usize = 28;

/// What opening a sealed entry yields: `CryptoFailure` where the entry is
/// shorter than its head, else what the ciphertext opens to under the
/// nonce that the entry carries.
pub open spec fn entry_opened(master_key: Seq<u8>, entry: Seq<u8>) -> Result<Seq<u8>, CoreError> {
    if entry.len() < ENTRY_HEAD_LEN {
        Err(CoreError::CryptoFailure)
    } else {
        open_result(
            master_key,
            entry.subrange(RESERVED_LEN as int, ENTRY_HEAD_LEN as int),
            entry.subrange(ENTRY_HEAD_LEN as int, entry.len() as int),
        )
    }
}

/// Seals a record under the master key with the given reserved bytes and
/// nonce. Fails with `CryptoFailure` only where the record is longer than
/// the cipher accepts. The entry opens to the record under the same key.
pub fn encrypt_with(master_key: &[u8; 32], reserved: &[u8; 16], nonce: &[u8; 12], data: &[u8]) -> (r:
    Result<Vec<u8>, CoreError>)
    ensures
        r is Ok <==> aead_fits(data@.len()),
        r matches Ok(entry) ==> {
            &&& entry@ == reserved@ + nonce@ + aead_seal(master_key@, nonce@, data@)
            &&& entry@.len() == ENTRY_HEAD_LEN + data@.len() + 16
            &&& entry_opened(master_key@, entry@) == Ok::<Seq<u8>, CoreError>(data@)
        },
        r matches Err(e) ==> e == CoreError::CryptoFailure,
{
    let sealed = crate::primitives::seal(master_key, nonce, data)?;
    let mut entry: Vec<u8> = Vec::new();
    entry.extend_from_slice(reserved.as_slice());
    entry.extend_from_slice(nonce.as_slice());
    entry.extend_from_slice(sealed.as_slice());
    proof {
        assert(entry@ =~= reserved@ + nonce@ + sealed@);
        assert(entry@.subrange(RESERVED_LEN as int, ENTRY_HEAD_LEN as int) =~= nonce@);
        assert(entry@.subrange(ENTRY_HEAD_LEN as int, entry@.len() as int) =~= sealed@);
    }
    Ok(entry)
}

/// Seals a record under the master key with fresh random reserved bytes
/// and a fresh random nonce.
pub fn encrypt(master_key: &[u8; 32], data: &[u8]) -> (r: Result<Vec<u8>, CoreError>)
    ensures
        r is Ok <==> aead_fits(data@.len()),
        r matches Ok(entry) ==> {
            &&& entry@.len() == ENTRY_HEAD_LEN + data@.len() + 16
            &&& entry_opened(master_key@, entry@) == Ok::<Seq<u8>, CoreError>(data@)
        },
        r matches Err(e) ==> e == CoreError::CryptoFailure,
{
    let random = crate::primitives::random_bytes(RESERVED_LEN);
    let mut reserved = [0u8; 16];
    let mut i: usize = 0;
    while i < RESERVED_LEN
        invariant
            i <= RESERVED_LEN,
            random@.len() == RESERVED_LEN,
        decreases RESERVED_LEN - i,
    {
        reserved[i] = random[i];
        i += 1;
    }
    let nonce = crate::primitives::random_nonce();
    encrypt_with(master_key, &reserved, &nonce, data)
}

/// Opens a sealed entry with the master key. An entry shorter than its
/// head is `CryptoFailure`; one that does not authenticate is
/// `AuthFailure`. The reserved bytes are not read.
pub fn decrypt(master_key: &[u8; 32], entry: &[u8]) -> (r: Result<Vec<u8>, CoreError>)
    ensures
        match r {
            Ok(data) => entry_opened(master_key@, entry@) == Ok::<Seq<u8>, CoreError>(data@),
            Err(e) => entry_opened(master_key@, entry@) == Err::<Seq<u8>, CoreError>(e),
        },
{
    if entry.len() < ENTRY_HEAD_LEN {
        return Err(CoreError::CryptoFailure);
    }
    let nonce = crate::primitives::to_nonce(slice_subrange(entry, RESERVED_LEN, ENTRY_HEAD_LEN));
    assert(entry@.subrange(RESERVED_LEN as int, ENTRY_HEAD_LEN as int).subrange(0, 12)
        =~= entry@.subrange(RESERVED_LEN as int, ENTRY_HEAD_LEN as int));
    crate::primitives::open(&master_key, &nonce, slice_subrange(entry, ENTRY_HEAD_LEN, entry.len()))
}

/// The key of the sealed master key.
pub fn master_key_key() -> (key: String)
    ensures
        key@ == "mk:"@,
{
    String::from_str("mk:")
}

/// The key of the user's own identity.
pub fn identity_key() -> (key: String)
    ensures
        key@ == "id:"@ + "self"@,
{
    String::from_str("id:").concat("self")
}

/// The key of a contact.
pub fn contact_key(id: &str) -> (key: String)
    ensures
        key@ == "ct:"@ + id@,
{
    String::from_str("ct:").concat(id)
}

/// The key of a conversation.
pub fn conversation_key(id: &str) -> (key: String)
    ensures
        key@ == "cv:"@ + id@,
{
    String::from_str("cv:").concat(id)
}

/// The prefix of the keys of a conversation's messages.
pub fn message_prefix(conversation_id: &str) -> (key: String)
    ensures
        key@ == "msg:"@ + conversation_id@ + "/"@,
{
    String::from_str("msg:").concat(conversation_id).concat("/")
}

/// The key of a message in a conversation.
pub fn message_key(conversation_id: &str, message_id: &str) -> (key: String)
    ensures
        key@ == "msg:"@ + conversation_id@ + "/"@ + message_id@,
{
    message_prefix(conversation_id).concat(message_id)
}

/// The key of the user's own profile.
pub fn profile_key() -> (key: String)
    ensures
        key@ == "pf:"@ + "self"@,
{
    String::from_str("pf:").concat("self")
}

/// The key of a device.
pub fn device_key(device_id: &str) -> (key: String)
    ensures
        key@ == "dv:"@ + device_id@,
{
    String::from_str("dv:").concat(device_id)
}

/// The key of a setting.
pub fn setting_key(name: &str) -> (key: String)
    ensures
        key@ == "st:"@ + name@,
{
    String::from_str("st:").concat(name)
}

} // verus!
