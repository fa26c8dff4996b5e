//! The encrypted backup: everything the user exports, sealed under a
//! master key of its own that a password unlocks.
//!
//! Layout, in this order: the length of the master key envelope (4 bytes,
//! most significant first); the envelope; the nonce of the payload (12
//! bytes); the sealed payload.

use vstd::prelude::*;
use crate::crypto::stored_bytes;
use crate::crypto::stored_parts;
use crate::crypto::unseal_key;
use crate::crypto::MasterKey;
use crate::envelope::counter_value;
use crate::envelope::lemma_counter_round_trip;
use crate::error::CoreError;
use crate::primitives::aead_fits;
use crate::primitives::aead_seal;
use crate::primitives::argon2id;
use crate::primitives::open_result;
use crate::primitives::MAX_PASSWORD_LEN;
use crate::ratchet::counter_bytes;

verus! {

/// The bytes of a backup.
pub open spec fn backup_bytes(envelope: Seq<u8>, nonce: Seq<u8>, sealed: Seq<u8>) -> Seq<u8> {
    counter_bytes(envelope.len()) + envelope + nonce + sealed
}

/// The envelope, the nonce and the sealed payload that the bytes of a
/// backup hold, or `None` where they are too short for what their length
/// field announces.
pub open spec fn backup_parts(bytes: Seq<u8>) -> Option<(Seq<u8>, Seq<u8>, Seq<u8>)> {
    if bytes.len() < 4 {
        None
    } else {
        let n = counter_value(bytes.subrange(0, 4)) as int;
        if bytes.len() < 4 + n + 12 {
            None
        } else {
            Some(
                (
                    bytes.subrange(4, 4 + n),
                    bytes.subrange(4 + n, 4 + n + 12),
                    bytes.subrange(4 + n + 12, bytes.len() as int),
                ),
            )
        }
    }
}

/// What a password reads from the bytes of a backup. Bytes that do not
/// have the layout are `CryptoFailure`; an envelope that the password does
/// not unlock is `WrongPassword`; a payload that does not open under the
/// master key is `AuthFailure`.
pub open spec fn backup_opened(password: Seq<char>, bytes: Seq<u8>) -> Result<Seq<u8>, CoreError> {
    match backup_parts(bytes) {
        None => Err(CoreError::CryptoFailure),
        Some((envelope, nonce, sealed)) => match stored_parts(envelope) {
            None => Err(CoreError::CryptoFailure),
            Some((salt, key_nonce, sealed_key)) => match unseal_key(
                argon2id(password, salt),
                key_nonce,
                sealed_key,
                CoreError::WrongPassword,
            ) {
                Err(e) => Err(e),
                Ok(master_key) => open_result(master_key, nonce, sealed),
            },
        },
    }
}

/// The bytes of a backup hold its parts.
pub proof fn lemma_backup_round_trip(envelope: Seq<u8>, nonce: Seq<u8>, sealed: Seq<u8>)
    requires
        envelope.len() <= u32::MAX,
        nonce.len() == 12,
    ensures
        backup_parts(backup_bytes(envelope, nonce, sealed)) == Some((envelope, nonce, sealed)),
{
    let bytes = backup_bytes(envelope, nonce, sealed);
    let n = envelope.len() as int;
    lemma_counter_round_trip(envelope.len());
    assert(bytes.subrange(0, 4) =~= counter_bytes(envelope.len()));
    assert(bytes.subrange(4, 4 + n) =~= envelope);
    assert(bytes.subrange(4 + n, 4 + n + 12) =~= nonce);
    assert(bytes.subrange(4 + n + 12, bytes.len() as int) =~= sealed);
}

/// Seals a payload into a backup with given randomness: a master key
/// envelope made from the password, the salt, the first nonce and the
/// master key, then the payload sealed under the master key with the
/// second nonce. The same password opens the backup to the payload.
pub fn seal_backup_with(
    password: &str,
    data: &[u8],
    salt: [u8; 32],
    key_nonce: [u8; 12],
    master_key: &[u8; 32],
    nonce: [u8; 12],
) -> (r: Result<Vec<u8>, CoreError>)
    ensures
        password@.len() <= MAX_PASSWORD_LEN / 4 && aead_fits(data@.len()) ==> r is Ok,
        r matches Ok(bytes) ==> {
            &&& bytes@ == backup_bytes(
                stored_bytes(
                    salt@,
                    key_nonce@,
                    aead_seal(argon2id(password@, salt@), key_nonce@, master_key@),
                ),
                nonce@,
                aead_seal(master_key@, nonce@, data@),
            )
            &&& backup_opened(password@, bytes@) == Ok::<Seq<u8>, CoreError>(data@)
        },
        r matches Err(e) ==> e == CoreError::CryptoFailure,
{
    let store = MasterKey::seal(password, salt, key_nonce, master_key)?;
    let envelope = store.to_bytes()?;
    let sealed = crate::primitives::seal(master_key, &nonce, data)?;
    let mut out: Vec<u8> = Vec::new();
    crate::envelope::push_counter(&mut out, envelope.len() as u32);
    out.extend_from_slice(envelope.as_slice());
    out.extend_from_slice(nonce.as_slice());
    out.extend_from_slice(sealed.as_slice());
    proof {
        assert(out@ =~= backup_bytes(envelope@, nonce@, sealed@));
        lemma_backup_round_trip(envelope@, nonce@, sealed@);
    }
    Ok(out)
}

/// Seals a payload into a backup under a password, with fresh randomness.
/// The same password opens the backup to the payload.
pub fn seal_backup(password: &str, data: &[u8]) -> (r: Result<Vec<u8>, CoreError>)
    ensures
        password@.len() <= MAX_PASSWORD_LEN / 4 && aead_fits(data@.len()) ==> r is Ok,
        r matches Ok(bytes) ==> backup_opened(password@, bytes@) == Ok::<Seq<u8>, CoreError>(
            data@,
        ),
        r matches Err(e) ==> e == CoreError::CryptoFailure,
{
    let salt = crate::primitives::random_key();
    let key_nonce = crate::primitives::random_nonce();
    let master_key = crate::primitives::random_key();
    let nonce = crate::primitives::random_nonce();
    seal_backup_with(password, data, salt, key_nonce, &master_key, nonce)
}

/// Opens a backup with a password.
pub fn open_backup(password: &str, bytes: &[u8]) -> (r: Result<Vec<u8>, CoreError>)
    ensures
        match r {
            Ok(data) => backup_opened(password@, bytes@) == Ok::<Seq<u8>, CoreError>(data@),
            Err(e) => if e == CoreError::CryptoFailure {
                backup_opened(password@, bytes@) == Err::<Seq<u8>, CoreError>(e) || password@.len()
                    > MAX_PASSWORD_LEN / 4
            } else {
                backup_opened(password@, bytes@) == Err::<Seq<u8>, CoreError>(e)
            },
        },
{
    let total = bytes.len();
    if total < 4 {
        return Err(CoreError::CryptoFailure);
    }
    let n = crate::envelope::read_counter(bytes, 0);
    if ((total - 4) as u64) < (n as u64) + 12 {
        return Err(CoreError::CryptoFailure);
    }
    let n = n as usize;
    let store = MasterKey::from_bytes(vstd::slice::slice_subrange(bytes, 4, 4 + n))?;
    let nonce = crate::envelope::read_12(bytes, 4 + n);
    let master_key = store.unlock(password)?;
    crate::primitives::open(
        &master_key,
        &nonce,
        vstd::slice::slice_subrange(bytes, 4 + n + 12, total),
    )
}

} // verus!
