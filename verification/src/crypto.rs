//! The key hierarchy and at-rest sealing: a password unseals the master key,
//! the master key unseals the identity key pair, and session key pairs seal
//! single messages for a peer.

use vstd::prelude::*;
pub use crate::primitives::hash_password;
pub use crate::primitives::verify_password;
pub use crate::ratchet::DoubleRatchet;
use crate::envelope::counter_value;
use crate::envelope::lemma_counter_round_trip;
use crate::error::CoreError;
use crate::primitives::aead_fits;
use crate::primitives::aead_seal;
use crate::primitives::argon2id;
use crate::primitives::derive_key;
use crate::primitives::ed25519_public;
use crate::primitives::ed25519_sign;
use crate::primitives::ed25519_verify;
use crate::primitives::open_result;
use crate::primitives::x25519;
use crate::primitives::x25519_public;
use crate::primitives::MAX_PASSWORD_LEN;
use crate::primitives::TAG_LEN;
use crate::ratchet::counter_bytes;

verus! {

/// The master key sealed under a key derived from the password.
#[derive(Debug, Clone)]
pub struct MasterKey {
    /// The 32-byte master key, sealed: 48 bytes.
    pub encrypted_key: Vec<u8>,
    /// The salt of the password KDF.
    pub salt: [u8; 32],
    /// The nonce the master key was sealed with.
    pub nonce: [u8; 12],
}

/// The identity key pair sealed under the master key, with the public half
/// in clear.
#[derive(Debug, Clone)]
pub struct EncryptedIdentityKeys {
    /// The Ed25519 public key.
    pub public_key: [u8; 32],
    /// The 32-byte secret key, sealed: 48 bytes.
    pub encrypted_secret: Vec<u8>,
    /// The nonce the secret was sealed with.
    pub nonce: [u8; 12],
}

/// A long-term Ed25519 key pair. The secret half lives in memory only.
#[derive(Clone)]
pub struct IdentityKeyPair {
    public_key: [u8; 32],
    secret_key: [u8; 32],
}

/// An X25519 key pair used for session establishment.
#[derive(Clone)]
pub struct MessageKeyPair {
    public_key: [u8; 32],
    secret_key: [u8; 32],
}

/// One message sealed for a peer.
#[derive(Debug, Clone)]
pub struct EncryptedMessage {
    /// The ciphertext followed by its tag.
    pub ciphertext: Vec<u8>,
    /// The AEAD nonce.
    pub nonce: [u8; 12],
    /// The sender's session public key.
    pub sender_pubkey: [u8; 32],
    /// The ephemeral public key made for this message.
    pub ephemeral_pubkey: [u8; 32],
}

/// A 32-byte secret recovered from a sealed blob: the plaintext where it
/// opens to exactly 32 bytes, and `failure` otherwise.
pub open spec fn unseal_key(key: Seq<u8>, nonce: Seq<u8>, sealed: Seq<u8>, failure: CoreError) -> Result<
    Seq<u8>,
    CoreError,
> {
    match open_result(key, nonce, sealed) {
        Ok(p) => if p.len() == 32 {
            Ok(p)
        } else {
            Err(failure)
        },
        Err(_) => Err(failure),
    }
}

/// Opens a sealed 32-byte secret.
fn open_key(key: &[u8; 32], nonce: &[u8; 12], sealed: &Vec<u8>, failure: CoreError) -> (r: Result<
    [u8; 32],
    CoreError,
>)
    ensures
        match r {
            Ok(k) => unseal_key(key@, nonce@, sealed@, failure) == Ok::<Seq<u8>, CoreError>(k@),
            Err(e) => unseal_key(key@, nonce@, sealed@, failure) == Err::<Seq<u8>, CoreError>(e),
        },
{
    match crate::primitives::open(key, nonce, sealed.as_slice()) {
        Ok(plain) => {
            if plain.len() == 32 {
                let k = crate::primitives::to_key(&plain);
                assert(plain@.subrange(0, 32) =~= plain@);
                Ok(k)
            } else {
                Err(failure)
            }
        },
        Err(_) => Err(failure),
    }
}

impl MasterKey {
    /// What unlocking with a password yields: the master key, or
    /// `WrongPassword` where the envelope does not open to 32 bytes under
    /// the key that the password derives.
    pub open spec fn unlocked(self, password: Seq<char>) -> Result<Seq<u8>, CoreError> {
        unseal_key(
            argon2id(password, self.salt@),
            self.nonce@,
            self.encrypted_key@,
            CoreError::WrongPassword,
        )
    }

    /// Seals `master_key` under the key that Argon2id derives from
    /// `password` and `salt`. The envelope keeps the salt and the nonce, and
    /// unlocks to `master_key` with the same password.
    pub fn seal(password: &str, salt: [u8; 32], nonce: [u8; 12], master_key: &[u8; 32]) -> (r:
        Result<MasterKey, CoreError>)
        ensures
            password@.len() <= MAX_PASSWORD_LEN / 4 ==> r is Ok,
            r matches Ok(env) ==> {
                &&& env.salt == salt
                &&& env.nonce == nonce
                &&& env.encrypted_key@ == aead_seal(
                    argon2id(password@, salt@),
                    nonce@,
                    master_key@,
                )
                &&& env.encrypted_key@.len() == 32 + TAG_LEN
                &&& env.unlocked(password@) == Ok::<Seq<u8>, CoreError>(master_key@)
            },
            r matches Err(e) ==> e == CoreError::CryptoFailure,
    {
        let derived = crate::primitives::derive_from_password(password, &salt)?;
        let encrypted_key = crate::primitives::seal(&derived, &nonce, master_key.as_slice())?;
        Ok(MasterKey { encrypted_key, salt, nonce })
    }

    /// Creates the envelope of a new account: draws a salt, a nonce and a
    /// master key at random and seals the master key under the password.
    /// Returns the envelope and the master key; the envelope unlocks to that
    /// key with the same password.
    pub fn from_password(password: &str) -> (r: Result<(MasterKey, [u8; 32]), CoreError>)
        ensures
            password@.len() <= MAX_PASSWORD_LEN / 4 ==> r is Ok,
            r matches Ok(pair) ==> {
                &&& pair.0.unlocked(password@) == Ok::<Seq<u8>, CoreError>(pair.1@)
                &&& pair.0.encrypted_key@ == aead_seal(
                    argon2id(password@, pair.0.salt@),
                    pair.0.nonce@,
                    pair.1@,
                )
                &&& pair.0.encrypted_key@.len() == 32 + TAG_LEN
            },
            r matches Err(e) ==> e == CoreError::CryptoFailure,
    {
        let salt = Self::generate_random_bytes();
        let nonce = crate::primitives::random_nonce();
        let master_key = Self::generate_random_bytes();
        match Self::seal(password, salt, nonce, &master_key) {
            Ok(env) => Ok((env, master_key)),
            Err(e) => Err(e),
        }
    }

    /// Unlocks the master key with a password. Any failure to open the
    /// envelope is `WrongPassword`; `CryptoFailure` comes only where the
    /// password KDF refuses a password that is too long.
    pub fn unlock(&self, password: &str) -> (r: Result<[u8; 32], CoreError>)
        ensures
            match r {
                Ok(k) => self.unlocked(password@) == Ok::<Seq<u8>, CoreError>(k@),
                Err(e) => if e == CoreError::CryptoFailure {
                    password@.len() > MAX_PASSWORD_LEN / 4
                } else {
                    e == CoreError::WrongPassword && self.unlocked(password@) is Err
                },
            },
    {
        let derived = match crate::primitives::derive_from_password(password, &self.salt) {
            Ok(k) => k,
            Err(_) => {
                return Err(CoreError::CryptoFailure);
            },
        };
        open_key(&derived, &self.nonce, &self.encrypted_key, CoreError::WrongPassword)
    }

    /// Thirty-two bytes from the operating system's random source.
    pub fn generate_random_bytes() -> (bytes: [u8; 32]) {
        crate::primitives::random_key()
    }

    /// The bytes of the envelope at rest: the salt, the nonce, the length
    /// of the sealed key as four bytes, most significant first, and the
    /// sealed key. Fails with `CryptoFailure` exactly where that length
    /// does not fit four bytes. The bytes parse back to this envelope.
    pub fn to_bytes(&self) -> (r: Result<Vec<u8>, CoreError>)
        ensures
            r is Ok <==> self.encrypted_key@.len() <= u32::MAX,
            r matches Ok(bytes) ==> bytes@ == stored_bytes(
                self.salt@,
                self.nonce@,
                self.encrypted_key@,
            ) && stored_parts(bytes@) == Some((self.salt@, self.nonce@, self.encrypted_key@)),
            r matches Err(e) ==> e == CoreError::CryptoFailure,
    {
        if self.encrypted_key.len() > u32::MAX as usize {
            return Err(CoreError::CryptoFailure);
        }
        let mut out: Vec<u8> = Vec::new();
        out.extend_from_slice(self.salt.as_slice());
        out.extend_from_slice(self.nonce.as_slice());
        crate::envelope::push_counter(&mut out, self.encrypted_key.len() as u32);
        out.extend_from_slice(self.encrypted_key.as_slice());
        proof {
            lemma_stored_round_trip(self.salt@, self.nonce@, self.encrypted_key@);
        }
        Ok(out)
    }

    /// Parses the bytes of an envelope at rest. Bytes that are shorter
    /// than the fixed part, or whose length field does not match what
    /// follows it, are `CryptoFailure`.
    pub fn from_bytes(bytes: &[u8]) -> (r: Result<MasterKey, CoreError>)
        ensures
            match r {
                Ok(env) => stored_parts(bytes@) == Some(
                    (env.salt@, env.nonce@, env.encrypted_key@),
                ),
                Err(e) => e == CoreError::CryptoFailure && stored_parts(bytes@) is None,
            },
    {
        let total = bytes.len();
        if total < STORED_HEAD_LEN {
            return Err(CoreError::CryptoFailure);
        }
        let length = crate::envelope::read_counter(bytes, 44);
        if (total - STORED_HEAD_LEN) as u64 != length as u64 {
            return Err(CoreError::CryptoFailure);
        }
        Ok(
            MasterKey {
                encrypted_key: crate::envelope::read_bytes(
                    bytes,
                    STORED_HEAD_LEN,
                    total - STORED_HEAD_LEN,
                ),
                salt: crate::envelope::read_32(bytes, 0),
                nonce: crate::envelope::read_12(bytes, 32),
            },
        )
    }
}

/// The length of what precedes the sealed key in an envelope at rest.
pub const STORED_HEAD_LEN: usize = 48;

/// The bytes of a master key envelope at rest.
pub open spec fn stored_bytes(salt: Seq<u8>, nonce: Seq<u8>, sealed: Seq<u8>) -> Seq<u8> {
    salt + nonce + counter_bytes(sealed.len()) + sealed
}

/// The salt, the nonce and the sealed key that bytes at rest hold, or
/// `None` where they are too short or their length field does not match.
pub open spec fn stored_parts(bytes: Seq<u8>) -> Option<(Seq<u8>, Seq<u8>, Seq<u8>)> {
    if bytes.len() >= STORED_HEAD_LEN && counter_value(bytes.subrange(44, 48)) == bytes.len()
        - STORED_HEAD_LEN {
        Some(
            (
                bytes.subrange(0, 32),
                bytes.subrange(32, 44),
                bytes.subrange(STORED_HEAD_LEN as int, bytes.len() as int),
            ),
        )
    } else {
        None
    }
}

/// The bytes of an envelope hold its parts.
pub proof fn lemma_stored_round_trip(salt: Seq<u8>, nonce: Seq<u8>, sealed: Seq<u8>)
    requires
        salt.len() == 32,
        nonce.len() == 12,
        sealed.len() <= u32::MAX,
    ensures
        stored_parts(stored_bytes(salt, nonce, sealed)) == Some((salt, nonce, sealed)),
{
    let bytes = stored_bytes(salt, nonce, sealed);
    lemma_counter_round_trip(sealed.len());
    assert(bytes.subrange(44, 48) =~= counter_bytes(sealed.len()));
    assert(bytes.subrange(0, 32) =~= salt);
    assert(bytes.subrange(32, 44) =~= nonce);
    assert(bytes.subrange(STORED_HEAD_LEN as int, bytes.len() as int) =~= sealed);
}


impl EncryptedIdentityKeys {
    /// What unsealing with a master key yields: the 32-byte identity secret,
    /// or `AuthFailure` where the blob does not open to 32 bytes.
    pub open spec fn unsealed(self, master_key: Seq<u8>) -> Result<Seq<u8>, CoreError> {
        unseal_key(master_key, self.nonce@, self.encrypted_secret@, CoreError::AuthFailure)
    }
}

impl IdentityKeyPair {
    /// The secret half.
    pub closed spec fn secret(self) -> Seq<u8> {
        self.secret_key@
    }

    /// The public half.
    pub closed spec fn public(self) -> Seq<u8> {
        self.public_key@
    }

    /// The public half is the one that belongs to the secret half.
    pub open spec fn wf(self) -> bool {
        self.public() == ed25519_public(self.secret())
    }

    /// The public half, as 32 raw bytes.
    pub fn public_key(&self) -> (public: [u8; 32])
        ensures
            public@ == self.public(),
    {
        self.public_key
    }

    /// The key pair of a given 32-byte secret.
    pub fn from_secret(secret: [u8; 32]) -> (pair: Self)
        ensures
            pair.wf(),
            pair.secret() == secret@,
    {
        let public_key = crate::primitives::ed25519_public_of(&secret);
        IdentityKeyPair { public_key, secret_key: secret }
    }

    /// Generates a new identity key pair from the operating system's random
    /// source.
    pub fn generate() -> (pair: Self)
        ensures
            pair.wf(),
    {
        Self::from_secret(crate::primitives::ed25519_generate())
    }

    /// Signs a message with the secret half.
    pub fn sign(&self, message: &[u8]) -> (signature: [u8; 64])
        ensures
            signature@ == ed25519_sign(self.secret(), message@),
    {
        crate::primitives::ed25519_sign_with(&self.secret_key, message)
    }

    /// Verifies a signature strictly: `Ok` exactly where the signature is
    /// accepted for the message under the public key, `AuthFailure`
    /// otherwise.
    pub fn verify(public_key: &[u8; 32], message: &[u8], signature: &[u8; 64]) -> (r: Result<
        (),
        CoreError,
    >)
        ensures
            r is Ok <==> ed25519_verify(public_key@, message@, signature@),
            r matches Err(e) ==> e == CoreError::AuthFailure,
    {
        if crate::primitives::ed25519_verify_strict(public_key, message, signature) {
            Ok(())
        } else {
            Err(CoreError::AuthFailure)
        }
    }

    /// Seals the secret half under the master key with the given nonce. The
    /// public half goes along in clear; unsealing with the same master key
    /// gives the secret back, and the public key that belongs to it is the
    /// stored one.
    pub fn encrypt_with_nonce(&self, master_key: &[u8; 32], nonce: [u8; 12]) -> (r: Result<
        EncryptedIdentityKeys,
        CoreError,
    >)
        ensures
            r matches Ok(sealed) && {
                &&& sealed.public_key@ == self.public()
                &&& sealed.nonce == nonce
                &&& sealed.encrypted_secret@ == aead_seal(master_key@, nonce@, self.secret())
                &&& sealed.encrypted_secret@.len() == 32 + TAG_LEN
                &&& sealed.unsealed(master_key@) == Ok::<Seq<u8>, CoreError>(self.secret())
                &&& self.wf() ==> ed25519_public(sealed.unsealed(master_key@).unwrap())
                    == sealed.public_key@
            },
    {
        let encrypted_secret = crate::primitives::seal(
            master_key,
            &nonce,
            self.secret_key.as_slice(),
        )?;
        Ok(EncryptedIdentityKeys { public_key: self.public_key, encrypted_secret, nonce })
    }

    /// Seals the secret half under the master key with a fresh random nonce.
    pub fn encrypt(&self, master_key: &[u8; 32]) -> (r: Result<EncryptedIdentityKeys, CoreError>)
        ensures
            r matches Ok(sealed) && {
                &&& sealed.public_key@ == self.public()
                &&& sealed.encrypted_secret@ == aead_seal(
                    master_key@,
                    sealed.nonce@,
                    self.secret(),
                )
                &&& sealed.unsealed(master_key@) == Ok::<Seq<u8>, CoreError>(self.secret())
                &&& self.wf() ==> ed25519_public(sealed.unsealed(master_key@).unwrap())
                    == sealed.public_key@
            },
    {
        let nonce = crate::primitives::random_nonce();
        self.encrypt_with_nonce(master_key, nonce)
    }

    /// Unseals an identity with the master key and derives its public half
    /// anew. A blob that does not open to 32 bytes is `AuthFailure`.
    pub fn decrypt(encrypted: &EncryptedIdentityKeys, master_key: &[u8; 32]) -> (r: Result<
        Self,
        CoreError,
    >)
        ensures
            match r {
                Ok(pair) => encrypted.unsealed(master_key@) == Ok::<Seq<u8>, CoreError>(
                    pair.secret(),
                ) && pair.wf(),
                Err(e) => e == CoreError::AuthFailure && encrypted.unsealed(master_key@) is Err,
            },
    {
        let secret = open_key(
            master_key,
            &encrypted.nonce,
            &encrypted.encrypted_secret,
            CoreError::AuthFailure,
        )?;
        Ok(Self::from_secret(secret))
    }
}

/// The label under which a session secret is derived: the ASCII bytes of
/// `SecureChat-v1`, the protocol's version marker.
pub open spec fn session_label() -> Seq<u8> {
    seq![0x53u8, 0x65, 0x63, 0x75, 0x72, 0x65, 0x43, 0x68, 0x61, 0x74, 0x2d, 0x76, 0x31]
}

/// The session secret derived from two Diffie-Hellman outputs, in this
/// order.
pub open spec fn session_secret(dh1: Seq<u8>, dh2: Seq<u8>) -> Seq<u8> {
    derive_key(dh1 + dh2, session_label())
}

/// The secret under which a sender with session secret `local` and
/// ephemeral secret `ephemeral` seals for the holder of `remote_public`.
pub open spec fn sending_secret(local: Seq<u8>, ephemeral: Seq<u8>, remote_public: Seq<u8>) -> Seq<
    u8,
> {
    session_secret(x25519(local, remote_public), x25519(ephemeral, remote_public))
}

/// The secret under which the holder of `local` opens what came from
/// `sender_public` with `ephemeral_public`.
pub open spec fn receiving_secret(
    local: Seq<u8>,
    sender_public: Seq<u8>,
    ephemeral_public: Seq<u8>,
) -> Seq<u8> {
    session_secret(x25519(local, sender_public), x25519(local, ephemeral_public))
}

/// Derives the session secret from two Diffie-Hellman outputs.
fn derive_session_secret(dh1: &[u8; 32], dh2: &[u8; 32]) -> (r: Result<[u8; 32], CoreError>)
    ensures
        r matches Ok(secret) && secret@ == session_secret(dh1@, dh2@),
{
    let mut ikm: Vec<u8> = Vec::with_capacity(64);
    ikm.extend_from_slice(dh1.as_slice());
    ikm.extend_from_slice(dh2.as_slice());
    assert(ikm@ =~= dh1@ + dh2@);
    let label: [u8; 13] = [
        0x53,
        0x65,
        0x63,
        0x75,
        0x72,
        0x65,
        0x43,
        0x68,
        0x61,
        0x74,
        0x2d,
        0x76,
        0x31,
    ];
    assert(label@ =~= session_label());
    crate::primitives::derive(ikm.as_slice(), label.as_slice())
}

impl EncryptedMessage {
    /// What the holder of the session secret `local` reads from this
    /// message: the plaintext, or `AuthFailure` where it was tampered with
    /// or sealed for somebody else.
    pub open spec fn opened_by(self, local: Seq<u8>) -> Result<Seq<u8>, CoreError> {
        open_result(
            receiving_secret(local, self.sender_pubkey@, self.ephemeral_pubkey@),
            self.nonce@,
            self.ciphertext@,
        )
    }
}

impl MessageKeyPair {
    /// The secret half.
    pub closed spec fn secret(self) -> Seq<u8> {
        self.secret_key@
    }

    /// The public half.
    pub closed spec fn public(self) -> Seq<u8> {
        self.public_key@
    }

    /// The public half is the one that belongs to the secret half.
    pub open spec fn wf(self) -> bool {
        self.public() == x25519_public(self.secret())
    }

    /// The public half, as 32 raw bytes.
    pub fn public_key(&self) -> (public: [u8; 32])
        ensures
            public@ == self.public(),
    {
        self.public_key
    }

    /// The key pair of a given 32-byte secret.
    pub fn from_secret(secret: [u8; 32]) -> (pair: Self)
        ensures
            pair.wf(),
            pair.secret() == secret@,
    {
        let public_key = crate::primitives::x25519_public_of(&secret);
        MessageKeyPair { public_key, secret_key: secret }
    }

    /// Generates a new session key pair from the operating system's random
    /// source.
    pub fn generate() -> (pair: Self)
        ensures
            pair.wf(),
    {
        Self::from_secret(crate::primitives::x25519_generate())
    }

    /// Session establishment on the sending side: the shared secret of
    /// this pair and an ephemeral secret with the holder of
    /// `recipient_pubkey`. The recipient derives the same secret from its
    /// own secret, this pair's public key and the ephemeral public key.
    pub fn establish_sending(&self, recipient_pubkey: &[u8; 32], ephemeral_secret: &[u8; 32]) -> (r:
        Result<[u8; 32], CoreError>)
        ensures
            r matches Ok(shared) && {
                &&& shared@ == sending_secret(self.secret(), ephemeral_secret@, recipient_pubkey@)
                &&& forall|peer: Seq<u8>|
                    self.wf() && #[trigger] x25519_public(peer) == recipient_pubkey@ ==> shared@
                        == receiving_secret(peer, self.public(), x25519_public(ephemeral_secret@))
            },
    {
        let dh1 = crate::primitives::dh(&self.secret_key, recipient_pubkey);
        let dh2 = crate::primitives::dh(ephemeral_secret, recipient_pubkey);
        derive_session_secret(&dh1, &dh2)
    }

    /// Session establishment on the receiving side: the shared secret of
    /// this pair with a sender's session public key and ephemeral public
    /// key.
    pub fn establish_receiving(&self, sender_pubkey: &[u8; 32], ephemeral_pubkey: &[u8; 32]) -> (r:
        Result<[u8; 32], CoreError>)
        ensures
            r matches Ok(shared) && shared@ == receiving_secret(
                self.secret(),
                sender_pubkey@,
                ephemeral_pubkey@,
            ),
    {
        let dh1 = crate::primitives::dh(&self.secret_key, sender_pubkey);
        let dh2 = crate::primitives::dh(&self.secret_key, ephemeral_pubkey);
        derive_session_secret(&dh1, &dh2)
    }

    /// Seals a message for the holder of `recipient_pubkey` with a given
    /// ephemeral secret and nonce. The session secret is derived from the
    /// two Diffie-Hellman outputs, long-term first and ephemeral second.
    /// Fails with `CryptoFailure` only where the message is longer than the
    /// cipher accepts. Whoever holds the secret behind `recipient_pubkey`
    /// opens the result to the message.
    pub fn encrypt_message_with(
        &self,
        recipient_pubkey: &[u8; 32],
        message: &[u8],
        ephemeral_secret: &[u8; 32],
        nonce: [u8; 12],
    ) -> (r: Result<EncryptedMessage, CoreError>)
        ensures
            r is Ok <==> aead_fits(message@.len()),
            r matches Ok(sealed) ==> {
                &&& sealed.nonce == nonce
                &&& sealed.sender_pubkey@ == self.public()
                &&& sealed.ephemeral_pubkey@ == x25519_public(ephemeral_secret@)
                &&& sealed.ciphertext@ == aead_seal(
                    sending_secret(self.secret(), ephemeral_secret@, recipient_pubkey@),
                    nonce@,
                    message@,
                )
                &&& sealed.ciphertext@.len() == message@.len() + TAG_LEN
                &&& forall|peer: Seq<u8>|
                    self.wf() && #[trigger] x25519_public(peer) == recipient_pubkey@
                        ==> sealed.opened_by(peer) == Ok::<Seq<u8>, CoreError>(message@)
            },
            r matches Err(e) ==> e == CoreError::CryptoFailure,
    {
        let ephemeral_pubkey = crate::primitives::x25519_public_of(ephemeral_secret);
        let shared = self.establish_sending(recipient_pubkey, ephemeral_secret)?;
        let ciphertext = crate::primitives::seal(&shared, &nonce, message)?;
        Ok(
            EncryptedMessage {
                ciphertext,
                nonce,
                sender_pubkey: self.public_key,
                ephemeral_pubkey,
            },
        )
    }

    /// Seals a message for the holder of `recipient_pubkey`, with a fresh
    /// ephemeral key pair and a fresh random nonce.
    pub fn encrypt_message(&self, recipient_pubkey: &[u8; 32], message: &[u8]) -> (r: Result<
        EncryptedMessage,
        CoreError,
    >)
        ensures
            r is Ok <==> aead_fits(message@.len()),
            r matches Ok(sealed) ==> {
                &&& sealed.sender_pubkey@ == self.public()
                &&& sealed.ciphertext@.len() == message@.len() + TAG_LEN
                &&& forall|peer: Seq<u8>|
                    self.wf() && #[trigger] x25519_public(peer) == recipient_pubkey@
                        ==> sealed.opened_by(peer) == Ok::<Seq<u8>, CoreError>(message@)
            },
            r matches Err(e) ==> e == CoreError::CryptoFailure,
    {
        let ephemeral_secret = crate::primitives::x25519_generate();
        let nonce = crate::primitives::random_nonce();
        self.encrypt_message_with(recipient_pubkey, message, &ephemeral_secret, nonce)
    }

    /// Opens a message with this pair's secret: the dual of sealing. A
    /// ciphertext shorter than a tag is rejected before any decryption; a
    /// message that was tampered with or sealed for another key is
    /// `AuthFailure`.
    pub fn decrypt_message(&self, encrypted: &EncryptedMessage) -> (r: Result<Vec<u8>, CoreError>)
        ensures
            match r {
                Ok(plain) => encrypted.opened_by(self.secret()) == Ok::<Seq<u8>, CoreError>(
                    plain@,
                ),
                Err(e) => e == CoreError::AuthFailure && encrypted.opened_by(self.secret())
                    is Err,
            },
            encrypted.ciphertext@.len() < TAG_LEN ==> r is Err,
    {
        if encrypted.ciphertext.len() < TAG_LEN {
            return Err(CoreError::AuthFailure);
        }
        let shared = match self.establish_receiving(
            &encrypted.sender_pubkey,
            &encrypted.ephemeral_pubkey,
        ) {
            Ok(s) => s,
            Err(_) => {
                return Err(CoreError::AuthFailure);
            },
        };
        crate::primitives::open(&shared, &encrypted.nonce, encrypted.ciphertext.as_slice())
    }
}

} // verus!
