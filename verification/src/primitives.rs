//! The primitives layer: AEAD, password KDF, HKDF, signatures, Diffie-Hellman
//! and randomness. No policy, only operations.
//!
//! Each primitive is computed by an established implementation. What such a
//! call returns is given a name here, and the small functions that make the
//! calls state their results over those names; nothing in this file proves
//! anything about the primitives themselves.

use vstd::prelude::*;
use aes_gcm::aead::Aead;
use aes_gcm::aead::KeyInit;
use aes_gcm::aead::AeadCore;
use aes_gcm::Aes256Gcm;
use argon2::password_hash::PasswordHasher;
use argon2::password_hash::PasswordVerifier;
use base64::Engine;
use ed25519_dalek::Signer;
use rand::RngCore;
use crate::error::CoreError;

verus! {

/// Length in bytes of every symmetric key, chain key and shared secret.
pub const KEY_LEN: usize = 32;

/// Length in bytes of an AEAD nonce.
pub const NONCE_LEN: usize = 12;

/// Length in bytes of the authentication tag that AEAD appends.
pub const TAG_LEN: usize = 16;

/// The longest plaintext, in bytes, that AES-256-GCM accepts.
pub const AEAD_MAX_PLAINTEXT: u64 = 0x10_0000_0000;

/// The longest output, in bytes, that HKDF-SHA-256 can expand to.
pub const HKDF_MAX_OUTPUT: usize = 8160;

/// The error that the AEAD implementation reports.
#[verifier::external_type_specification]
#[verifier::external_body]
pub struct ExAeadError(aes_gcm::aead::Error);

/// The ciphertext followed by the tag that AES-256-GCM produces for a
/// plaintext under a key and a nonce, with no associated data.
pub uninterp spec fn aead_seal(key: Seq<u8>, nonce: Seq<u8>, plaintext: Seq<u8>) -> Seq<u8>;

/// The plaintext that AES-256-GCM recovers from a ciphertext with its tag
/// under a key and a nonce, or `None` where the tag does not match.
pub uninterp spec fn aead_open(key: Seq<u8>, nonce: Seq<u8>, sealed: Seq<u8>) -> Option<Seq<u8>>;

/// Whether a plaintext of this length can be sealed on this machine.
pub open spec fn aead_fits(len: nat) -> bool {
    len <= AEAD_MAX_PLAINTEXT && len + TAG_LEN <= isize::MAX
}

/// Calls `Aes256Gcm::encrypt`. The contract claims that a plaintext within
/// the cipher's length limit is always sealed, that the output is the named
/// ciphertext, sixteen bytes longer than the plaintext, and that opening it
/// under the same key and nonce recovers the plaintext.
#[verifier::external_body]
fn aes_gcm_encrypt(key: &[u8; 32], nonce: &[u8; 12], plaintext: &[u8]) -> (r: Result<
    Vec<u8>,
    aes_gcm::aead::Error,
>)
    requires
        plaintext@.len() + TAG_LEN <= isize::MAX,
    ensures
        plaintext@.len() <= AEAD_MAX_PLAINTEXT ==> r is Ok,
        r matches Ok(c) ==> {
            &&& c@ == aead_seal(key@, nonce@, plaintext@)
            &&& c@.len() == plaintext@.len() + TAG_LEN
            &&& aead_open(key@, nonce@, c@) == Some(plaintext@)
        },
{
    let cipher = Aes256Gcm::new(aes_gcm::Key::<Aes256Gcm>::from_slice(key));
    cipher.encrypt(aes_gcm::Nonce::from_slice(nonce), plaintext)
}

/// Calls `Aes256Gcm::decrypt`. The contract claims that the call succeeds
/// exactly where the named opening exists and then returns it, that an input
/// shorter than the tag is refused, and that what comes out is sixteen bytes
/// shorter than what went in.
#[verifier::external_body]
fn aes_gcm_decrypt(key: &[u8; 32], nonce: &[u8; 12], sealed: &[u8]) -> (r: Result<
    Vec<u8>,
    aes_gcm::aead::Error,
>)
    ensures
        r is Ok <==> aead_open(key@, nonce@, sealed@) is Some,
        r matches Ok(p) ==> {
            &&& Some(p@) == aead_open(key@, nonce@, sealed@)
            &&& p@.len() + TAG_LEN == sealed@.len()
        },
        sealed@.len() < TAG_LEN ==> r is Err,
{
    let cipher = Aes256Gcm::new(aes_gcm::Key::<Aes256Gcm>::from_slice(key));
    cipher.decrypt(aes_gcm::Nonce::from_slice(nonce), sealed)
}

/// What sealing returns: the named ciphertext where the plaintext fits, and
/// `CryptoFailure` where it does not.
pub open spec fn seal_result(key: Seq<u8>, nonce: Seq<u8>, plaintext: Seq<u8>) -> Result<
    Seq<u8>,
    CoreError,
> {
    if aead_fits(plaintext.len()) {
        Ok(aead_seal(key, nonce, plaintext))
    } else {
        Err(CoreError::CryptoFailure)
    }
}

/// What opening returns: the named plaintext, or `AuthFailure` where the
/// input is shorter than a tag or the tag does not match.
pub open spec fn open_result(key: Seq<u8>, nonce: Seq<u8>, sealed: Seq<u8>) -> Result<
    Seq<u8>,
    CoreError,
> {
    if sealed.len() < TAG_LEN {
        Err(CoreError::AuthFailure)
    } else {
        match aead_open(key, nonce, sealed) {
            Some(p) => Ok(p),
            None => Err(CoreError::AuthFailure),
        }
    }
}

/// AEAD seal: encrypts and authenticates `plaintext` under a 32-byte key and
/// a 12-byte nonce. Fails with `CryptoFailure` only where the plaintext is
/// longer than the cipher accepts. What is returned opens to `plaintext`
/// under the same key and nonce.
pub fn seal(key: &[u8; 32], nonce: &[u8; 12], plaintext: &[u8]) -> (r: Result<Vec<u8>, CoreError>)
    ensures
        r is Ok <==> aead_fits(plaintext@.len()),
        r matches Ok(c) ==> {
            &&& Ok::<Seq<u8>, CoreError>(c@) == seal_result(key@, nonce@, plaintext@)
            &&& c@.len() == plaintext@.len() + TAG_LEN
            &&& open_result(key@, nonce@, c@) == Ok::<Seq<u8>, CoreError>(plaintext@)
        },
        r matches Err(e) ==> e == CoreError::CryptoFailure,
{
    let len = plaintext.len();
    if len > isize::MAX as usize - TAG_LEN || len as u64 > AEAD_MAX_PLAINTEXT {
        return Err(CoreError::CryptoFailure);
    }
    match aes_gcm_encrypt(key, nonce, plaintext) {
        Ok(c) => Ok(c),
        Err(_) => Err(CoreError::CryptoFailure),
    }
}

/// AEAD open: verifies the tag of `sealed` and decrypts it. An input shorter
/// than a tag is rejected before any decryption is attempted; a tag mismatch
/// is `AuthFailure`.
pub fn open(key: &[u8; 32], nonce: &[u8; 12], sealed: &[u8]) -> (r: Result<Vec<u8>, CoreError>)
    ensures
        match r {
            Ok(p) => open_result(key@, nonce@, sealed@) == Ok::<Seq<u8>, CoreError>(p@) && p@.len()
                + TAG_LEN == sealed@.len(),
            Err(e) => open_result(key@, nonce@, sealed@) == Err::<Seq<u8>, CoreError>(e),
        },
{
    if sealed.len() < TAG_LEN {
        return Err(CoreError::AuthFailure);
    }
    match aes_gcm_decrypt(key, nonce, sealed) {
        Ok(p) => Ok(p),
        Err(_) => Err(CoreError::AuthFailure),
    }
}


/// The bytes that HKDF-SHA-256 with no salt expands to from input keying
/// material and a domain-separation label.
pub uninterp spec fn hkdf_expand(ikm: Seq<u8>, info: Seq<u8>, out_len: nat) -> Seq<u8>;

/// Calls `Hkdf::<Sha256>::new` without a salt and then `expand`. The
/// contract claims that a length of at most 255 hash blocks is always
/// served, with the named output of that length.
#[verifier::external_body]
fn hkdf_sha256_expand(ikm: &[u8], info: &[u8], out_len: usize) -> (r: Option<Vec<u8>>)
    requires
        out_len <= HKDF_MAX_OUTPUT,
    ensures
        r is Some,
        r matches Some(okm) ==> okm@ == hkdf_expand(ikm@, info@, out_len as nat) && okm@.len()
            == out_len,
{
    let hk = hkdf::Hkdf::<sha2::Sha256>::new(None, ikm);
    let mut okm = vec![0u8; out_len];
    match hk.expand(info, &mut okm) {
        Ok(()) => Some(okm),
        Err(_) => None,
    }
}

/// HKDF expand: derives `out_len` bytes from `ikm` under the label `info`.
/// Fails with `CryptoFailure` only where the length is more than HKDF can
/// produce.
pub fn expand(ikm: &[u8], info: &[u8], out_len: usize) -> (r: Result<Vec<u8>, CoreError>)
    ensures
        r is Ok <==> out_len <= HKDF_MAX_OUTPUT,
        r matches Ok(okm) ==> okm@ == hkdf_expand(ikm@, info@, out_len as nat) && okm@.len()
            == out_len,
        r matches Err(e) ==> e == CoreError::CryptoFailure,
{
    if out_len > HKDF_MAX_OUTPUT {
        return Err(CoreError::CryptoFailure);
    }
    match hkdf_sha256_expand(ikm, info, out_len) {
        Some(okm) => Ok(okm),
        None => Err(CoreError::CryptoFailure),
    }
}

/// The 32-byte key that a label derives from input keying material.
pub open spec fn derive_key(ikm: Seq<u8>, info: Seq<u8>) -> Seq<u8> {
    hkdf_expand(ikm, info, KEY_LEN as nat)
}

/// The first 32 bytes of a byte string, as an array.
pub fn to_key(bytes: &Vec<u8>) -> (key: [u8; 32])
    requires
        bytes@.len() >= 32,
    ensures
        key@ == bytes@.subrange(0, 32),
{
    let mut key = [0u8; 32];
    let mut i: usize = 0;
    while i < 32
        invariant
            i <= 32,
            bytes@.len() >= 32,
            forall|j: int| 0 <= j < i ==> key@[j] == bytes@[j],
        decreases 32 - i,
    {
        key[i] = bytes[i];
        i += 1;
    }
    assert(key@ =~= bytes@.subrange(0, 32));
    key
}

/// The first 12 bytes of a byte string, as an array.
pub fn to_nonce(bytes: &[u8]) -> (nonce: [u8; 12])
    requires
        bytes@.len() >= 12,
    ensures
        nonce@ == bytes@.subrange(0, 12),
{
    let mut nonce = [0u8; 12];
    let mut i: usize = 0;
    while i < 12
        invariant
            i <= 12,
            bytes@.len() >= 12,
            forall|j: int| 0 <= j < i ==> nonce@[j] == bytes@[j],
        decreases 12 - i,
    {
        nonce[i] = bytes[i];
        i += 1;
    }
    assert(nonce@ =~= bytes@.subrange(0, 12));
    nonce
}

/// Derives one 32-byte key from `ikm` under the label `info`.
pub fn derive(ikm: &[u8], info: &[u8]) -> (r: Result<[u8; 32], CoreError>)
    ensures
        r matches Ok(key) && key@ == derive_key(ikm@, info@),
{
    match hkdf_sha256_expand(ikm, info, KEY_LEN) {
        Some(okm) => {
            let key = to_key(&okm);
            assert(okm@.subrange(0, 32) =~= okm@);
            Ok(key)
        },
        None => Err(CoreError::CryptoFailure),
    }
}

/// The 32 bytes that Argon2id with the default parameters derives from a
/// password and a salt.
pub uninterp spec fn argon2id(password: Seq<char>, salt: Seq<u8>) -> Seq<u8>;

/// The longest password, in bytes, that Argon2 accepts.
pub const MAX_PASSWORD_LEN: u64 = 0xFFFF_FFFF;

/// Calls `SaltString::encode_b64` and `Argon2::default().hash_password`. The
/// contract claims that a password within Argon2's length limit is always
/// hashed, and that the 32 bytes returned are the named output.
#[verifier::external_body]
fn argon2id_hash(password: &str, salt: &[u8; 32]) -> (r: Option<[u8; 32]>)
    ensures
        password@.len() <= MAX_PASSWORD_LEN / 4 ==> r is Some,
        r matches Some(key) ==> key@ == argon2id(password@, salt@),
{
    let salt_string = argon2::password_hash::SaltString::encode_b64(salt).ok()?;
    let hashed = argon2::Argon2::default().hash_password(password.as_bytes(), &salt_string).ok()?;
    let output = hashed.hash?;
    let mut key = [0u8; 32];
    key.copy_from_slice(output.as_bytes().get(..32)?);
    Some(key)
}

/// Password KDF: derives a 32-byte key from a password and a 32-byte salt
/// with Argon2id. Fails with `CryptoFailure` where the implementation
/// refuses the password.
pub fn derive_from_password(password: &str, salt: &[u8; 32]) -> (r: Result<[u8; 32], CoreError>)
    ensures
        password@.len() <= MAX_PASSWORD_LEN / 4 ==> r is Ok,
        r matches Ok(key) ==> key@ == argon2id(password@, salt@),
        r matches Err(e) ==> e == CoreError::CryptoFailure,
{
    match argon2id_hash(password, salt) {
        Some(key) => Ok(key),
        None => Err(CoreError::CryptoFailure),
    }
}

/// Whether Argon2 accepts a password hash in the PHC string format for a
/// password; `None` where the string is not a well-formed hash.
pub uninterp spec fn phc_verify(password: Seq<char>, hash: Seq<char>) -> Option<bool>;

/// Calls `SaltString::generate` and `Argon2::default().hash_password`, and
/// formats the result as a PHC string. The salt is random, so the contract
/// claims only that a password within Argon2's length limit is always
/// hashed, and that the password verifies against what is returned.
#[verifier::external_body]
fn argon2_phc_hash(password: &str) -> (r: Option<String>)
    ensures
        password@.len() <= MAX_PASSWORD_LEN / 4 ==> r is Some,
        r matches Some(hash) ==> phc_verify(password@, hash@) == Some(true),
{
    let salt = argon2::password_hash::SaltString::generate(&mut rand::rngs::OsRng);
    let hashed = argon2::Argon2::default().hash_password(password.as_bytes(), &salt).ok()?;
    Some(hashed.to_string())
}

/// Calls `PasswordHash::new` and `Argon2::default().verify_password`. The
/// contract claims that the result is the named outcome.
#[verifier::external_body]
fn argon2_phc_verify(password: &str, hash: &str) -> (r: Option<bool>)
    ensures
        r == phc_verify(password@, hash@),
{
    let parsed = argon2::password_hash::PasswordHash::new(hash).ok()?;
    Some(argon2::Argon2::default().verify_password(password.as_bytes(), &parsed).is_ok())
}

/// Hashes a password for storage, with a fresh random salt, as a PHC string.
/// The password verifies against the string that is returned.
pub fn hash_password(password: &str) -> (r: Result<String, CoreError>)
    ensures
        password@.len() <= MAX_PASSWORD_LEN / 4 ==> r is Ok,
        r matches Ok(hash) ==> phc_verify(password@, hash@) == Some(true),
        r matches Err(e) ==> e == CoreError::CryptoFailure,
{
    match argon2_phc_hash(password) {
        Some(hash) => Ok(hash),
        None => Err(CoreError::CryptoFailure),
    }
}

/// Verifies a password against a PHC string. A string that is not a
/// well-formed hash is `CryptoFailure`; otherwise the answer says whether
/// the password matches.
pub fn verify_password(password: &str, hash: &str) -> (r: Result<bool, CoreError>)
    ensures
        match phc_verify(password@, hash@) {
            Some(b) => r == Ok::<bool, CoreError>(b),
            None => r == Err::<bool, CoreError>(CoreError::CryptoFailure),
        },
{
    match argon2_phc_verify(password, hash) {
        Some(b) => Ok(b),
        None => Err(CoreError::CryptoFailure),
    }
}

/// Calls `OsRng.fill_bytes` on a buffer of the given length. The bytes are
/// random, so the contract claims only their number.
#[verifier::external_body]
fn os_random(len: usize) -> (bytes: Vec<u8>)
    requires
        len <= isize::MAX,
    ensures
        bytes@.len() == len,
{
    let mut bytes = vec![0u8; len];
    rand::rngs::OsRng.fill_bytes(&mut bytes);
    bytes
}

/// `len` bytes from the operating system's random source.
pub fn random_bytes(len: usize) -> (bytes: Vec<u8>)
    requires
        len <= isize::MAX,
    ensures
        bytes@.len() == len,
{
    os_random(len)
}

/// Thirty-two bytes from the operating system's random source.
pub fn random_key() -> (key: [u8; 32]) {
    let bytes = os_random(32);
    to_key(&bytes)
}

/// Calls `Aes256Gcm::generate_nonce` with `OsRng`. The nonce is random, so
/// the contract claims nothing of it.
#[verifier::external_body]
fn aes_gcm_generate_nonce() -> (nonce: [u8; 12]) {
    Aes256Gcm::generate_nonce(rand::rngs::OsRng).into()
}

/// A fresh 12-byte AEAD nonce from the operating system's random source.
pub fn random_nonce() -> (nonce: [u8; 12]) {
    aes_gcm_generate_nonce()
}

/// The Ed25519 public key that belongs to a 32-byte secret key.
pub uninterp spec fn ed25519_public(secret: Seq<u8>) -> Seq<u8>;

/// The Ed25519 signature of a message under a 32-byte secret key.
pub uninterp spec fn ed25519_sign(secret: Seq<u8>, message: Seq<u8>) -> Seq<u8>;

/// Whether strict Ed25519 verification accepts a signature of a message
/// under a 32-byte public key.
pub uninterp spec fn ed25519_verify(public: Seq<u8>, message: Seq<u8>, signature: Seq<u8>) -> bool;

/// Calls `SigningKey::generate` with `OsRng`. The key is random, so the
/// contract claims nothing of it.
#[verifier::external_body]
pub(crate) fn ed25519_generate() -> (secret: [u8; 32]) {
    ed25519_dalek::SigningKey::generate(&mut rand::rngs::OsRng).to_bytes()
}

/// Calls `SigningKey::from_bytes` and `verifying_key`. The contract claims
/// that the bytes returned are the named public key.
#[verifier::external_body]
pub(crate) fn ed25519_public_of(secret: &[u8; 32]) -> (public: [u8; 32])
    ensures
        public@ == ed25519_public(secret@),
{
    ed25519_dalek::SigningKey::from_bytes(secret).verifying_key().to_bytes()
}

/// Calls `SigningKey::sign`. The contract claims that the 64 bytes returned
/// are the named signature.
#[verifier::external_body]
pub(crate) fn ed25519_sign_with(secret: &[u8; 32], message: &[u8]) -> (signature: [u8; 64])
    ensures
        signature@ == ed25519_sign(secret@, message@),
{
    ed25519_dalek::SigningKey::from_bytes(secret).sign(message).to_bytes()
}

/// Calls `VerifyingKey::from_bytes` and `verify_strict`; bytes that are no
/// public key count as a failed verification. The contract claims that the
/// answer is the named outcome.
#[verifier::external_body]
pub(crate) fn ed25519_verify_strict(public: &[u8; 32], message: &[u8], signature: &[u8; 64]) -> (ok:
    bool)
    ensures
        ok == ed25519_verify(public@, message@, signature@),
{
    let sig = ed25519_dalek::Signature::from_bytes(signature);
    match ed25519_dalek::VerifyingKey::from_bytes(public) {
        Ok(key) => key.verify_strict(message, &sig).is_ok(),
        Err(_) => false,
    }
}

/// The X25519 public key that belongs to a 32-byte secret.
pub uninterp spec fn x25519_public(secret: Seq<u8>) -> Seq<u8>;

/// The X25519 shared secret of a 32-byte secret and a peer's public key.
pub uninterp spec fn x25519(secret: Seq<u8>, public: Seq<u8>) -> Seq<u8>;

/// Calls `StaticSecret::random_from_rng` with `OsRng`. The secret is random,
/// so the contract claims nothing of it.
#[verifier::external_body]
pub(crate) fn x25519_generate() -> (secret: [u8; 32]) {
    x25519_dalek::StaticSecret::random_from_rng(rand::rngs::OsRng).to_bytes()
}

/// Calls `PublicKey::from` on a `StaticSecret`. The contract claims that the
/// bytes returned are the named public key.
#[verifier::external_body]
pub(crate) fn x25519_public_of(secret: &[u8; 32]) -> (public: [u8; 32])
    ensures
        public@ == x25519_public(secret@),
{
    x25519_dalek::PublicKey::from(&x25519_dalek::StaticSecret::from(*secret)).to_bytes()
}

/// Calls `StaticSecret::diffie_hellman`. The contract claims that the bytes
/// returned are the named shared secret, and that the peer computes the
/// same bytes from its own secret and this side's public key.
#[verifier::external_body]
fn x25519_diffie_hellman(secret: &[u8; 32], public: &[u8; 32]) -> (shared: [u8; 32])
    ensures
        shared@ == x25519(secret@, public@),
        forall|peer: Seq<u8>| #[trigger]
            x25519_public(peer) == public@ ==> shared@ == x25519(peer, x25519_public(secret@)),
{
    let secret = x25519_dalek::StaticSecret::from(*secret);
    secret.diffie_hellman(&x25519_dalek::PublicKey::from(*public)).to_bytes()
}

/// Diffie-Hellman over X25519: the 32-byte secret shared between the holder
/// of `secret` and the holder of the secret behind `public`.
pub fn dh(secret: &[u8; 32], public: &[u8; 32]) -> (shared: [u8; 32])
    ensures
        shared@ == x25519(secret@, public@),
        forall|peer: Seq<u8>| #[trigger]
            x25519_public(peer) == public@ ==> shared@ == x25519(peer, x25519_public(secret@)),
{
    x25519_diffie_hellman(secret, public)
}

/// The BLAKE3 hash of a byte string, as 64 lower-case hexadecimal digits.
pub uninterp spec fn blake3_hex(input: Seq<u8>) -> Seq<char>;

/// Calls `blake3::hash` and `Hash::to_hex`. The contract claims that the
/// string returned is the named digest: 64 characters, all ASCII.
#[verifier::external_body]
pub(crate) fn blake3_hash_hex(input: &[u8]) -> (hex: String)
    ensures
        hex@ == blake3_hex(input@),
        hex@.len() == 64,
        hex.is_ascii(),
{
    blake3::hash(input).to_hex().to_string()
}

/// The standard base64 encoding, with padding, of a byte string.
pub uninterp spec fn base64_encode(input: Seq<u8>) -> Seq<char>;

/// The bytes that a standard base64 string decodes to, or `None` where the
/// string is malformed.
pub uninterp spec fn base64_decode(text: Seq<char>) -> Option<Seq<u8>>;

/// Whether a character belongs to the standard base64 alphabet: a letter,
/// a digit, `+`, `/`, or the padding `=`.
pub open spec fn is_base64_char(c: char) -> bool {
    ||| 'A' <= c <= 'Z'
    ||| 'a' <= c <= 'z'
    ||| '0' <= c <= '9'
    ||| c == '+'
    ||| c == '/'
    ||| c == '='
}

/// Calls `STANDARD.encode`. The contract claims that the string returned is
/// the named encoding, that it is written in the base64 alphabet, and that
/// it decodes to the input.
#[verifier::external_body]
pub(crate) fn base64_encode_standard(input: &[u8]) -> (text: String)
    ensures
        text@ == base64_encode(input@),
        forall|i: int| 0 <= i < text@.len() ==> is_base64_char(#[trigger] text@[i]),
        base64_decode(text@) == Some(input@),
{
    base64::engine::general_purpose::STANDARD.encode(input)
}

/// Calls `STANDARD.decode`. The contract claims that the result is the named
/// decoding.
#[verifier::external_body]
pub(crate) fn base64_decode_standard(text: &str) -> (r: Option<Vec<u8>>)
    ensures
        match r {
            Some(bytes) => base64_decode(text@) == Some(bytes@),
            None => base64_decode(text@) is None,
        },
{
    base64::engine::general_purpose::STANDARD.decode(text).ok()
}

} // verus!
