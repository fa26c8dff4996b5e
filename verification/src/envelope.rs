//! The envelope on the wire: one sealed payload with the keys and counters
//! that the receiver needs, under a detached signature of the sender's
//! identity key.
//!
//! Layout, in this order: a version byte; the sender's session public key
//! (32 bytes); the ephemeral public key (32 bytes); the nonce (12 bytes);
//! in a ratchet envelope the counter (4 bytes, most significant first) and
//! the sender's current Diffie-Hellman public key (32 bytes); the length of
//! the ciphertext (4 bytes, most significant first); the ciphertext with
//! its tag; and the signature (64 bytes) over all bytes before it.

use vstd::prelude::*;
use crate::crypto::EncryptedMessage;
use crate::crypto::IdentityKeyPair;
use crate::error::CoreError;
use crate::primitives::ed25519_sign;
use crate::primitives::ed25519_verify;
use crate::primitives::TAG_LEN;
use crate::ratchet::counter_bytes;
use crate::ratchet::MessageView;
use crate::ratchet::RatchetMessage;

verus! {

/// The version byte of an envelope without a ratchet header.
pub const VERSION_SESSION: u8 = 1;

/// The version byte of an envelope with a ratchet header.
pub const VERSION_RATCHET: u8 = 2;

/// The length of a signature, in bytes.
pub const SIGNATURE_LEN: usize = 64;

/// The length of what precedes the ratchet header, in bytes.
pub const FIXED_LEN: usize = 77;

/// The length of a ratchet header, in bytes.
pub const HEADER_LEN: usize = 36;

/// The ratchet header of a message envelope. It travels in clear, and the
/// signature covers it.
#[derive(Debug, Clone, Copy)]
pub struct RatchetHeader {
    /// The sender's counter for this message.
    pub counter: u32,
    /// The sender's current Diffie-Hellman public key.
    pub dh_public: [u8; 32],
}

/// One envelope.
#[derive(Debug, Clone)]
pub struct Envelope {
    /// The sender's session public key.
    pub sender_pubkey: [u8; 32],
    /// The ephemeral public key made for this envelope.
    pub ephemeral_pubkey: [u8; 32],
    /// The AEAD nonce.
    pub nonce: [u8; 12],
    /// The ratchet header, in a message envelope.
    pub header: Option<RatchetHeader>,
    /// The ciphertext followed by its tag.
    pub ciphertext: Vec<u8>,
    /// The signature over everything before it.
    pub signature: [u8; 64],
}

/// The mathematical content of an envelope.
pub struct EnvelopeView {
    pub sender_pubkey: Seq<u8>,
    pub ephemeral_pubkey: Seq<u8>,
    pub nonce: Seq<u8>,
    pub header: Option<(nat, Seq<u8>)>,
    pub ciphertext: Seq<u8>,
    pub signature: Seq<u8>,
}

impl View for Envelope {
    type V = EnvelopeView;

    open spec fn view(&self) -> EnvelopeView {
        EnvelopeView {
            sender_pubkey: self.sender_pubkey@,
            ephemeral_pubkey: self.ephemeral_pubkey@,
            nonce: self.nonce@,
            header: match self.header {
                Some(h) => Some((h.counter as nat, h.dh_public@)),
                None => None,
            },
            ciphertext: self.ciphertext@,
            signature: self.signature@,
        }
    }
}

/// Whether every field has its length and every number fits its four
/// bytes.
pub open spec fn well_formed(e: EnvelopeView) -> bool {
    &&& e.sender_pubkey.len() == 32
    &&& e.ephemeral_pubkey.len() == 32
    &&& e.nonce.len() == 12
    &&& e.header matches Some(h) ==> h.0 <= u32::MAX && h.1.len() == 32
    &&& e.ciphertext.len() <= u32::MAX
    &&& e.signature.len() == SIGNATURE_LEN
}

/// The version byte of an envelope.
pub open spec fn version_of(e: EnvelopeView) -> u8 {
    if e.header is Some {
        VERSION_RATCHET
    } else {
        VERSION_SESSION
    }
}

/// The bytes of the ratchet header, if there is one.
pub open spec fn header_bytes(e: EnvelopeView) -> Seq<u8> {
    match e.header {
        Some(h) => counter_bytes(h.0) + h.1,
        None => Seq::empty(),
    }
}

/// The bytes that the signature covers.
pub open spec fn signed_bytes(e: EnvelopeView) -> Seq<u8> {
    seq![version_of(e)] + e.sender_pubkey + e.ephemeral_pubkey + e.nonce + header_bytes(e)
        + counter_bytes(e.ciphertext.len()) + e.ciphertext
}

/// The bytes of the envelope on the wire.
pub open spec fn wire_bytes(e: EnvelopeView) -> Seq<u8> {
    signed_bytes(e) + e.signature
}

/// The number that four bytes stand for, most significant first.
pub open spec fn counter_value(bytes: Seq<u8>) -> nat {
    (bytes[0] as nat) * 0x100_0000 + (bytes[1] as nat) * 0x1_0000 + (bytes[2] as nat) * 0x100
        + (bytes[3] as nat)
}

/// Four bytes stand for the number they were made from.
pub proof fn lemma_counter_round_trip(n: nat)
    requires
        n <= u32::MAX,
    ensures
        counter_bytes(n).len() == 4,
        counter_value(counter_bytes(n)) == n,
{
    let m = n as u32;
    assert(((m / 0x100_0000) % 0x100) * 0x100_0000 + ((m / 0x1_0000) % 0x100) * 0x1_0000 + ((m
        / 0x100) % 0x100) * 0x100 + (m % 0x100) == m) by (bit_vector);
    assert((m / 0x100_0000) % 0x100 < 0x100 && (m / 0x1_0000) % 0x100 < 0x100 && (m / 0x100)
        % 0x100 < 0x100 && m % 0x100 < 0x100) by (bit_vector);
}

/// A number's four bytes are those that stand for it.
pub proof fn lemma_counter_bytes_of_value(bytes: Seq<u8>)
    requires
        bytes.len() == 4,
    ensures
        counter_value(bytes) <= u32::MAX,
        counter_bytes(counter_value(bytes)) == bytes,
{
    let b0 = bytes[0] as u32;
    let b1 = bytes[1] as u32;
    let b2 = bytes[2] as u32;
    let b3 = bytes[3] as u32;
    assert(b0 < 0x100 && b1 < 0x100 && b2 < 0x100 && b3 < 0x100);
    let v = (b0 * 0x100_0000 + b1 * 0x1_0000 + b2 * 0x100 + b3) as u32;
    assert(b0 * 0x100_0000 + b1 * 0x1_0000 + b2 * 0x100 + b3 <= u32::MAX);
    assert(v == counter_value(bytes));
    assert(b0 < 0x100 && b1 < 0x100 && b2 < 0x100 && b3 < 0x100 ==> {
        let w = (b0 * 0x100_0000 + b1 * 0x1_0000 + b2 * 0x100 + b3) as u32;
        &&& (w / 0x100_0000) % 0x100 == b0
        &&& (w / 0x1_0000) % 0x100 == b1
        &&& (w / 0x100) % 0x100 == b2
        &&& w % 0x100 == b3
    }) by (bit_vector);
    assert(counter_bytes(counter_value(bytes)) =~= bytes);
}

/// Appends a number as four bytes, most significant first.
pub fn push_counter(out: &mut Vec<u8>, n: u32)
    ensures
        final(out)@ == old(out)@ + counter_bytes(n as nat),
{
    let ghost before = out@;
    out.push((n / 0x100_0000) as u8);
    out.push(((n / 0x1_0000) % 0x100) as u8);
    out.push(((n / 0x100) % 0x100) as u8);
    out.push((n % 0x100) as u8);
    assert(out@ =~= before + counter_bytes(n as nat));
}

/// Reads the number that the four bytes at `at` stand for.
pub fn read_counter(bytes: &[u8], at: usize) -> (n: u32)
    requires
        at + 4 <= bytes@.len(),
    ensures
        n == counter_value(bytes@.subrange(at as int, at + 4)),
{
    let b0 = bytes[at] as u32;
    let b1 = bytes[at + 1] as u32;
    let b2 = bytes[at + 2] as u32;
    let b3 = bytes[at + 3] as u32;
    b0 * 0x100_0000 + b1 * 0x1_0000 + b2 * 0x100 + b3
}

/// Reads the 32 bytes at `at`.
pub fn read_32(bytes: &[u8], at: usize) -> (out: [u8; 32])
    requires
        at + 32 <= bytes@.len(),
    ensures
        out@ == bytes@.subrange(at as int, at + 32),
{
    let mut out = [0u8; 32];
    let mut i: usize = 0;
    let total = bytes.len();
    while i < 32
        invariant
            i <= 32,
            at + 32 <= bytes@.len(),
            bytes@.len() == total,
            forall|j: int| 0 <= j < i ==> out@[j] == bytes@[at + j],
        decreases 32 - i,
    {
        out[i] = bytes[at + i];
        i += 1;
    }
    assert(out@ =~= bytes@.subrange(at as int, at + 32));
    out
}

/// Reads the 12 bytes at `at`.
pub fn read_12(bytes: &[u8], at: usize) -> (out: [u8; 12])
    requires
        at + 12 <= bytes@.len(),
    ensures
        out@ == bytes@.subrange(at as int, at + 12),
{
    let mut out = [0u8; 12];
    let mut i: usize = 0;
    let total = bytes.len();
    while i < 12
        invariant
            i <= 12,
            at + 12 <= bytes@.len(),
            bytes@.len() == total,
            forall|j: int| 0 <= j < i ==> out@[j] == bytes@[at + j],
        decreases 12 - i,
    {
        out[i] = bytes[at + i];
        i += 1;
    }
    assert(out@ =~= bytes@.subrange(at as int, at + 12));
    out
}

/// Reads the 64 bytes at `at`.
pub fn read_64(bytes: &[u8], at: usize) -> (out: [u8; 64])
    requires
        at + 64 <= bytes@.len(),
    ensures
        out@ == bytes@.subrange(at as int, at + 64),
{
    let mut out = [0u8; 64];
    let mut i: usize = 0;
    let total = bytes.len();
    while i < 64
        invariant
            i <= 64,
            at + 64 <= bytes@.len(),
            bytes@.len() == total,
            forall|j: int| 0 <= j < i ==> out@[j] == bytes@[at + j],
        decreases 64 - i,
    {
        out[i] = bytes[at + i];
        i += 1;
    }
    assert(out@ =~= bytes@.subrange(at as int, at + 64));
    out
}

/// Reads the `len` bytes at `at`.
pub fn read_bytes(bytes: &[u8], at: usize, len: usize) -> (out: Vec<u8>)
    requires
        at + len <= bytes@.len(),
    ensures
        out@ == bytes@.subrange(at as int, at + len),
{
    let mut out: Vec<u8> = Vec::new();
    let mut i: usize = 0;
    let total = bytes.len();
    while i < len
        invariant
            i <= len,
            at + len <= bytes@.len(),
            bytes@.len() == total,
            out@ == bytes@.subrange(at as int, at + i),
        decreases len - i,
    {
        out.push(bytes[at + i]);
        assert(out@ =~= bytes@.subrange(at as int, at + i + 1));
        i += 1;
    }
    out
}

/// Where the length of the ciphertext stands in the bytes of an envelope.
pub open spec fn length_offset(e: EnvelopeView) -> int {
    if e.header is Some {
        FIXED_LEN + HEADER_LEN
    } else {
        FIXED_LEN as int
    }
}

/// The layout of an envelope's bytes: where each field stands.
pub proof fn lemma_wire_layout(e: EnvelopeView)
    requires
        well_formed(e),
    ensures
        ({
            let w = wire_bytes(e);
            let h = length_offset(e);
            let l = e.ciphertext.len() as int;
            &&& signed_bytes(e).len() == h + 4 + l
            &&& w.len() == h + 4 + l + SIGNATURE_LEN
            &&& w[0] == version_of(e)
            &&& w.subrange(1, 33) == e.sender_pubkey
            &&& w.subrange(33, 65) == e.ephemeral_pubkey
            &&& w.subrange(65, 77) == e.nonce
            &&& e.header matches Some(hd) ==> w.subrange(77, 81) == counter_bytes(hd.0)
                && w.subrange(81, 113) == hd.1
            &&& w.subrange(h, h + 4) == counter_bytes(e.ciphertext.len())
            &&& w.subrange(h + 4, h + 4 + l) == e.ciphertext
            &&& w.subrange(h + 4 + l, h + 4 + l + SIGNATURE_LEN) == e.signature
            &&& w.subrange(0, h + 4 + l) == signed_bytes(e)
        }),
{
    let w = wire_bytes(e);
    let h = length_offset(e);
    let l = e.ciphertext.len() as int;
    assert(w.subrange(1, 33) =~= e.sender_pubkey);
    assert(w.subrange(33, 65) =~= e.ephemeral_pubkey);
    assert(w.subrange(65, 77) =~= e.nonce);
    if let Some(hd) = e.header {
        assert(w.subrange(77, 81) =~= counter_bytes(hd.0));
        assert(w.subrange(81, 113) =~= hd.1);
    }
    assert(w.subrange(h, h + 4) =~= counter_bytes(e.ciphertext.len()));
    assert(w.subrange(h + 4, h + 4 + l) =~= e.ciphertext);
    assert(w.subrange(h + 4 + l, h + 4 + l + SIGNATURE_LEN) =~= e.signature);
    assert(w.subrange(0, h + 4 + l) =~= signed_bytes(e));
}

/// Bytes that hold the fields of an envelope, each in its place, are the
/// bytes of that envelope.
pub proof fn lemma_wire_assembled(bytes: Seq<u8>, e: EnvelopeView)
    requires
        well_formed(e),
        ({
            let h = length_offset(e);
            let l = e.ciphertext.len() as int;
            &&& bytes.len() == h + 4 + l + SIGNATURE_LEN
            &&& bytes[0] == version_of(e)
            &&& bytes.subrange(1, 33) == e.sender_pubkey
            &&& bytes.subrange(33, 65) == e.ephemeral_pubkey
            &&& bytes.subrange(65, 77) == e.nonce
            &&& e.header matches Some(hd) ==> bytes.subrange(77, 81) == counter_bytes(hd.0)
                && bytes.subrange(81, 113) == hd.1
            &&& bytes.subrange(h, h + 4) == counter_bytes(e.ciphertext.len())
            &&& bytes.subrange(h + 4, h + 4 + l) == e.ciphertext
            &&& bytes.subrange(h + 4 + l, h + 4 + l + SIGNATURE_LEN) == e.signature
        }),
    ensures
        wire_bytes(e) == bytes,
{
    let w = wire_bytes(e);
    let h = length_offset(e);
    let l = e.ciphertext.len() as int;
    lemma_wire_layout(e);
    assert forall|i: int| 0 <= i < bytes.len() implies w[i] == bytes[i] by {
        if i == 0 {
        } else if i < 33 {
            assert(w.subrange(1, 33)[i - 1] == bytes.subrange(1, 33)[i - 1]);
        } else if i < 65 {
            assert(w.subrange(33, 65)[i - 33] == bytes.subrange(33, 65)[i - 33]);
        } else if i < 77 {
            assert(w.subrange(65, 77)[i - 65] == bytes.subrange(65, 77)[i - 65]);
        } else if i < h {
            if i < 81 {
                assert(w.subrange(77, 81)[i - 77] == bytes.subrange(77, 81)[i - 77]);
            } else {
                assert(w.subrange(81, 113)[i - 81] == bytes.subrange(81, 113)[i - 81]);
            }
        } else if i < h + 4 {
            assert(w.subrange(h, h + 4)[i - h] == bytes.subrange(h, h + 4)[i - h]);
        } else if i < h + 4 + l {
            assert(w.subrange(h + 4, h + 4 + l)[i - h - 4] == bytes.subrange(h + 4, h + 4 + l)[i
                - h - 4]);
        } else {
            assert(w.subrange(h + 4 + l, h + 4 + l + SIGNATURE_LEN)[i - h - 4 - l]
                == bytes.subrange(h + 4 + l, h + 4 + l + SIGNATURE_LEN)[i - h - 4 - l]);
        }
    }
    assert(w =~= bytes);
}

/// Two envelopes with the same bytes are the same envelope.
pub proof fn lemma_wire_bytes_injective(a: EnvelopeView, b: EnvelopeView)
    requires
        well_formed(a),
        well_formed(b),
        wire_bytes(a) == wire_bytes(b),
    ensures
        a == b,
{
    lemma_wire_layout(a);
    lemma_wire_layout(b);
    assert(version_of(a) == version_of(b));
    lemma_counter_round_trip(a.ciphertext.len());
    lemma_counter_round_trip(b.ciphertext.len());
    assert(a.ciphertext.len() == b.ciphertext.len());
    if let Some(ha) = a.header {
        let hb = b.header.unwrap();
        lemma_counter_round_trip(ha.0);
        lemma_counter_round_trip(hb.0);
        assert(ha.0 == hb.0);
        assert(ha.1 == hb.1);
        assert(ha == hb);
    }
    assert(a.header == b.header);
}


/// The content of what parsing returns.
pub open spec fn envelope_view(r: Result<Envelope, CoreError>) -> Result<EnvelopeView, CoreError> {
    match r {
        Ok(e) => Ok(e@),
        Err(e) => Err(e),
    }
}

/// What the bytes of an envelope parse to: the one envelope that has these
/// bytes, or `CryptoFailure` where no envelope has.
pub open spec fn parsed(bytes: Seq<u8>) -> Result<EnvelopeView, CoreError> {
    if exists|e: EnvelopeView| well_formed(e) && #[trigger] wire_bytes(e) == bytes {
        Ok(choose|e: EnvelopeView| well_formed(e) && #[trigger] wire_bytes(e) == bytes)
    } else {
        Err(CoreError::CryptoFailure)
    }
}

/// An envelope's bytes parse to the envelope.
pub proof fn lemma_parse_of_wire_bytes(e: EnvelopeView)
    requires
        well_formed(e),
    ensures
        parsed(wire_bytes(e)) == Ok::<EnvelopeView, CoreError>(e),
{
    let found = choose|x: EnvelopeView| well_formed(x) && #[trigger] wire_bytes(x) == wire_bytes(e);
    lemma_wire_bytes_injective(found, e);
}

/// Bytes that parse are the bytes of what they parse to.
pub proof fn lemma_wire_bytes_of_parse(bytes: Seq<u8>)
    requires
        parsed(bytes) is Ok,
    ensures
        well_formed(parsed(bytes).unwrap()),
        wire_bytes(parsed(bytes).unwrap()) == bytes,
{
}

impl Envelope {
    /// The length of the ciphertext fits its four bytes. The other fields
    /// have their lengths by their types.
    pub open spec fn fits(&self) -> bool {
        self.ciphertext@.len() <= u32::MAX
    }

    /// The bytes that the signature covers. Fails with `CryptoFailure`
    /// exactly where the length of the ciphertext does not fit four bytes.
    pub fn signed_part(&self) -> (r: Result<Vec<u8>, CoreError>)
        ensures
            r is Ok <==> self.fits(),
            r matches Ok(bytes) ==> bytes@ == signed_bytes(self@),
            r matches Err(e) ==> e == CoreError::CryptoFailure,
    {
        if self.ciphertext.len() > u32::MAX as usize {
            return Err(CoreError::CryptoFailure);
        }
        let mut out: Vec<u8> = Vec::new();
        match &self.header {
            Some(_) => out.push(VERSION_RATCHET),
            None => out.push(VERSION_SESSION),
        }
        out.extend_from_slice(self.sender_pubkey.as_slice());
        out.extend_from_slice(self.ephemeral_pubkey.as_slice());
        out.extend_from_slice(self.nonce.as_slice());
        match &self.header {
            Some(h) => {
                push_counter(&mut out, h.counter);
                out.extend_from_slice(h.dh_public.as_slice());
            },
            None => {},
        }
        assert(out@ =~= seq![version_of(self@)] + self@.sender_pubkey + self@.ephemeral_pubkey
            + self@.nonce + header_bytes(self@));
        push_counter(&mut out, self.ciphertext.len() as u32);
        out.extend_from_slice(self.ciphertext.as_slice());
        assert(out@ =~= signed_bytes(self@));
        Ok(out)
    }

    /// The bytes of the envelope on the wire. Fails with `CryptoFailure`
    /// exactly where the length of the ciphertext does not fit four bytes.
    /// The bytes parse back to this envelope.
    pub fn serialize(&self) -> (r: Result<Vec<u8>, CoreError>)
        ensures
            r is Ok <==> self.fits(),
            r matches Ok(bytes) ==> bytes@ == wire_bytes(self@) && parsed(bytes@) == Ok::<
                EnvelopeView,
                CoreError,
            >(self@),
            r matches Err(e) ==> e == CoreError::CryptoFailure,
    {
        let mut out = self.signed_part()?;
        out.extend_from_slice(self.signature.as_slice());
        proof {
            lemma_parse_of_wire_bytes(self@);
        }
        Ok(out)
    }

    /// Parses the bytes of an envelope. Succeeds exactly on the bytes that
    /// some envelope serializes to, and returns that envelope; anything
    /// else (a length that does not match, an unknown version) is
    /// `CryptoFailure`.
    pub fn deserialize(bytes: &[u8]) -> (r: Result<Envelope, CoreError>)
        ensures
            envelope_view(r) == parsed(bytes@),
            r matches Ok(e) ==> wire_bytes(e@) == bytes@ && e.fits(),
    {
        let total = bytes.len();
        if total < FIXED_LEN + 4 + SIGNATURE_LEN {
            proof {
                lemma_not_wire_bytes(bytes@);
            }
            return Err(CoreError::CryptoFailure);
        }
        let version = bytes[0];
        if version != VERSION_SESSION && version != VERSION_RATCHET {
            proof {
                lemma_not_wire_bytes(bytes@);
            }
            return Err(CoreError::CryptoFailure);
        }
        let offset: usize = if version == VERSION_RATCHET {
            FIXED_LEN + HEADER_LEN
        } else {
            FIXED_LEN
        };
        if total < offset + 4 + SIGNATURE_LEN {
            proof {
                lemma_not_wire_bytes(bytes@);
            }
            return Err(CoreError::CryptoFailure);
        }
        let length = read_counter(bytes, offset);
        if (total - offset - 4 - SIGNATURE_LEN) as u64 != length as u64 {
            proof {
                lemma_not_wire_bytes(bytes@);
            }
            return Err(CoreError::CryptoFailure);
        }
        let length = total - offset - 4 - SIGNATURE_LEN;
        let header = if version == VERSION_RATCHET {
            Some(RatchetHeader { counter: read_counter(bytes, 77), dh_public: read_32(bytes, 81) })
        } else {
            None
        };
        let envelope = Envelope {
            sender_pubkey: read_32(bytes, 1),
            ephemeral_pubkey: read_32(bytes, 33),
            nonce: read_12(bytes, 65),
            header,
            ciphertext: read_bytes(bytes, offset + 4, length),
            signature: read_64(bytes, offset + 4 + length),
        };
        proof {
            let e = envelope@;
            lemma_counter_bytes_of_value(bytes@.subrange(offset as int, offset + 4));
            if version == VERSION_RATCHET {
                lemma_counter_bytes_of_value(bytes@.subrange(77, 81));
            }
            lemma_wire_assembled(bytes@, e);
            lemma_parse_of_wire_bytes(e);
        }
        Ok(envelope)
    }

    /// Puts a sealed message into an envelope and signs it with the
    /// sender's identity key. The signature covers every byte before it,
    /// the ratchet header included. Fails with `CryptoFailure` exactly
    /// where the length of the ciphertext does not fit four bytes.
    pub fn sign(message: EncryptedMessage, header: Option<RatchetHeader>, identity: &IdentityKeyPair) -> (r:
        Result<Envelope, CoreError>)
        ensures
            r is Ok <==> message.ciphertext@.len() <= u32::MAX,
            r matches Ok(e) ==> {
                &&& e.sender_pubkey == message.sender_pubkey
                &&& e.ephemeral_pubkey == message.ephemeral_pubkey
                &&& e.nonce == message.nonce
                &&& e.header == header
                &&& e.ciphertext == message.ciphertext
                &&& e.signature@ == ed25519_sign(identity.secret(), signed_bytes(e@))
            },
            r matches Err(e) ==> e == CoreError::CryptoFailure,
    {
        let mut envelope = Envelope {
            sender_pubkey: message.sender_pubkey,
            ephemeral_pubkey: message.ephemeral_pubkey,
            nonce: message.nonce,
            header,
            ciphertext: message.ciphertext,
            signature: [0u8; 64],
        };
        let covered = envelope.signed_part()?;
        envelope.signature = identity.sign(covered.as_slice());
        Ok(envelope)
    }

    /// What verifying an envelope against a sender's identity key yields:
    /// a ciphertext shorter than a tag, or too long for its length field,
    /// or a signature that strict verification does not accept, is
    /// `AuthFailure`.
    pub open spec fn verified(e: EnvelopeView, identity_public: Seq<u8>) -> Result<(), CoreError> {
        if e.ciphertext.len() < TAG_LEN || e.ciphertext.len() > u32::MAX {
            Err(CoreError::AuthFailure)
        } else if ed25519_verify(identity_public, signed_bytes(e), e.signature) {
            Ok(())
        } else {
            Err(CoreError::AuthFailure)
        }
    }

    /// Verifies the envelope against the sender's identity key. A
    /// ciphertext shorter than a tag is rejected first, before any
    /// cryptographic work.
    pub fn verify(&self, identity_public: &[u8; 32]) -> (r: Result<(), CoreError>)
        ensures
            r == Self::verified(self@, identity_public@),
            self.ciphertext@.len() < TAG_LEN ==> r is Err,
    {
        if self.ciphertext.len() < TAG_LEN {
            return Err(CoreError::AuthFailure);
        }
        let covered = match self.signed_part() {
            Ok(bytes) => bytes,
            Err(_) => {
                return Err(CoreError::AuthFailure);
            },
        };
        match IdentityKeyPair::verify(identity_public, covered.as_slice(), &self.signature) {
            Ok(()) => Ok(()),
            Err(_) => Err(CoreError::AuthFailure),
        }
    }

    /// Puts a ratchet message into an envelope and signs it. The counter
    /// and the Diffie-Hellman public key of the message become the header,
    /// which the signature covers.
    pub fn sign_ratchet(
        message: RatchetMessage,
        sender_pubkey: [u8; 32],
        ephemeral_pubkey: [u8; 32],
        identity: &IdentityKeyPair,
    ) -> (r: Result<Envelope, CoreError>)
        ensures
            r is Ok <==> message.ciphertext@.len() <= u32::MAX,
            r matches Ok(e) ==> {
                &&& e.sender_pubkey == sender_pubkey
                &&& e.ephemeral_pubkey == ephemeral_pubkey
                &&& e.nonce == message.nonce
                &&& e.header == Some(
                    RatchetHeader { counter: message.counter, dh_public: message.dh_public },
                )
                &&& e.ciphertext == message.ciphertext
                &&& e.signature@ == ed25519_sign(identity.secret(), signed_bytes(e@))
                &&& e.ratchet_message_view() == Some(message@)
            },
            r matches Err(e) ==> e == CoreError::CryptoFailure,
    {
        let header = RatchetHeader { counter: message.counter, dh_public: message.dh_public };
        Envelope::sign(
            EncryptedMessage {
                ciphertext: message.ciphertext,
                nonce: message.nonce,
                sender_pubkey,
                ephemeral_pubkey,
            },
            Some(header),
            identity,
        )
    }

    /// The ratchet message that the envelope carries, if it has a header.
    pub open spec fn ratchet_message_view(&self) -> Option<MessageView> {
        match self.header {
            Some(h) => Some(
                MessageView {
                    counter: h.counter as nat,
                    dh_public: h.dh_public@,
                    nonce: self.nonce@,
                    ciphertext: self.ciphertext@,
                },
            ),
            None => None,
        }
    }

    /// The ratchet message that the envelope carries; `None` where the
    /// envelope has no ratchet header.
    pub fn into_ratchet_message(self) -> (r: Option<RatchetMessage>)
        ensures
            match r {
                Some(m) => self.ratchet_message_view() == Some(m@),
                None => self.header is None,
            },
    {
        match self.header {
            Some(h) => Some(
                RatchetMessage {
                    counter: h.counter,
                    dh_public: h.dh_public,
                    nonce: self.nonce,
                    ciphertext: self.ciphertext,
                },
            ),
            None => None,
        }
    }

    /// The sealed message that the envelope carries.
    pub fn into_message(self) -> (message: EncryptedMessage)
        ensures
            message.ciphertext == self.ciphertext,
            message.nonce == self.nonce,
            message.sender_pubkey == self.sender_pubkey,
            message.ephemeral_pubkey == self.ephemeral_pubkey,
    {
        EncryptedMessage {
            ciphertext: self.ciphertext,
            nonce: self.nonce,
            sender_pubkey: self.sender_pubkey,
            ephemeral_pubkey: self.ephemeral_pubkey,
        }
    }
}

/// What receiving bytes from the wire yields: the envelope they parse to,
/// where it verifies against the sender's identity key.
pub open spec fn accepted(bytes: Seq<u8>, identity_public: Seq<u8>) -> Result<
    EnvelopeView,
    CoreError,
> {
    match parsed(bytes) {
        Ok(e) => match Envelope::verified(e, identity_public) {
            Ok(()) => Ok(e),
            Err(err) => Err(err),
        },
        Err(err) => Err(err),
    }
}

/// Parses what came from the wire and verifies it against the sender's
/// identity key. Nothing is handed on that did not verify.
pub fn accept(bytes: &[u8], identity_public: &[u8; 32]) -> (r: Result<Envelope, CoreError>)
    ensures
        envelope_view(r) == accepted(bytes@, identity_public@),
{
    let envelope = Envelope::deserialize(bytes)?;
    match envelope.verify(identity_public) {
        Ok(()) => Ok(envelope),
        Err(e) => Err(e),
    }
}

/// Bytes whose lengths or version do not fit the layout are the bytes of
/// no envelope.
proof fn lemma_not_wire_bytes(bytes: Seq<u8>)
    requires
        ({
            ||| bytes.len() < FIXED_LEN + 4 + SIGNATURE_LEN
            ||| (bytes[0] != VERSION_SESSION && bytes[0] != VERSION_RATCHET)
            ||| (bytes[0] == VERSION_RATCHET && bytes.len() < FIXED_LEN + HEADER_LEN + 4
                + SIGNATURE_LEN)
            ||| ({
                let offset = if bytes[0] == VERSION_RATCHET {
                    FIXED_LEN + HEADER_LEN
                } else {
                    FIXED_LEN as int
                };
                bytes.len() >= offset + 4 + SIGNATURE_LEN && bytes.len() - offset - 4
                    - SIGNATURE_LEN != counter_value(bytes.subrange(offset, offset + 4))
            })
        }),
    ensures
        parsed(bytes) == Err::<EnvelopeView, CoreError>(CoreError::CryptoFailure),
{
    assert forall|e: EnvelopeView| well_formed(e) implies #[trigger] wire_bytes(e) != bytes by {
        if wire_bytes(e) == bytes {
            lemma_wire_layout(e);
            lemma_counter_round_trip(e.ciphertext.len());
        }
    }
}

} // verus!
