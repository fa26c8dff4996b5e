//! The Double Ratchet: per-conversation root and chain keys that advance on
//! every message, with a bounded buffer of message keys for messages that
//! arrive out of order.
//!
//! A party that wants to send announces a Diffie-Hellman public key and
//! takes a ratchet step of its own; the party that first sees that key in a
//! header takes the matching step. Both derive the same three keys from the
//! root key, and the announcing side takes the two chain keys crosswise, so
//! that its sending chain is the other side's receiving chain.

use vstd::prelude::*;
use crate::error::CoreError;
use crate::primitives::aead_fits;
use crate::primitives::aead_seal;
use crate::primitives::derive_key;
use crate::primitives::open_result;
use crate::primitives::TAG_LEN;

verus! {

/// The most message keys that are kept for messages still to come.
pub const MAX_SKIPPED_KEYS: usize = 1000;

/// The state of one conversation's ratchet.
#[derive(Debug, Clone)]
pub struct DoubleRatchet {
    /// The root key.
    pub root_key: [u8; 32],
    /// The sending chain key, once a ratchet step was taken.
    pub sending_chain_key: Option<[u8; 32]>,
    /// The receiving chain key, once a ratchet step was taken.
    pub receiving_chain_key: Option<[u8; 32]>,
    /// The counter of the next message to send.
    pub sending_message_number: u32,
    /// The counter of the next message expected on the receiving chain.
    pub receiving_message_number: u32,
    /// Message keys of skipped messages with their counters, oldest first.
    pub skipped_message_keys: Vec<(u32, [u8; 32])>,
    /// The Diffie-Hellman public key announced in the headers of what is
    /// sent.
    pub local_dh_public: Option<[u8; 32]>,
    /// The Diffie-Hellman public key last seen in a header.
    pub remote_dh_public: Option<[u8; 32]>,
}

/// One ratchet message: the header, which travels in clear, and the sealed
/// payload.
#[derive(Debug, Clone)]
pub struct RatchetMessage {
    /// The sender's counter for this message.
    pub counter: u32,
    /// The sender's current Diffie-Hellman public key.
    pub dh_public: [u8; 32],
    /// The AEAD nonce.
    pub nonce: [u8; 12],
    /// The ciphertext followed by its tag.
    pub ciphertext: Vec<u8>,
}

/// The mathematical content of a ratchet state.
pub struct RatchetState {
    pub root_key: Seq<u8>,
    pub sending_chain_key: Option<Seq<u8>>,
    pub receiving_chain_key: Option<Seq<u8>>,
    pub sending_message_number: nat,
    pub receiving_message_number: nat,
    pub skipped: Seq<(nat, Seq<u8>)>,
    pub local_dh_public: Option<Seq<u8>>,
    pub remote_dh_public: Option<Seq<u8>>,
}

/// The mathematical content of a ratchet message.
pub struct MessageView {
    pub counter: nat,
    pub dh_public: Seq<u8>,
    pub nonce: Seq<u8>,
    pub ciphertext: Seq<u8>,
}

/// The content of an optional key.
pub open spec fn key_view(key: Option<[u8; 32]>) -> Option<Seq<u8>> {
    match key {
        Some(k) => Some(k@),
        None => None,
    }
}

/// The content of a buffer of skipped keys.
pub open spec fn skipped_view(entries: Seq<(u32, [u8; 32])>) -> Seq<(nat, Seq<u8>)> {
    Seq::new(entries.len(), |i: int| (entries[i].0 as nat, entries[i].1@))
}

impl View for DoubleRatchet {
    type V = RatchetState;

    open spec fn view(&self) -> RatchetState {
        RatchetState {
            root_key: self.root_key@,
            sending_chain_key: key_view(self.sending_chain_key),
            receiving_chain_key: key_view(self.receiving_chain_key),
            sending_message_number: self.sending_message_number as nat,
            receiving_message_number: self.receiving_message_number as nat,
            skipped: skipped_view(self.skipped_message_keys@),
            local_dh_public: key_view(self.local_dh_public),
            remote_dh_public: key_view(self.remote_dh_public),
        }
    }
}

impl View for RatchetMessage {
    type V = MessageView;

    open spec fn view(&self) -> MessageView {
        MessageView {
            counter: self.counter as nat,
            dh_public: self.dh_public@,
            nonce: self.nonce@,
            ciphertext: self.ciphertext@,
        }
    }
}

/// The label of the new root key: the ASCII bytes of `ratchet-root`.
pub open spec fn label_root() -> Seq<u8> {
    seq![0x72u8, 0x61, 0x74, 0x63, 0x68, 0x65, 0x74, 0x2d, 0x72, 0x6f, 0x6f, 0x74]
}

/// The label of the first chain key: the ASCII bytes of `ratchet-send`.
pub open spec fn label_send() -> Seq<u8> {
    seq![0x72u8, 0x61, 0x74, 0x63, 0x68, 0x65, 0x74, 0x2d, 0x73, 0x65, 0x6e, 0x64]
}

/// The label of the second chain key: the ASCII bytes of `ratchet-recv`.
pub open spec fn label_recv() -> Seq<u8> {
    seq![0x72u8, 0x61, 0x74, 0x63, 0x68, 0x65, 0x74, 0x2d, 0x72, 0x65, 0x63, 0x76]
}

/// The label of the next chain key: the ASCII bytes of `ck`.
pub open spec fn label_chain() -> Seq<u8> {
    seq![0x63u8, 0x6b]
}

/// A counter as four bytes, most significant first.
pub open spec fn counter_bytes(n: nat) -> Seq<u8> {
    seq![
        ((n / 0x100_0000) % 0x100) as u8,
        ((n / 0x1_0000) % 0x100) as u8,
        ((n / 0x100) % 0x100) as u8,
        (n % 0x100) as u8,
    ]
}

/// The label of a message key: the ASCII bytes of `mk`, then the counter as
/// four bytes, most significant first.
pub open spec fn label_message(n: nat) -> Seq<u8> {
    seq![0x6du8, 0x6b] + counter_bytes(n)
}

/// The message key of counter `n` on a chain whose key is `chain_key`.
pub open spec fn message_key(chain_key: Seq<u8>, n: nat) -> Seq<u8> {
    derive_key(chain_key, label_message(n))
}

/// The chain key that follows `chain_key`.
pub open spec fn next_chain_key(chain_key: Seq<u8>) -> Seq<u8> {
    derive_key(chain_key, label_chain())
}

/// The chain key reached from `chain_key` after `steps` messages.
pub open spec fn chain_key_after(chain_key: Seq<u8>, steps: nat) -> Seq<u8>
    decreases steps,
{
    if steps == 0 {
        chain_key
    } else {
        next_chain_key(chain_key_after(chain_key, (steps - 1) as nat))
    }
}

/// A buffer after one more entry: the oldest entry leaves where the buffer
/// is at its cap.
pub open spec fn push_bounded(buffer: Seq<(nat, Seq<u8>)>, entry: (nat, Seq<u8>)) -> Seq<
    (nat, Seq<u8>),
> {
    if buffer.len() >= MAX_SKIPPED_KEYS {
        buffer.subrange(1, buffer.len() as int).push(entry)
    } else {
        buffer.push(entry)
    }
}

/// The buffer and the chain key after the message keys of the counters from
/// `from` up to, not including, `to` were set aside.
pub open spec fn skip_to(buffer: Seq<(nat, Seq<u8>)>, chain_key: Seq<u8>, from: nat, to: nat) -> (
    Seq<(nat, Seq<u8>)>,
    Seq<u8>,
)
    decreases to - from,
{
    if from >= to {
        (buffer, chain_key)
    } else {
        skip_to(
            push_bounded(buffer, (from, message_key(chain_key, from))),
            next_chain_key(chain_key),
            from + 1,
            to,
        )
    }
}

/// Whether the buffer holds a key for the counter.
pub open spec fn has_skipped(buffer: Seq<(nat, Seq<u8>)>, counter: nat) -> bool {
    exists|i: int| 0 <= i < buffer.len() && (#[trigger] buffer[i]).0 == counter
}

/// Whether `i` is the place of the oldest key for the counter.
pub open spec fn is_first_skipped(buffer: Seq<(nat, Seq<u8>)>, counter: nat, i: int) -> bool {
    &&& 0 <= i < buffer.len()
    &&& buffer[i].0 == counter
    &&& forall|j: int| 0 <= j < i ==> (#[trigger] buffer[j]).0 != counter
}

/// The place of the oldest key for the counter.
pub open spec fn first_skipped(buffer: Seq<(nat, Seq<u8>)>, counter: nat) -> int {
    choose|i: int| is_first_skipped(buffer, counter, i)
}

/// The state after a ratchet step on seeing a new remote public key: root
/// and both chain keys are derived anew from the root key under three
/// distinct labels, and both counters start again at zero.
pub open spec fn stepped(s: RatchetState, remote_public: Seq<u8>) -> RatchetState {
    RatchetState {
        root_key: derive_key(s.root_key, label_root()),
        sending_chain_key: Some(derive_key(s.root_key, label_send())),
        receiving_chain_key: Some(derive_key(s.root_key, label_recv())),
        sending_message_number: 0,
        receiving_message_number: 0,
        remote_dh_public: Some(remote_public),
        ..s
    }
}

/// The state after a ratchet step on announcing a new local public key:
/// the same three keys as in the peer's step, with the chain keys taken
/// crosswise.
pub open spec fn announced(s: RatchetState, local_public: Seq<u8>) -> RatchetState {
    RatchetState {
        root_key: derive_key(s.root_key, label_root()),
        sending_chain_key: Some(derive_key(s.root_key, label_recv())),
        receiving_chain_key: Some(derive_key(s.root_key, label_send())),
        sending_message_number: 0,
        receiving_message_number: 0,
        local_dh_public: Some(local_public),
        ..s
    }
}

/// What sending returns and the state it leaves. Without a sending chain or
/// an announced public key nothing is sent (`StateMissing`); a counter that
/// cannot advance or a plaintext that the cipher refuses is `CryptoFailure`.
/// On failure the state is unchanged.
pub open spec fn sent(s: RatchetState, nonce: Seq<u8>, plaintext: Seq<u8>) -> (
    Result<MessageView, CoreError>,
    RatchetState,
) {
    if s.sending_chain_key is None || s.local_dh_public is None {
        (Err(CoreError::StateMissing), s)
    } else if s.sending_message_number >= u32::MAX || !aead_fits(plaintext.len()) {
        (Err(CoreError::CryptoFailure), s)
    } else {
        let chain_key = s.sending_chain_key.unwrap();
        let n = s.sending_message_number;
        (
            Ok(
                MessageView {
                    counter: n,
                    dh_public: s.local_dh_public.unwrap(),
                    nonce: nonce,
                    ciphertext: aead_seal(message_key(chain_key, n), nonce, plaintext),
                },
            ),
            RatchetState {
                sending_chain_key: Some(next_chain_key(chain_key)),
                sending_message_number: n + 1,
                ..s
            },
        )
    }
}

/// What receiving returns and the state it leaves.
///
/// A buffered key for the counter is used first, and leaves the buffer
/// where the message opens. Otherwise a header with a new public key takes
/// a ratchet step; then a counter below the next expected one, or one that
/// cannot be advanced past, is `ReplayOrStale`; else the keys of the
/// counters in between are set aside and the message is opened with the
/// key of its counter. A message that does not open is `AuthFailure`. On
/// every failure the state is unchanged.
pub open spec fn received(s: RatchetState, msg: MessageView) -> (
    Result<Seq<u8>, CoreError>,
    RatchetState,
) {
    if has_skipped(s.skipped, msg.counter) {
        let i = first_skipped(s.skipped, msg.counter);
        match open_result(s.skipped[i].1, msg.nonce, msg.ciphertext) {
            Ok(plain) => (Ok(plain), RatchetState { skipped: s.skipped.remove(i), ..s }),
            Err(_) => (Err(CoreError::AuthFailure), s),
        }
    } else {
        let t = if s.remote_dh_public == Some(msg.dh_public) {
            s
        } else {
            stepped(s, msg.dh_public)
        };
        if t.receiving_chain_key is None {
            (Err(CoreError::StateMissing), s)
        } else if msg.counter < t.receiving_message_number || msg.counter >= u32::MAX {
            (Err(CoreError::ReplayOrStale), s)
        } else {
            let (buffer, chain_key) = skip_to(
                t.skipped,
                t.receiving_chain_key.unwrap(),
                t.receiving_message_number,
                msg.counter,
            );
            match open_result(message_key(chain_key, msg.counter), msg.nonce, msg.ciphertext) {
                Ok(plain) => (
                    Ok(plain),
                    RatchetState {
                        skipped: buffer,
                        receiving_chain_key: Some(next_chain_key(chain_key)),
                        receiving_message_number: msg.counter + 1,
                        ..t
                    },
                ),
                Err(_) => (Err(CoreError::AuthFailure), s),
            }
        }
    }
}

/// Whether two 32-byte strings are equal.
pub fn keys_equal(a: &[u8; 32], b: &[u8; 32]) -> (r: bool)
    ensures
        r == (a@ == b@),
{
    let mut i: usize = 0;
    while i < 32
        invariant
            i <= 32,
            forall|j: int| 0 <= j < i ==> a@[j] == b@[j],
        decreases 32 - i,
    {
        if a[i] != b[i] {
            return false;
        }
        i += 1;
    }
    assert(a@ =~= b@);
    true
}

/// Derives the message key of counter `n` from a chain key.
fn derive_message_key(chain_key: &[u8; 32], n: u32) -> (r: Result<[u8; 32], CoreError>)
    ensures
        r matches Ok(key) && key@ == message_key(chain_key@, n as nat),
{
    let info: [u8; 6] = [
        0x6d,
        0x6b,
        (n / 0x100_0000) as u8,
        ((n / 0x1_0000) % 0x100) as u8,
        ((n / 0x100) % 0x100) as u8,
        (n % 0x100) as u8,
    ];
    assert(info@ =~= label_message(n as nat));
    crate::primitives::derive(chain_key.as_slice(), info.as_slice())
}

/// Derives the chain key that follows a chain key.
fn derive_next_chain_key(chain_key: &[u8; 32]) -> (r: Result<[u8; 32], CoreError>)
    ensures
        r matches Ok(key) && key@ == next_chain_key(chain_key@),
{
    let info: [u8; 2] = [0x63, 0x6b];
    assert(info@ =~= label_chain());
    crate::primitives::derive(chain_key.as_slice(), info.as_slice())
}


/// The three keys of a ratchet step: the new root key and the chain keys of
/// the labels `ratchet-send` and `ratchet-recv`.
fn derive_step_keys(root_key: &[u8; 32]) -> (r: Result<([u8; 32], [u8; 32], [u8; 32]), CoreError>)
    ensures
        r matches Ok(keys) && {
            &&& keys.0@ == derive_key(root_key@, label_root())
            &&& keys.1@ == derive_key(root_key@, label_send())
            &&& keys.2@ == derive_key(root_key@, label_recv())
        },
{
    let root_info: [u8; 12] = [
        0x72,
        0x61,
        0x74,
        0x63,
        0x68,
        0x65,
        0x74,
        0x2d,
        0x72,
        0x6f,
        0x6f,
        0x74,
    ];
    let send_info: [u8; 12] = [
        0x72,
        0x61,
        0x74,
        0x63,
        0x68,
        0x65,
        0x74,
        0x2d,
        0x73,
        0x65,
        0x6e,
        0x64,
    ];
    let recv_info: [u8; 12] = [
        0x72,
        0x61,
        0x74,
        0x63,
        0x68,
        0x65,
        0x74,
        0x2d,
        0x72,
        0x65,
        0x63,
        0x76,
    ];
    assert(root_info@ =~= label_root());
    assert(send_info@ =~= label_send());
    assert(recv_info@ =~= label_recv());
    let new_root = crate::primitives::derive(root_key.as_slice(), root_info.as_slice())?;
    let first = crate::primitives::derive(root_key.as_slice(), send_info.as_slice())?;
    let second = crate::primitives::derive(root_key.as_slice(), recv_info.as_slice())?;
    Ok((new_root, first, second))
}

/// A copy of a buffer of skipped keys.
fn copy_skipped(entries: &Vec<(u32, [u8; 32])>) -> (copy: Vec<(u32, [u8; 32])>)
    ensures
        copy@ == entries@,
{
    let mut copy: Vec<(u32, [u8; 32])> = Vec::new();
    let mut i: usize = 0;
    while i < entries.len()
        invariant
            i <= entries@.len(),
            copy@ == entries@.subrange(0, i as int),
        decreases entries@.len() - i,
    {
        let entry = entries[i];
        copy.push(entry);
        assert(copy@ =~= entries@.subrange(0, i + 1));
        i += 1;
    }
    assert(copy@ =~= entries@);
    copy
}

/// Adds an entry to a buffer of skipped keys; at the cap the oldest entry
/// leaves first.
fn push_skipped(buffer: &mut Vec<(u32, [u8; 32])>, counter: u32, key: [u8; 32])
    requires
        old(buffer)@.len() <= MAX_SKIPPED_KEYS,
    ensures
        final(buffer)@.len() <= MAX_SKIPPED_KEYS,
        skipped_view(final(buffer)@) == push_bounded(
            skipped_view(old(buffer)@),
            (counter as nat, key@),
        ),
        old(buffer)@.len() < MAX_SKIPPED_KEYS ==> final(buffer)@ == old(buffer)@.push(
            (counter, key),
        ),
        old(buffer)@.len() == MAX_SKIPPED_KEYS ==> final(buffer)@ == old(buffer)@.subrange(
            1,
            MAX_SKIPPED_KEYS as int,
        ).push((counter, key)),
{
    let ghost before = buffer@;
    if buffer.len() >= MAX_SKIPPED_KEYS {
        buffer.remove(0);
        assert(buffer@ =~= before.subrange(1, before.len() as int));
    }
    buffer.push((counter, key));
    assert(skipped_view(buffer@) =~= push_bounded(skipped_view(before), (counter as nat, key@)));
}

/// The place of the oldest buffered key for a counter, if there is one.
fn find_skipped(buffer: &Vec<(u32, [u8; 32])>, counter: u32) -> (r: Option<usize>)
    ensures
        match r {
            Some(i) => is_first_skipped(skipped_view(buffer@), counter as nat, i as int),
            None => !has_skipped(skipped_view(buffer@), counter as nat),
        },
{
    let mut i: usize = 0;
    while i < buffer.len()
        invariant
            i <= buffer@.len(),
            forall|j: int| 0 <= j < i ==> (#[trigger] skipped_view(buffer@)[j]).0 != counter as nat,
        decreases buffer@.len() - i,
    {
        if buffer[i].0 == counter {
            return Some(i);
        }
        i += 1;
    }
    None
}

/// The content of what receiving returns.
pub open spec fn plain_view(r: Result<Vec<u8>, CoreError>) -> Result<Seq<u8>, CoreError> {
    match r {
        Ok(p) => Ok(p@),
        Err(e) => Err(e),
    }
}

/// The content of what sending returns.
pub open spec fn message_view(r: Result<RatchetMessage, CoreError>) -> Result<
    MessageView,
    CoreError,
> {
    match r {
        Ok(m) => Ok(m@),
        Err(e) => Err(e),
    }
}

/// Whether `msg` carries `plaintext` from a sender in state `s`: its header
/// holds the sender's counter and public key, and its payload opens to the
/// plaintext under the message key of that counter.
pub open spec fn is_sent(s: RatchetState, msg: MessageView, plaintext: Seq<u8>) -> bool {
    &&& s.sending_chain_key is Some
    &&& s.local_dh_public == Some(msg.dh_public)
    &&& msg.counter == s.sending_message_number
    &&& msg.counter < u32::MAX
    &&& open_result(
        message_key(s.sending_chain_key.unwrap(), msg.counter),
        msg.nonce,
        msg.ciphertext,
    ) == Ok::<Seq<u8>, CoreError>(plaintext)
}

/// The state of a conversation that starts from a shared secret: the
/// secret is the root key, there are no chains yet, and nothing is
/// buffered.
pub open spec fn initial(shared_secret: Seq<u8>) -> RatchetState {
    RatchetState {
        root_key: shared_secret,
        sending_chain_key: None,
        receiving_chain_key: None,
        sending_message_number: 0,
        receiving_message_number: 0,
        skipped: Seq::empty(),
        local_dh_public: None,
        remote_dh_public: None,
    }
}

impl DoubleRatchet {
    /// The buffer of skipped keys is within its cap.
    pub open spec fn wf(&self) -> bool {
        self.skipped_message_keys@.len() <= MAX_SKIPPED_KEYS
    }

    /// Starts a conversation from the shared secret of session
    /// establishment.
    pub fn initialize(shared_secret: &[u8; 32]) -> (ratchet: Self)
        ensures
            ratchet@ == initial(shared_secret@),
            ratchet.wf(),
    {
        let ratchet = DoubleRatchet {
            root_key: *shared_secret,
            sending_chain_key: None,
            receiving_chain_key: None,
            sending_message_number: 0,
            receiving_message_number: 0,
            skipped_message_keys: Vec::new(),
            local_dh_public: None,
            remote_dh_public: None,
        };
        assert(ratchet@.skipped =~= Seq::empty());
        ratchet
    }

    /// Ratchet step on seeing a new remote public key: derives the new root
    /// key and both chain keys from the root key and starts both counters
    /// again at zero. The buffer of skipped keys stays.
    pub fn ratchet(&mut self, new_remote_pubkey: &[u8; 32]) -> (r: Result<(), CoreError>)
        ensures
            r is Ok,
            final(self)@ == stepped(old(self)@, new_remote_pubkey@),
            final(self).skipped_message_keys == old(self).skipped_message_keys,
    {
        let keys = derive_step_keys(&self.root_key)?;
        self.root_key = keys.0;
        self.sending_chain_key = Some(keys.1);
        self.receiving_chain_key = Some(keys.2);
        self.sending_message_number = 0;
        self.receiving_message_number = 0;
        self.remote_dh_public = Some(*new_remote_pubkey);
        Ok(())
    }

    /// Ratchet step on announcing a new local public key: derives the same
    /// keys as the peer will on seeing that key, and takes the chain keys
    /// crosswise, so that what is sent from here on is received there.
    pub fn ratchet_sending(&mut self, local_pubkey: &[u8; 32]) -> (r: Result<(), CoreError>)
        ensures
            r is Ok,
            final(self)@ == announced(old(self)@, local_pubkey@),
            final(self).skipped_message_keys == old(self).skipped_message_keys,
    {
        let keys = derive_step_keys(&self.root_key)?;
        self.root_key = keys.0;
        self.sending_chain_key = Some(keys.2);
        self.receiving_chain_key = Some(keys.1);
        self.sending_message_number = 0;
        self.receiving_message_number = 0;
        self.local_dh_public = Some(*local_pubkey);
        Ok(())
    }

    /// Sets a message key aside for a message still to come. Where the
    /// buffer is at its cap, the oldest entry is dropped first; the others
    /// keep their order.
    pub fn store_skipped(&mut self, counter: u32, key: [u8; 32])
        requires
            old(self).wf(),
        ensures
            final(self).wf(),
            final(self)@ == (RatchetState {
                skipped: push_bounded(old(self)@.skipped, (counter as nat, key@)),
                ..old(self)@
            }),
            old(self).skipped_message_keys@.len() < MAX_SKIPPED_KEYS ==> final(self).skipped_message_keys@ == old(self).skipped_message_keys@.push((counter, key)),
            old(self).skipped_message_keys@.len() == MAX_SKIPPED_KEYS ==> final(self).skipped_message_keys@ == old(self).skipped_message_keys@.subrange(
                1,
                MAX_SKIPPED_KEYS as int,
            ).push((counter, key)),
    {
        push_skipped(&mut self.skipped_message_keys, counter, key);
    }

    /// Seals a plaintext with the next message key of the sending chain and
    /// the given nonce, and advances the chain. The header carries the
    /// counter and the announced public key. On failure nothing changes.
    pub fn send_with_nonce(&mut self, nonce: [u8; 12], plaintext: &[u8]) -> (r: Result<
        RatchetMessage,
        CoreError,
    >)
        ensures
            (message_view(r), final(self)@) == sent(old(self)@, nonce@, plaintext@),
            r matches Ok(msg) ==> is_sent(old(self)@, msg@, plaintext@) && msg.ciphertext@.len()
                == plaintext@.len() + TAG_LEN,
            r matches Ok(msg) ==> forall|receiver: RatchetState| #[trigger]
                in_sync(old(self)@, receiver) ==> received(receiver, msg@).0 == Ok::<
                    Seq<u8>,
                    CoreError,
                >(plaintext@),
            r is Err ==> *final(self) == *old(self),
            final(self).skipped_message_keys == old(self).skipped_message_keys,
    {
        let chain_key = match self.sending_chain_key {
            Some(k) => k,
            None => {
                return Err(CoreError::StateMissing);
            },
        };
        let dh_public = match self.local_dh_public {
            Some(k) => k,
            None => {
                return Err(CoreError::StateMissing);
            },
        };
        let n = self.sending_message_number;
        if n == u32::MAX {
            return Err(CoreError::CryptoFailure);
        }
        let key = derive_message_key(&chain_key, n)?;
        let next = derive_next_chain_key(&chain_key)?;
        let ciphertext = crate::primitives::seal(&key, &nonce, plaintext)?;
        let ghost before = self@;
        self.sending_chain_key = Some(next);
        self.sending_message_number = n + 1;
        let msg = RatchetMessage { counter: n, dh_public, nonce, ciphertext };
        assert forall|receiver: RatchetState| #[trigger] in_sync(before, receiver) implies received(
            receiver,
            msg@,
        ).0 == Ok::<Seq<u8>, CoreError>(plaintext@) by {
            lemma_send_then_receive(before, receiver, msg@, plaintext@);
        }
        Ok(msg)
    }

    /// Seals a plaintext with the next message key of the sending chain and
    /// a fresh random nonce, and advances the chain.
    pub fn send(&mut self, plaintext: &[u8]) -> (r: Result<RatchetMessage, CoreError>)
        ensures
            r matches Ok(msg) ==> (Ok::<MessageView, CoreError>(msg@), final(self)@) == sent(
                old(self)@,
                msg.nonce@,
                plaintext@,
            ) && is_sent(old(self)@, msg@, plaintext@),
            r matches Ok(msg) ==> forall|receiver: RatchetState| #[trigger]
                in_sync(old(self)@, receiver) ==> received(receiver, msg@).0 == Ok::<
                    Seq<u8>,
                    CoreError,
                >(plaintext@),
            r matches Err(e) ==> *final(self) == *old(self) && e == sent(
                old(self)@,
                Seq::empty(),
                plaintext@,
            ).0->Err_0,
            r is Ok <==> sent(old(self)@, Seq::empty(), plaintext@).0 is Ok,
    {
        let nonce = crate::primitives::random_nonce();
        self.send_with_nonce(nonce, plaintext)
    }

    /// Opens a message and advances the receiving side. A buffered key for
    /// the counter is used first; otherwise the chain is advanced to the
    /// counter, after a ratchet step where the header shows a new public
    /// key, and the keys passed over are set aside. A message that does not
    /// open leaves the state as it was.
    pub fn receive(&mut self, message: &RatchetMessage) -> (r: Result<Vec<u8>, CoreError>)
        requires
            old(self).wf(),
        ensures
            final(self).wf(),
            (plain_view(r), final(self)@) == received(old(self)@, message@),
            r is Err ==> *final(self) == *old(self),
    {
        let m = message.counter;
        let ghost s = self@;
        match find_skipped(&self.skipped_message_keys, m) {
            Some(i) => {
                proof {
                    lemma_first_skipped(s.skipped, m as nat, i as int);
                }
                let key = self.skipped_message_keys[i].1;
                match crate::primitives::open(&key, &message.nonce, message.ciphertext.as_slice()) {
                    Ok(plain) => {
                        self.skipped_message_keys.remove(i);
                        assert(self@.skipped =~= s.skipped.remove(i as int));
                        Ok(plain)
                    },
                    Err(_) => Err(CoreError::AuthFailure),
                }
            },
            None => {
                let same = match &self.remote_dh_public {
                    Some(seen) => keys_equal(seen, &message.dh_public),
                    None => false,
                };
                let mut root = self.root_key;
                let mut sending = self.sending_chain_key;
                let mut receiving = self.receiving_chain_key;
                let mut n_s = self.sending_message_number;
                let mut n_r = self.receiving_message_number;
                if !same {
                    let keys = derive_step_keys(&self.root_key)?;
                    root = keys.0;
                    sending = Some(keys.1);
                    receiving = Some(keys.2);
                    n_s = 0;
                    n_r = 0;
                }
                let ghost t = if same {
                    s
                } else {
                    stepped(s, message.dh_public@)
                };
                let start = match receiving {
                    Some(k) => k,
                    None => {
                        return Err(CoreError::StateMissing);
                    },
                };
                if m < n_r || m == u32::MAX {
                    return Err(CoreError::ReplayOrStale);
                }
                let mut buffer = copy_skipped(&self.skipped_message_keys);
                let mut chain_key = start;
                let mut n = n_r;
                while n < m
                    invariant
                        n_r <= n <= m,
                        buffer@.len() <= MAX_SKIPPED_KEYS,
                        skip_to(skipped_view(buffer@), chain_key@, n as nat, m as nat) == skip_to(
                            t.skipped,
                            start@,
                            n_r as nat,
                            m as nat,
                        ),
                    decreases m - n,
                {
                    let key = derive_message_key(&chain_key, n)?;
                    let next = derive_next_chain_key(&chain_key)?;
                    push_skipped(&mut buffer, n, key);
                    chain_key = next;
                    n += 1;
                }
                let key = derive_message_key(&chain_key, m)?;
                let next = derive_next_chain_key(&chain_key)?;
                match crate::primitives::open(&key, &message.nonce, message.ciphertext.as_slice()) {
                    Ok(plain) => {
                        self.root_key = root;
                        self.sending_chain_key = sending;
                        self.receiving_chain_key = Some(next);
                        self.sending_message_number = n_s;
                        self.receiving_message_number = m + 1;
                        self.skipped_message_keys = buffer;
                        self.remote_dh_public = Some(message.dh_public);
                        Ok(plain)
                    },
                    Err(_) => Err(CoreError::AuthFailure),
                }
            },
        }
    }
}

/// The oldest key for a counter has one place only.
pub proof fn lemma_first_skipped(buffer: Seq<(nat, Seq<u8>)>, counter: nat, i: int)
    requires
        is_first_skipped(buffer, counter, i),
    ensures
        has_skipped(buffer, counter),
        first_skipped(buffer, counter) == i,
{
    let j = first_skipped(buffer, counter);
    assert(is_first_skipped(buffer, counter, j));
    if j < i {
        assert(buffer[j].0 != counter);
    }
    if i < j {
        assert(buffer[i].0 != counter);
    }
}


/// Whether a receiver is in step with a sender: the receiving chain is the
/// sender's sending chain at the same counter, the sender's announced
/// public key is the one last seen, and no key is buffered for a counter
/// that the sender has yet to use.
pub open spec fn in_sync(sender: RatchetState, receiver: RatchetState) -> bool {
    &&& sender.sending_chain_key is Some
    &&& sender.local_dh_public is Some
    &&& receiver.receiving_chain_key == sender.sending_chain_key
    &&& receiver.receiving_message_number == sender.sending_message_number
    &&& receiver.remote_dh_public == sender.local_dh_public
    &&& forall|i: int|
        0 <= i < receiver.skipped.len() ==> (#[trigger] receiver.skipped[i]).0
            < sender.sending_message_number
}

/// The sender's state after one more message.
pub open spec fn sender_advanced(s: RatchetState) -> RatchetState {
    RatchetState {
        sending_chain_key: Some(next_chain_key(s.sending_chain_key.unwrap())),
        sending_message_number: s.sending_message_number + 1,
        ..s
    }
}

/// The receiver's state after the next message of the chain.
pub open spec fn receiver_advanced(r: RatchetState) -> RatchetState {
    RatchetState {
        receiving_chain_key: Some(next_chain_key(r.receiving_chain_key.unwrap())),
        receiving_message_number: r.receiving_message_number + 1,
        ..r
    }
}

/// Send, then receive: a receiver in step with the sender opens what was
/// sent to exactly the plaintext, advances by one message, and is in step
/// with the sender again.
pub proof fn lemma_send_then_receive(
    sender: RatchetState,
    receiver: RatchetState,
    msg: MessageView,
    plaintext: Seq<u8>,
)
    requires
        in_sync(sender, receiver),
        is_sent(sender, msg, plaintext),
    ensures
        received(receiver, msg) == (
            Ok::<Seq<u8>, CoreError>(plaintext),
            receiver_advanced(receiver),
        ),
        in_sync(sender_advanced(sender), receiver_advanced(receiver)),
{
    assert(!has_skipped(receiver.skipped, msg.counter));
    assert(received(receiver, msg).1 =~= receiver_advanced(receiver));
}

/// A counter that the receiving chain has passed, with no key buffered for
/// it, is refused as `ReplayOrStale`, and the state stays as it was.
pub proof fn lemma_passed_counter_is_stale(receiver: RatchetState, msg: MessageView)
    requires
        receiver.remote_dh_public == Some(msg.dh_public),
        receiver.receiving_chain_key is Some,
        msg.counter < receiver.receiving_message_number,
        !has_skipped(receiver.skipped, msg.counter),
    ensures
        received(receiver, msg) == (
            Err::<Seq<u8>, CoreError>(CoreError::ReplayOrStale),
            receiver,
        ),
{
}

/// Setting keys aside buffers no key for a counter outside the range that
/// is passed over.
pub proof fn lemma_skip_to_counters(
    buffer: Seq<(nat, Seq<u8>)>,
    chain_key: Seq<u8>,
    from: nat,
    to: nat,
    counter: nat,
)
    requires
        !has_skipped(buffer, counter),
        counter < from || to <= counter,
    ensures
        !has_skipped(skip_to(buffer, chain_key, from, to).0, counter),
    decreases to - from,
{
    if from < to {
        let entry = (from, message_key(chain_key, from));
        let pushed = push_bounded(buffer, entry);
        assert forall|i: int| 0 <= i < pushed.len() implies (#[trigger] pushed[i]).0
            != counter by {
            if buffer.len() >= MAX_SKIPPED_KEYS {
                if i < pushed.len() - 1 {
                    assert(pushed[i] == buffer[i + 1]);
                }
            } else {
                if i < pushed.len() - 1 {
                    assert(pushed[i] == buffer[i]);
                }
            }
        }
        lemma_skip_to_counters(pushed, next_chain_key(chain_key), from + 1, to, counter);
    }
}

/// Replay after the chain: a message that was accepted with a key taken
/// from the chain is refused as `ReplayOrStale` when it is delivered again,
/// and the state stays as it was.
pub proof fn lemma_replay_is_stale(receiver: RatchetState, msg: MessageView)
    requires
        !has_skipped(receiver.skipped, msg.counter),
        received(receiver, msg).0 is Ok,
    ensures
        received(received(receiver, msg).1, msg) == (
            Err::<Seq<u8>, CoreError>(CoreError::ReplayOrStale),
            received(receiver, msg).1,
        ),
{
    let t = if receiver.remote_dh_public == Some(msg.dh_public) {
        receiver
    } else {
        stepped(receiver, msg.dh_public)
    };
    lemma_skip_to_counters(
        t.skipped,
        t.receiving_chain_key.unwrap(),
        t.receiving_message_number,
        msg.counter,
        msg.counter,
    );
}

/// Where a key is buffered for a counter, there is an oldest one.
pub proof fn lemma_oldest_exists(buffer: Seq<(nat, Seq<u8>)>, counter: nat, k: int)
    requires
        0 <= k < buffer.len(),
        buffer[k].0 == counter,
    ensures
        is_first_skipped(buffer, counter, first_skipped(buffer, counter)),
    decreases k,
{
    if exists|j: int| 0 <= j < k && (#[trigger] buffer[j]).0 == counter {
        let j = choose|j: int| 0 <= j < k && (#[trigger] buffer[j]).0 == counter;
        lemma_oldest_exists(buffer, counter, j);
    } else {
        assert(is_first_skipped(buffer, counter, k));
    }
}

/// Whether no two buffered keys are for the same counter.
pub open spec fn counters_distinct(buffer: Seq<(nat, Seq<u8>)>) -> bool {
    forall|i: int, j: int|
        0 <= i < j < buffer.len() ==> (#[trigger] buffer[i]).0 != (#[trigger] buffer[j]).0
}

/// Replay after the buffer: a message of the current chain that was
/// accepted with a buffered key is refused as `ReplayOrStale` when it is
/// delivered again, where no two buffered keys are for one counter.
pub proof fn lemma_buffered_replay_is_stale(receiver: RatchetState, msg: MessageView)
    requires
        has_skipped(receiver.skipped, msg.counter),
        counters_distinct(receiver.skipped),
        receiver.remote_dh_public == Some(msg.dh_public),
        receiver.receiving_chain_key is Some,
        msg.counter < receiver.receiving_message_number,
        received(receiver, msg).0 is Ok,
    ensures
        received(received(receiver, msg).1, msg) == (
            Err::<Seq<u8>, CoreError>(CoreError::ReplayOrStale),
            received(receiver, msg).1,
        ),
{
    let i = first_skipped(receiver.skipped, msg.counter);
    let k = choose|k: int|
        0 <= k < receiver.skipped.len() && (#[trigger] receiver.skipped[k]).0 == msg.counter;
    lemma_oldest_exists(receiver.skipped, msg.counter, k);
    let rest = receiver.skipped.remove(i);
    assert forall|j: int| 0 <= j < rest.len() implies (#[trigger] rest[j]).0 != msg.counter by {
        if j < i {
            assert(rest[j] == receiver.skipped[j]);
        } else {
            assert(rest[j] == receiver.skipped[j + 1]);
        }
    }
    assert(!has_skipped(rest, msg.counter));
}

} // verus!
