//! Delivery out of order: what a receiver makes of the messages of one
//! chain when they arrive in any order.
//!
//! A sender in step with a receiver sends a run of messages. The receiver
//! gets some of them, each once, in whatever order. As long as the keys set
//! aside never outgrow the buffer, every message opens to its plaintext,
//! and a message that arrives a second time is refused.

use vstd::prelude::*;
use crate::error::CoreError;
use crate::ratchet::chain_key_after;
use crate::ratchet::has_skipped;
use crate::ratchet::in_sync;
use crate::ratchet::is_first_skipped;
use crate::ratchet::is_sent;
use crate::ratchet::lemma_first_skipped;
use crate::ratchet::lemma_passed_counter_is_stale;
use crate::ratchet::message_key;
use crate::ratchet::next_chain_key;
use crate::ratchet::push_bounded;
use crate::ratchet::received;
use crate::ratchet::sender_advanced;
use crate::ratchet::skip_to;
use crate::ratchet::MessageView;
use crate::ratchet::RatchetState;
use crate::ratchet::MAX_SKIPPED_KEYS;

verus! {

/// The sender's state after `i` more messages.
pub open spec fn sender_after(s: RatchetState, i: nat) -> RatchetState
    decreases i,
{
    if i == 0 {
        s
    } else {
        sender_advanced(sender_after(s, (i - 1) as nat))
    }
}

/// Whether the messages were sent one after the other from state `s`, each
/// carrying the plaintext of its place.
pub open spec fn sent_in_order(s: RatchetState, msgs: Seq<MessageView>, plains: Seq<Seq<u8>>) -> bool {
    &&& msgs.len() == plains.len()
    &&& forall|i: int|
        0 <= i < msgs.len() ==> is_sent(sender_after(s, i as nat), #[trigger] msgs[i], plains[i])
}

/// Whether `order` names messages of the run, none of them twice.
pub open spec fn is_delivery_order(order: Seq<int>, count: nat) -> bool {
    &&& forall|i: int| 0 <= i < order.len() ==> 0 <= #[trigger] order[i] < count
    &&& forall|i: int, j: int| 0 <= i < j < order.len() ==> order[i] != order[j]
}

/// The messages among the first `k` of the order.
pub open spec fn delivered_set(order: Seq<int>, k: int) -> Set<int>
    decreases k,
{
    if k <= 0 {
        Set::empty()
    } else {
        delivered_set(order, k - 1).insert(order[k - 1])
    }
}

/// One more than the latest message among the first `k` of the order.
pub open spec fn high(order: Seq<int>, k: int) -> int
    decreases k,
{
    if k <= 0 {
        0
    } else if order[k - 1] + 1 > high(order, k - 1) {
        order[k - 1] + 1
    } else {
        high(order, k - 1)
    }
}

/// The messages before `hi` that are still to come, earliest first.
pub open spec fn pending(hi: int, done: Set<int>) -> Seq<int>
    decreases hi,
{
    if hi <= 0 {
        Seq::empty()
    } else if done.contains(hi - 1) {
        pending(hi - 1, done)
    } else {
        pending(hi - 1, done).push(hi - 1)
    }
}

/// The buffer entry of the `i`-th message of a chain that starts with
/// `chain` at counter `base`.
pub open spec fn entry(chain: Seq<u8>, base: nat, i: int) -> (nat, Seq<u8>) {
    ((base + i) as nat, message_key(chain_key_after(chain, i as nat), (base + i) as nat))
}

/// The buffer entries of the messages from `a` up to, not including, `b`.
pub open spec fn entries(chain: Seq<u8>, base: nat, a: int, b: int) -> Seq<(nat, Seq<u8>)> {
    Seq::new((b - a) as nat, |i: int| entry(chain, base, a + i))
}

/// The buffer entries of the messages still to come.
pub open spec fn pending_entries(chain: Seq<u8>, base: nat, hi: int, done: Set<int>) -> Seq<
    (nat, Seq<u8>),
> {
    Seq::new(pending(hi, done).len(), |i: int| entry(chain, base, pending(hi, done)[i]))
}

/// The receiver's state once the messages in `done` have arrived, the
/// latest of them being the one before `hi`: the chain stands after the
/// latest, and the keys of those still to come are set aside, earliest
/// first, behind what was buffered before.
pub open spec fn state_after(
    receiver: RatchetState,
    chain: Seq<u8>,
    base: nat,
    hi: int,
    done: Set<int>,
) -> RatchetState {
    RatchetState {
        skipped: receiver.skipped + pending_entries(chain, base, hi, done),
        receiving_chain_key: Some(chain_key_after(chain, hi as nat)),
        receiving_message_number: (base + hi) as nat,
        ..receiver
    }
}

/// The receiver's state after the first `k` deliveries of the order.
pub open spec fn delivered(
    receiver: RatchetState,
    msgs: Seq<MessageView>,
    order: Seq<int>,
    k: int,
) -> RatchetState
    decreases k,
{
    if k <= 0 {
        receiver
    } else {
        received(delivered(receiver, msgs, order, k - 1), msgs[order[k - 1]]).1
    }
}

/// Whether the keys set aside never outgrow the buffer: at every point of
/// the delivery, what was buffered at the start and the keys of the
/// messages still to come are within the cap.
pub open spec fn within_cap(held: nat, order: Seq<int>) -> bool {
    forall|k: int|
        0 <= k <= order.len() ==> held + (#[trigger] pending(
            high(order, k),
            delivered_set(order, k),
        )).len() <= MAX_SKIPPED_KEYS
}

/// The sender's state after `i` messages: the chain has advanced `i` times
/// and the counter by `i`; nothing else has changed.
pub proof fn lemma_sender_after(s: RatchetState, i: nat)
    requires
        s.sending_chain_key is Some,
    ensures
        sender_after(s, i) == (RatchetState {
            sending_chain_key: Some(chain_key_after(s.sending_chain_key.unwrap(), i)),
            sending_message_number: s.sending_message_number + i,
            ..s
        }),
    decreases i,
{
    if i > 0 {
        lemma_sender_after(s, (i - 1) as nat);
    }
}

/// What is still to come lies before `hi`, is not yet delivered, and is
/// listed earliest first.
pub proof fn lemma_pending_props(hi: int, done: Set<int>)
    ensures
        pending(hi, done).len() <= if hi <= 0 {
            0
        } else {
            hi
        },
        forall|i: int|
            0 <= i < pending(hi, done).len() ==> 0 <= #[trigger] pending(hi, done)[i] < hi
                && !done.contains(pending(hi, done)[i]),
        forall|i: int, j: int|
            0 <= i < j < pending(hi, done).len() ==> pending(hi, done)[i] < pending(hi, done)[j],
    decreases hi,
{
    if hi > 0 {
        lemma_pending_props(hi - 1, done);
    }
}

/// A message at or after `hi` does not change what is to come before `hi`.
pub proof fn lemma_pending_ignores(hi: int, done: Set<int>, j: int)
    requires
        j >= hi,
    ensures
        pending(hi, done.insert(j)) == pending(hi, done),
    decreases hi,
{
    if hi > 0 {
        lemma_pending_ignores(hi - 1, done, j);
    }
}

/// Where nothing between `lo` and `hi` is delivered, all of it is to come.
pub proof fn lemma_pending_range(lo: int, hi: int, done: Set<int>)
    requires
        0 <= lo <= hi,
        forall|x: int| lo <= x < hi ==> !done.contains(x),
    ensures
        pending(hi, done) == pending(lo, done) + Seq::new((hi - lo) as nat, |i: int| lo + i),
    decreases hi - lo,
{
    if lo < hi {
        lemma_pending_range(lo, hi - 1, done);
        assert(pending(hi, done) =~= pending(lo, done) + Seq::new(
            (hi - lo) as nat,
            |i: int| lo + i,
        ));
    } else {
        assert(pending(hi, done) =~= pending(lo, done) + Seq::new(
            (hi - lo) as nat,
            |i: int| lo + i,
        ));
    }
}

/// When a message before `hi` arrives, it leaves the list of what is to
/// come, and the rest stays in order. Returns its place in the list.
pub proof fn lemma_pending_remove(hi: int, done: Set<int>, j: int) -> (p: int)
    requires
        0 <= j < hi,
        !done.contains(j),
    ensures
        0 <= p < pending(hi, done).len(),
        pending(hi, done)[p] == j,
        pending(hi, done.insert(j)) == pending(hi, done).remove(p),
    decreases hi,
{
    if hi - 1 == j {
        lemma_pending_ignores(hi - 1, done, j);
        let p = pending(hi - 1, done).len() as int;
        assert(pending(hi, done).remove(p) =~= pending(hi - 1, done));
        p
    } else {
        let p = lemma_pending_remove(hi - 1, done, j);
        if !done.contains(hi - 1) {
            assert(pending(hi, done.insert(j)) =~= pending(hi, done).remove(p));
        }
        p
    }
}

/// What has been delivered is what the order names so far, and all of it
/// lies before `high`.
pub proof fn lemma_delivered_set(order: Seq<int>, k: int)
    requires
        0 <= k <= order.len(),
        forall|i: int| 0 <= i < order.len() ==> 0 <= #[trigger] order[i],
    ensures
        high(order, k) >= 0,
        forall|x: int| #[trigger]
            delivered_set(order, k).contains(x) <==> exists|i: int|
                0 <= i < k && #[trigger] order[i] == x,
        forall|x: int| #[trigger] delivered_set(order, k).contains(x) ==> 0 <= x < high(order, k),
    decreases k,
{
    if k > 0 {
        lemma_delivered_set(order, k - 1);
        assert forall|x: int| #[trigger]
            delivered_set(order, k).contains(x) implies exists|i: int|
            0 <= i < k && #[trigger] order[i] == x by {
            if x == order[k - 1] {
                assert(order[k - 1] == x);
            } else {
                assert(delivered_set(order, k - 1).contains(x));
                let i = choose|i: int| 0 <= i < k - 1 && #[trigger] order[i] == x;
                assert(0 <= i < k && order[i] == x);
            }
        }
        assert forall|x: int|
            (exists|i: int| 0 <= i < k && #[trigger] order[i] == x) implies #[trigger] delivered_set(
            order,
            k,
        ).contains(x) by {
            let i = choose|i: int| 0 <= i < k && #[trigger] order[i] == x;
            if i < k - 1 {
                assert(delivered_set(order, k - 1).contains(x));
            }
        }
        assert forall|x: int| #[trigger] delivered_set(order, k).contains(x) implies 0 <= x < high(
            order,
            k,
        ) by {
            if x == order[k - 1] {
                assert(0 <= order[k - 1]);
            } else {
                assert(delivered_set(order, k - 1).contains(x));
            }
        }
    }
}

/// Setting aside the keys of the messages from `a` up to `b` appends their
/// entries and advances the chain to `b`, where the buffer has room for
/// them.
pub proof fn lemma_skip_within_cap(
    buffer: Seq<(nat, Seq<u8>)>,
    chain: Seq<u8>,
    base: nat,
    a: int,
    b: int,
)
    requires
        0 <= a <= b,
        buffer.len() + (b - a) <= MAX_SKIPPED_KEYS,
    ensures
        skip_to(buffer, chain_key_after(chain, a as nat), (base + a) as nat, (base + b) as nat)
            == (buffer + entries(chain, base, a, b), chain_key_after(chain, b as nat)),
    decreases b - a,
{
    if a < b {
        let pushed = push_bounded(buffer, entry(chain, base, a));
        assert(pushed == buffer.push(entry(chain, base, a)));
        assert(next_chain_key(chain_key_after(chain, a as nat)) == chain_key_after(
            chain,
            (a + 1) as nat,
        ));
        lemma_skip_within_cap(pushed, chain, base, a + 1, b);
        assert(pushed + entries(chain, base, a + 1, b) =~= buffer + entries(chain, base, a, b));
    } else {
        assert(buffer + entries(chain, base, a, b) =~= buffer);
    }
}

/// No key is buffered for a message that has arrived.
pub proof fn lemma_arrived_not_buffered(
    held: Seq<(nat, Seq<u8>)>,
    chain: Seq<u8>,
    base: nat,
    hi: int,
    done: Set<int>,
    j: int,
)
    requires
        forall|i: int| 0 <= i < held.len() ==> (#[trigger] held[i]).0 < base,
        0 <= j,
        done.contains(j) || j >= hi,
    ensures
        !has_skipped(held + pending_entries(chain, base, hi, done), (base + j) as nat),
{
    lemma_pending_props(hi, done);
    let buffer = held + pending_entries(chain, base, hi, done);
    assert forall|i: int| 0 <= i < buffer.len() implies (#[trigger] buffer[i]).0 != (base
        + j) as nat by {
        if i >= held.len() {
            let q = i - held.len();
            assert(buffer[i] == entry(chain, base, pending(hi, done)[q]));
        }
    }
}

/// One delivery: from the state after the first `k` deliveries, the next
/// message of the order opens to its plaintext and leaves the state after
/// `k + 1` deliveries.
pub proof fn lemma_delivery_step(
    sender: RatchetState,
    receiver: RatchetState,
    msgs: Seq<MessageView>,
    plains: Seq<Seq<u8>>,
    order: Seq<int>,
    k: int,
)
    requires
        in_sync(sender, receiver),
        sent_in_order(sender, msgs, plains),
        is_delivery_order(order, msgs.len()),
        within_cap(receiver.skipped.len(), order),
        0 <= k < order.len(),
    ensures
        received(
            state_after(
                receiver,
                sender.sending_chain_key.unwrap(),
                sender.sending_message_number,
                high(order, k),
                delivered_set(order, k),
            ),
            msgs[order[k]],
        ) == (
            Ok::<Seq<u8>, CoreError>(plains[order[k]]),
            state_after(
                receiver,
                sender.sending_chain_key.unwrap(),
                sender.sending_message_number,
                high(order, k + 1),
                delivered_set(order, k + 1),
            ),
        ),
{
    let chain = sender.sending_chain_key.unwrap();
    let base = sender.sending_message_number;
    let hi = high(order, k);
    let done = delivered_set(order, k);
    let j = order[k];
    let msg = msgs[j];
    let before = state_after(receiver, chain, base, hi, done);
    let after = state_after(receiver, chain, base, high(order, k + 1), delivered_set(order, k + 1));
    lemma_delivered_set(order, k);
    lemma_sender_after(sender, j as nat);
    assert(is_sent(sender_after(sender, j as nat), msgs[j], plains[j]));
    lemma_pending_props(hi, done);
    assert(!done.contains(j)) by {
        if done.contains(j) {
            let i = choose|i: int| 0 <= i < k && #[trigger] order[i] == j;
            assert(order[i] != order[k]);
        }
    }
    assert(delivered_set(order, k + 1) == done.insert(j));
    assert(held_within(receiver.skipped.len(), order, k));
    assert(held_within(receiver.skipped.len(), order, k + 1));
    if j >= hi {
        lemma_arrived_not_buffered(receiver.skipped, chain, base, hi, done, j);
        assert(high(order, k + 1) == j + 1);
        assert forall|x: int| hi <= x < j implies !done.insert(j).contains(x) by {}
        lemma_pending_range(hi, j, done.insert(j));
        lemma_pending_ignores(hi, done, j);
        assert(pending(j + 1, done.insert(j)) == pending(j, done.insert(j)));
        let fresh = Seq::new((j - hi) as nat, |i: int| hi + i);
        assert(pending(j + 1, done.insert(j)) == pending(hi, done) + fresh);
        lemma_skip_within_cap(before.skipped, chain, base, hi, j);
        assert(before.skipped + entries(chain, base, hi, j) =~= after.skipped);
        assert(received(before, msg).1 =~= after);
    } else {
        let p = lemma_pending_remove(hi, done, j);
        let at = receiver.skipped.len() + p;
        assert(high(order, k + 1) == hi);
        assert(before.skipped[at] == entry(chain, base, j));
        assert forall|i: int| 0 <= i < at implies (#[trigger] before.skipped[i]).0 != msg.counter by {
            if i >= receiver.skipped.len() {
                let q = i - receiver.skipped.len();
                assert(before.skipped[i] == entry(chain, base, pending(hi, done)[q]));
                assert(pending(hi, done)[q] < pending(hi, done)[p]);
            }
        }
        assert(is_first_skipped(before.skipped, msg.counter, at));
        lemma_first_skipped(before.skipped, msg.counter, at);
        assert(before.skipped.remove(at) =~= after.skipped);
        assert(received(before, msg).1 =~= after);
    }
}

/// What `within_cap` says of the first `k` deliveries.
pub open spec fn held_within(held: nat, order: Seq<int>, k: int) -> bool {
    held + pending(high(order, k), delivered_set(order, k)).len() <= MAX_SKIPPED_KEYS
}

/// The state after the first `k` deliveries is the one that `state_after`
/// describes.
pub proof fn lemma_delivered_state(
    sender: RatchetState,
    receiver: RatchetState,
    msgs: Seq<MessageView>,
    plains: Seq<Seq<u8>>,
    order: Seq<int>,
    k: int,
)
    requires
        in_sync(sender, receiver),
        sent_in_order(sender, msgs, plains),
        is_delivery_order(order, msgs.len()),
        within_cap(receiver.skipped.len(), order),
        0 <= k <= order.len(),
    ensures
        delivered(receiver, msgs, order, k) == state_after(
            receiver,
            sender.sending_chain_key.unwrap(),
            sender.sending_message_number,
            high(order, k),
            delivered_set(order, k),
        ),
    decreases k,
{
    let chain = sender.sending_chain_key.unwrap();
    let base = sender.sending_message_number;
    if k == 0 {
        assert(pending_entries(chain, base, 0, Set::<int>::empty()) =~= Seq::empty());
        assert(receiver.skipped + Seq::<(nat, Seq<u8>)>::empty() =~= receiver.skipped);
        assert(delivered(receiver, msgs, order, 0) =~= state_after(
            receiver,
            chain,
            base,
            0,
            Set::<int>::empty(),
        ));
    } else {
        lemma_delivered_state(sender, receiver, msgs, plains, order, k - 1);
        lemma_delivery_step(sender, receiver, msgs, plains, order, k - 1);
    }
}

/// Delivery in any order: each message of the order opens to exactly its
/// plaintext when it arrives, whatever arrived before it.
pub proof fn lemma_any_order_decrypts(
    sender: RatchetState,
    receiver: RatchetState,
    msgs: Seq<MessageView>,
    plains: Seq<Seq<u8>>,
    order: Seq<int>,
    k: int,
)
    requires
        in_sync(sender, receiver),
        sent_in_order(sender, msgs, plains),
        is_delivery_order(order, msgs.len()),
        within_cap(receiver.skipped.len(), order),
        0 <= k < order.len(),
    ensures
        received(delivered(receiver, msgs, order, k), msgs[order[k]]).0 == Ok::<
            Seq<u8>,
            CoreError,
        >(plains[order[k]]),
{
    lemma_delivered_state(sender, receiver, msgs, plains, order, k);
    lemma_delivery_step(sender, receiver, msgs, plains, order, k);
}

/// Exactly once: a message that has arrived is refused as `ReplayOrStale`
/// when it arrives again, at any later point of the delivery, and the
/// state stays as it was.
pub proof fn lemma_any_order_once(
    sender: RatchetState,
    receiver: RatchetState,
    msgs: Seq<MessageView>,
    plains: Seq<Seq<u8>>,
    order: Seq<int>,
    k: int,
    again: int,
)
    requires
        in_sync(sender, receiver),
        sent_in_order(sender, msgs, plains),
        is_delivery_order(order, msgs.len()),
        within_cap(receiver.skipped.len(), order),
        0 <= again < k <= order.len(),
    ensures
        received(delivered(receiver, msgs, order, k), msgs[order[again]]) == (
            Err::<Seq<u8>, CoreError>(CoreError::ReplayOrStale),
            delivered(receiver, msgs, order, k),
        ),
{
    let chain = sender.sending_chain_key.unwrap();
    let base = sender.sending_message_number;
    let j = order[again];
    lemma_delivered_state(sender, receiver, msgs, plains, order, k);
    lemma_delivered_set(order, k);
    assert(delivered_set(order, k).contains(j));
    lemma_sender_after(sender, j as nat);
    assert(is_sent(sender_after(sender, j as nat), msgs[j], plains[j]));
    lemma_arrived_not_buffered(
        receiver.skipped,
        chain,
        base,
        high(order, k),
        delivered_set(order, k),
        j,
    );
    lemma_passed_counter_is_stale(delivered(receiver, msgs, order, k), msgs[j]);
}

} // verus!
