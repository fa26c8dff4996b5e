//! Putting records in order after they were read from the store:
//! conversations with the latest first, messages by their timestamps, and
//! the page of messages before a given one.

use vstd::prelude::*;
use crate::protocol::Conversation;
use crate::protocol::LocalMessage;

verus! {

/// A record with a time by which it is ordered.
pub trait Timed: Sized {
    /// The time by which the record is ordered.
    spec fn time(&self) -> i64;

    /// The time by which the record is ordered.
    fn time_of(&self) -> (t: i64)
        ensures
            t == self.time(),
    ;
}

impl Timed for LocalMessage {
    open spec fn time(&self) -> i64 {
        self.timestamp
    }

    fn time_of(&self) -> (t: i64) {
        self.timestamp
    }
}

impl Timed for Conversation {
    open spec fn time(&self) -> i64 {
        self.updated_at
    }

    fn time_of(&self) -> (t: i64) {
        self.updated_at
    }
}

/// Whether a record of time `a` may stand before one of time `b`.
pub open spec fn in_order(a: i64, b: i64, descending: bool) -> bool {
    if descending {
        a >= b
    } else {
        a <= b
    }
}

/// Whether a record of time `a` may stand before one of time `b`.
pub fn may_precede(a: i64, b: i64, descending: bool) -> (r: bool)
    ensures
        r == in_order(a, b, descending),
{
    if descending {
        a >= b
    } else {
        a <= b
    }
}

/// Whether the records stand in the order of their times.
pub open spec fn is_ordered<T: Timed>(items: Seq<T>, descending: bool) -> bool {
    forall|i: int, j: int|
        0 <= i < j < items.len() ==> in_order(
            (#[trigger] items[i]).time(),
            (#[trigger] items[j]).time(),
            descending,
        )
}

/// Where a record of time `t` goes among ordered records: behind the last
/// one that may stand before it.
pub open spec fn place_for<T: Timed>(sorted: Seq<T>, t: i64, descending: bool) -> int
    decreases sorted.len(),
{
    if sorted.len() == 0 {
        0
    } else if in_order(sorted.last().time(), t, descending) {
        sorted.len() as int
    } else {
        place_for(sorted.drop_last(), t, descending)
    }
}

/// The records in the order of their times; records of the same time keep
/// the order they came in.
pub open spec fn stable_sorted<T: Timed>(items: Seq<T>, descending: bool) -> Seq<T>
    decreases items.len(),
{
    if items.len() == 0 {
        Seq::empty()
    } else {
        let sorted = stable_sorted(items.drop_last(), descending);
        sorted.insert(place_for(sorted, items.last().time(), descending), items.last())
    }
}

/// The place for a record lies within the sequence; every record from
/// there on must stand behind the new one, and the record just before the
/// place may stand before it.
pub proof fn lemma_place_for<T: Timed>(sorted: Seq<T>, t: i64, descending: bool)
    ensures
        0 <= place_for(sorted, t, descending) <= sorted.len(),
        forall|k: int|
            place_for(sorted, t, descending) <= k < sorted.len() ==> !in_order(
                (#[trigger] sorted[k]).time(),
                t,
                descending,
            ),
        place_for(sorted, t, descending) > 0 ==> in_order(
            sorted[place_for(sorted, t, descending) - 1].time(),
            t,
            descending,
        ),
    decreases sorted.len(),
{
    if sorted.len() > 0 && !in_order(sorted.last().time(), t, descending) {
        lemma_place_for(sorted.drop_last(), t, descending);
        let p = place_for(sorted.drop_last(), t, descending);
        assert forall|k: int| p <= k < sorted.len() implies !in_order(
            (#[trigger] sorted[k]).time(),
            t,
            descending,
        ) by {
            if k < sorted.len() - 1 {
                assert(sorted[k] == sorted.drop_last()[k]);
            }
        }
        if p > 0 {
            assert(sorted[p - 1] == sorted.drop_last()[p - 1]);
        }
    }
}

/// Sorting gives the same records, as many of each, in the order of their
/// times.
pub proof fn lemma_stable_sorted<T: Timed>(items: Seq<T>, descending: bool)
    ensures
        stable_sorted(items, descending).len() == items.len(),
        is_ordered(stable_sorted(items, descending), descending),
        stable_sorted(items, descending).to_multiset() == items.to_multiset(),
    decreases items.len(),
{
    broadcast use vstd::seq_lib::group_to_multiset_ensures;

    if items.len() == 0 {
        assert(items =~= Seq::<T>::empty());
    } else {
        let before = stable_sorted(items.drop_last(), descending);
        let x = items.last();
        let p = place_for(before, x.time(), descending);
        let after = before.insert(p, x);
        lemma_stable_sorted(items.drop_last(), descending);
        lemma_place_for(before, x.time(), descending);
        assert forall|i: int, j: int| 0 <= i < j < after.len() implies in_order(
            (#[trigger] after[i]).time(),
            (#[trigger] after[j]).time(),
            descending,
        ) by {
            if j < p {
                assert(after[i] == before[i] && after[j] == before[j]);
            } else if j == p {
                assert(after[i] == before[i]);
                if i < p - 1 {
                    assert(in_order(before[i].time(), before[p - 1].time(), descending));
                }
            } else if i < p {
                assert(after[i] == before[i] && after[j] == before[j - 1]);
                if i < j - 1 {
                    assert(in_order(before[i].time(), before[j - 1].time(), descending));
                }
            } else if i == p {
                assert(after[j] == before[j - 1]);
                assert(!in_order(before[j - 1].time(), x.time(), descending));
            } else {
                assert(after[i] == before[i - 1] && after[j] == before[j - 1]);
            }
        }
        assert(after.remove(p) =~= before);
        assert(after[p] == x);
        assert(after.to_multiset().remove(x) =~= before.to_multiset());
        assert(after.to_multiset().count(x) > 0);
        assert(after.to_multiset() =~= before.to_multiset().insert(x));
        assert(items.drop_last().push(x) =~= items);
        assert(items.to_multiset() =~= items.drop_last().to_multiset().insert(x));
    }
}

/// Sorts records by their times, ascending or descending; records of the
/// same time keep the order they came in.
pub fn sort_by_time<T: Timed>(items: Vec<T>, descending: bool) -> (sorted: Vec<T>)
    ensures
        sorted@ == stable_sorted(items@, descending),
        sorted@.len() == items@.len(),
        is_ordered(sorted@, descending),
        sorted@.to_multiset() == items@.to_multiset(),
{
    let ghost original = items@;
    let mut rest = items;
    let mut sorted: Vec<T> = Vec::new();
    assert(original.subrange(0, 0) =~= Seq::<T>::empty());
    while rest.len() > 0
        invariant
            sorted@.len() + rest@.len() == original.len(),
            sorted@ == stable_sorted(original.subrange(0, sorted@.len() as int), descending),
            rest@ == original.subrange(sorted@.len() as int, original.len() as int),
        decreases rest@.len(),
    {
        let ghost k = sorted@.len() as int;
        let x = rest.remove(0);
        let t = x.time_of();
        let mut p: usize = sorted.len();
        assert(sorted@.subrange(0, p as int) =~= sorted@);
        while p > 0 && !may_precede(sorted[p - 1].time_of(), t, descending)
            invariant
                p <= sorted@.len(),
                place_for(sorted@, t, descending) == place_for(
                    sorted@.subrange(0, p as int),
                    t,
                    descending,
                ),
            decreases p,
        {
            assert(sorted@.subrange(0, p as int).drop_last() =~= sorted@.subrange(0, p - 1));
            p -= 1;
        }
        proof {
            let prefix = original.subrange(0, k + 1);
            assert(prefix.drop_last() =~= original.subrange(0, k));
            assert(prefix.last() == x);
            assert(rest@ =~= original.subrange(k + 1, original.len() as int));
        }
        sorted.insert(p, x);
    }
    proof {
        assert(original.subrange(0, original.len() as int) =~= original);
        lemma_stable_sorted(original, descending);
    }
    sorted
}

/// Conversations with the latest update first.
pub fn latest_first(conversations: Vec<Conversation>) -> (sorted: Vec<Conversation>)
    ensures
        sorted@ == stable_sorted(conversations@, true),
        is_ordered(sorted@, true),
        sorted@.to_multiset() == conversations@.to_multiset(),
{
    sort_by_time(conversations, true)
}

/// The place of the first conversation with a contact, or the length
/// where there is none.
pub open spec fn place_of_contact(conversations: Seq<Conversation>, contact_id: Seq<char>) -> int
    decreases conversations.len(),
{
    if conversations.len() == 0 {
        0
    } else if conversations[0].contact_id@ == contact_id {
        0
    } else {
        1 + place_of_contact(conversations.drop_first(), contact_id)
    }
}

/// The first conversation with a contact, if there is one.
pub fn conversation_by_contact(conversations: Vec<Conversation>, contact_id: &str) -> (r: Option<
    Conversation,
>)
    ensures
        match r {
            Some(c) => place_of_contact(conversations@, contact_id@) < conversations@.len() && c
                == conversations@[place_of_contact(conversations@, contact_id@)],
            None => place_of_contact(conversations@, contact_id@) == conversations@.len(),
        },
{
    let id = contact_id.to_owned();
    let ghost original = conversations@;
    let mut list = conversations;
    let mut i: usize = 0;
    assert(original.subrange(0, original.len() as int) =~= original);
    while i < list.len()
        invariant
            i <= list@.len(),
            list@ == original,
            original == conversations@,
            place_of_contact(original, contact_id@) == i + place_of_contact(
                original.subrange(i as int, original.len() as int),
                contact_id@,
            ),
            id@ == contact_id@,
        decreases list@.len() - i,
    {
        let ghost rest = original.subrange(i as int, original.len() as int);
        assert(rest[0] == original[i as int]);
        if list[i].contact_id == id {
            assert(place_of_contact(rest, contact_id@) == 0);
            return Some(list.remove(i));
        }
        assert(rest.drop_first() =~= original.subrange(i + 1, original.len() as int));
        i += 1;
    }
    assert(original.subrange(i as int, original.len() as int) =~= Seq::<Conversation>::empty());
    None
}

/// The first `limit` messages as they were read, by their timestamps.
pub fn first_messages(messages: Vec<LocalMessage>, limit: usize) -> (page: Vec<LocalMessage>)
    ensures
        page@ == stable_sorted(
            messages@.subrange(
                0,
                if limit < messages@.len() {
                    limit as int
                } else {
                    messages@.len() as int
                },
            ),
            false,
        ),
        is_ordered(page@, false),
{
    let ghost original = messages@;
    let mut list = messages;
    if limit < list.len() {
        list.truncate(limit);
    }
    assert(list@ =~= original.subrange(
        0,
        if limit < original.len() {
            limit as int
        } else {
            original.len() as int
        },
    ));
    sort_by_time(list, false)
}

/// The place of the first message with an identifier, or the length where
/// there is none.
pub open spec fn place_of_message(messages: Seq<LocalMessage>, id: Seq<char>) -> int
    decreases messages.len(),
{
    if messages.len() == 0 {
        0
    } else if messages[0].id@ == id {
        0
    } else {
        1 + place_of_message(messages.drop_first(), id)
    }
}

/// The page of at most `limit` messages that stand just before the message
/// `before_id` among ordered messages; the last `limit` messages where no
/// message has that identifier.
pub open spec fn page_before(sorted: Seq<LocalMessage>, before_id: Seq<char>, limit: nat) -> Seq<
    LocalMessage,
> {
    let end = place_of_message(sorted, before_id);
    let start = if end >= limit {
        end - limit
    } else {
        0
    };
    sorted.subrange(start, end)
}

/// The place of a message lies within the sequence or at its end.
pub proof fn lemma_place_of_message(messages: Seq<LocalMessage>, id: Seq<char>)
    ensures
        0 <= place_of_message(messages, id) <= messages.len(),
    decreases messages.len(),
{
    if messages.len() > 0 {
        lemma_place_of_message(messages.drop_first(), id);
    }
}

/// The page of at most `limit` messages just before the message
/// `before_id`, by their timestamps; the last `limit` messages where no
/// message has that identifier.
pub fn messages_before(messages: Vec<LocalMessage>, before_id: &str, limit: usize) -> (page: Vec<
    LocalMessage,
>)
    ensures
        page@ == page_before(stable_sorted(messages@, false), before_id@, limit as nat),
        page@.len() <= limit,
        is_ordered(page@, false),
{
    let id = before_id.to_owned();
    let mut sorted = sort_by_time(messages, false);
    let ghost all = sorted@;
    let mut end: usize = 0;
    assert(all.subrange(0, all.len() as int) =~= all);
    while end < sorted.len() && !(sorted[end].id == id)
        invariant
            end <= sorted@.len(),
            sorted@ == all,
            id@ == before_id@,
            place_of_message(all, before_id@) == end + place_of_message(
                all.subrange(end as int, all.len() as int),
                before_id@,
            ),
        decreases sorted@.len() - end,
    {
        let ghost rest = all.subrange(end as int, all.len() as int);
        assert(rest[0] == all[end as int]);
        assert(rest.drop_first() =~= all.subrange(end + 1, all.len() as int));
        end += 1;
    }
    proof {
        let rest = all.subrange(end as int, all.len() as int);
        if end < all.len() {
            assert(rest[0] == all[end as int]);
        }
        assert(place_of_message(rest, before_id@) == 0);
    }
    let start = if end >= limit {
        end - limit
    } else {
        0
    };
    sorted.truncate(end);
    let page = sorted.split_off(start);
    assert(page@ =~= all.subrange(start as int, end as int));
    assert forall|i: int, j: int| 0 <= i < j < page@.len() implies in_order(
        (#[trigger] page@[i]).time(),
        (#[trigger] page@[j]).time(),
        false,
    ) by {
        assert(page@[i] == all[start + i]);
        assert(page@[j] == all[start + j]);
    }
    page
}

} // verus!
