use securechat_core::protocol::{Conversation, LocalMessage};
use securechat_core::records::{
    conversation_by_contact, first_messages, latest_first, messages_before, sort_by_time,
};

fn message(id: &str, timestamp: i64) -> LocalMessage {
    LocalMessage::outgoing_text(id.to_string(), "c".to_string(), format!("text {}", id), timestamp)
}

fn conversation(contact: &str, updated_at: i64) -> Conversation {
    let mut c = Conversation::new(contact.to_string(), 0);
    c.updated_at = updated_at;
    c
}

fn ids(messages: &[LocalMessage]) -> Vec<&str> {
    messages.iter().map(|m| m.id.as_str()).collect()
}

#[test]
fn messages_are_sorted_by_timestamp_and_ties_keep_their_order() {
    let sorted = sort_by_time(
        vec![message("a", 5), message("b", 3), message("c", 5), message("d", 1), message("e", 3)],
        false,
    );
    assert_eq!(ids(&sorted), vec!["d", "b", "e", "a", "c"]);
    let sorted = sort_by_time(
        vec![message("a", 5), message("b", 3), message("c", 5), message("d", 1), message("e", 3)],
        true,
    );
    assert_eq!(ids(&sorted), vec!["a", "c", "b", "e", "d"]);
    assert!(sort_by_time(Vec::<LocalMessage>::new(), false).is_empty());
}

#[test]
fn sorting_agrees_with_the_stable_sort_of_the_standard_library() {
    let mut seed: u64 = 12345;
    let mut input = Vec::new();
    for i in 0..200 {
        seed = seed.wrapping_mul(6364136223846793005).wrapping_add(1442695040888963407);
        input.push(message(&format!("m{}", i), ((seed >> 33) % 20) as i64 - 10));
    }
    let mut expected = input.clone();
    expected.sort_by(|a, b| a.timestamp.cmp(&b.timestamp));
    assert_eq!(ids(&sort_by_time(input.clone(), false)), ids(&expected));
    let mut expected = input.clone();
    expected.sort_by(|a, b| b.timestamp.cmp(&a.timestamp));
    assert_eq!(ids(&sort_by_time(input, true)), ids(&expected));
}

#[test]
fn conversations_come_latest_first() {
    let sorted =
        latest_first(vec![conversation("a", 10), conversation("b", 30), conversation("c", 20)]);
    let order: Vec<&str> = sorted.iter().map(|c| c.contact_id.as_str()).collect();
    assert_eq!(order, vec!["b", "c", "a"]);
}

#[test]
fn conversation_is_found_by_its_contact() {
    let list = vec![conversation("a", 10), conversation("b", 30), conversation("b", 20)];
    assert_eq!(conversation_by_contact(list.clone(), "b").unwrap().updated_at, 30);
    assert_eq!(conversation_by_contact(list.clone(), "a").unwrap().updated_at, 10);
    assert!(conversation_by_contact(list, "z").is_none());
    assert!(conversation_by_contact(vec![], "a").is_none());
}

#[test]
fn first_messages_are_cut_before_they_are_sorted() {
    let all = vec![message("a", 5), message("b", 3), message("c", 1), message("d", 0)];
    assert_eq!(ids(&first_messages(all.clone(), 3)), vec!["c", "b", "a"]);
    assert_eq!(ids(&first_messages(all.clone(), 10)), vec!["d", "c", "b", "a"]);
    assert_eq!(ids(&first_messages(all.clone(), 4)), vec!["d", "c", "b", "a"]);
    assert!(first_messages(all, 0).is_empty());
}

#[test]
fn page_before_a_message_holds_the_messages_just_before_it() {
    let all = vec![
        message("e", 50),
        message("a", 10),
        message("d", 40),
        message("b", 20),
        message("c", 30),
    ];
    assert_eq!(ids(&messages_before(all.clone(), "d", 2)), vec!["b", "c"]);
    assert_eq!(ids(&messages_before(all.clone(), "d", 3)), vec!["a", "b", "c"]);
    assert_eq!(ids(&messages_before(all.clone(), "d", 10)), vec!["a", "b", "c"]);
    assert!(messages_before(all.clone(), "a", 2).is_empty());
    assert!(messages_before(all.clone(), "d", 0).is_empty());
    assert_eq!(ids(&messages_before(all.clone(), "nobody", 2)), vec!["d", "e"]);
    assert_eq!(ids(&messages_before(all, "nobody", 9)), vec!["a", "b", "c", "d", "e"]);
    assert!(messages_before(vec![], "a", 3).is_empty());
}
