use mailsync::error::ErrorKind;
use mailsync::message::{Client, Message};
use mailsync::store::CacheStore;

fn client(name: &str) -> Client {
    Client {
        username: name.to_string(),
        password: "secret".to_string(),
        address: "imap.example.org".to_string(),
        port: 993,
    }
}

fn message(uid: u32, seq: u32, date: &str, flags: &str) -> Message {
    Message {
        message_uid: uid,
        sequence_id: seq,
        message_id: format!("<{}@example.org>", uid),
        subject: format!("subject {}", uid),
        from_: "[]".to_string(),
        sender: "[]".to_string(),
        to_: "[]".to_string(),
        cc: "[]".to_string(),
        bcc: "[]".to_string(),
        reply_to: "[]".to_string(),
        in_reply_to: String::new(),
        delivered_to: String::new(),
        date_: date.to_string(),
        received: date.to_string(),
        flags: flags.to_string(),
        html: String::new(),
        text: String::new(),
    }
}

fn filled() -> (CacheStore, Client) {
    let alice = client("alice@example.org");
    let mut store = CacheStore::new();
    store.put_connection(&alice, 1);
    store.put_mailbox(&alice, "INBOX", 2).unwrap();
    let messages = vec![
        message(1, 1, "2015-01-01T10:00:00+00:00", "Seen"),
        message(2, 2, "2015-01-03T10:00:00+00:00", "Answered"),
        message(3, 3, "2015-01-02T10:00:00+00:00", ""),
    ];
    store.put_messages(&alice, "INBOX", &messages, 3).unwrap();
    (store, alice)
}

fn uids(messages: &[Message]) -> Vec<u32> {
    messages.iter().map(|m| m.message_uid).collect()
}

#[test]
fn put_then_read_gives_the_rows_back() {
    let (store, alice) = filled();
    let read = store.messages_by_uids(&alice, "INBOX", &vec![1, 2, 3]);
    assert_eq!(read.len(), 3);
    assert_eq!(read[0], message(1, 1, "2015-01-01T10:00:00+00:00", "Seen"));
    assert_eq!(read[1], message(2, 2, "2015-01-03T10:00:00+00:00", "Answered"));
    assert_eq!(read[2], message(3, 3, "2015-01-02T10:00:00+00:00", ""));
    assert_eq!(uids(&store.messages_by_uids(&alice, "INBOX", &vec![3, 9])), vec![3]);
}

#[test]
fn put_messages_replaces_a_stored_uid() {
    let (mut store, alice) = filled();
    let newer = message(2, 7, "2016-01-01T00:00:00+00:00", "Flagged");
    store.put_messages(&alice, "INBOX", &vec![newer.clone(), newer.clone()], 9).unwrap();
    let read = store.messages_by_uids(&alice, "INBOX", &vec![1, 2, 3]);
    assert_eq!(read.len(), 3);
    assert_eq!(read[1], newer);
}

#[test]
fn writes_without_parent_fail_and_change_nothing() {
    let alice = client("alice@example.org");
    let mut store = CacheStore::new();
    let e = store.put_mailbox(&alice, "INBOX", 1).unwrap_err();
    assert_eq!(e.kind, ErrorKind::Storage);
    assert!(store.list_mailboxes(&alice).is_empty());
    store.put_connection(&alice, 1);
    let e = store
        .put_messages(&alice, "INBOX", &vec![message(1, 1, "x", "")], 2)
        .unwrap_err();
    assert_eq!(e.kind, ErrorKind::Storage);
    assert_eq!(e.to_string(), "No such connection or mailbox");
    assert!(store.messages_by_uids(&alice, "INBOX", &vec![1]).is_empty());
}

#[test]
fn mailboxes_are_listed_in_the_order_of_entry() {
    let (mut store, alice) = filled();
    store.put_mailbox(&alice, "Sent", 4).unwrap();
    store.put_mailbox(&alice, "Archive", 5).unwrap();
    store.put_mailbox(&alice, "Sent", 6).unwrap();
    assert_eq!(store.list_mailboxes(&alice), vec!["INBOX", "Sent", "Archive"]);
    assert!(store.list_mailboxes(&client("bob@example.org")).is_empty());
    assert!(store.has_mailbox(&alice, "Sent"));
    assert!(!store.has_mailbox(&alice, "Trash"));
}

#[test]
fn sorted_window_is_latest_first() {
    let (store, alice) = filled();
    assert_eq!(uids(&store.messages_sorted(&alice, "INBOX", 0, 10)), vec![2, 3, 1]);
    assert_eq!(uids(&store.messages_sorted(&alice, "INBOX", 1, 2)), vec![3]);
    assert_eq!(uids(&store.messages_sorted(&alice, "INBOX", 2, 3)), vec![1]);
    assert_eq!(uids(&store.messages_sorted(&alice, "INBOX", 3, 9)), Vec::<u32>::new());
}

#[test]
fn window_from_k_to_k_is_empty() {
    let (store, alice) = filled();
    for k in [0, 1, 2, 3, 50] {
        assert!(store.messages_sorted(&alice, "INBOX", k, k).is_empty());
    }
    assert!(store.messages_sorted(&alice, "INBOX", 2, 1).is_empty());
}

#[test]
fn seven_messages_come_back_sorted() {
    let alice = client("alice@example.org");
    let mut store = CacheStore::new();
    store.put_connection(&alice, 1);
    store.put_mailbox(&alice, "INBOX", 1).unwrap();
    let days = [4, 1, 7, 3, 6, 2, 5];
    let messages: Vec<Message> = days
        .iter()
        .enumerate()
        .map(|(i, d)| message(i as u32 + 1, i as u32 + 1, &format!("2015-01-0{}T00:00:00+00:00", d), ""))
        .collect();
    store.put_messages(&alice, "INBOX", &messages, 2).unwrap();
    let sorted = store.messages_sorted(&alice, "INBOX", 0, 10);
    assert_eq!(sorted.len(), 7);
    let dates: Vec<&str> = sorted.iter().map(|m| m.date_.as_str()).collect();
    let mut expected = dates.clone();
    expected.sort();
    expected.reverse();
    assert_eq!(dates, expected);
    assert_eq!(uids(&sorted), vec![3, 5, 7, 1, 4, 6, 2]);
}

#[test]
fn equal_dates_keep_their_order() {
    let alice = client("alice@example.org");
    let mut store = CacheStore::new();
    store.put_connection(&alice, 1);
    store.put_mailbox(&alice, "INBOX", 1).unwrap();
    let messages = vec![message(1, 1, "b", ""), message(2, 2, "a", ""), message(3, 3, "b", "")];
    store.put_messages(&alice, "INBOX", &messages, 2).unwrap();
    assert_eq!(uids(&store.messages_sorted(&alice, "INBOX", 0, 3)), vec![1, 3, 2]);
}

#[test]
fn flag_filter_tests_for_a_substring() {
    let (store, alice) = filled();
    assert_eq!(uids(&store.messages_by_flag(&alice, "INBOX", "Seen", false)), vec![1]);
    assert_eq!(uids(&store.messages_by_flag(&alice, "INBOX", "Seen", true)), vec![2, 3]);
    assert_eq!(uids(&store.messages_by_flag(&alice, "INBOX", "e", false)), vec![1, 2]);
    assert_eq!(uids(&store.messages_by_flag(&alice, "INBOX", "", false)), vec![1, 2, 3]);
}

#[test]
fn flags_and_sequence_ids_are_updated() {
    let (mut store, alice) = filled();
    store.update_flags(&alice, "INBOX", 2, "Answered,Seen", 10);
    store.update_flags(&alice, "INBOX", 99, "Seen", 10);
    store.update_sequence_id(&alice, "INBOX", 3, 2, 11);
    assert_eq!(
        store.flags_snapshot(&alice, "INBOX"),
        vec![(1, "Seen".to_string()), (2, "Answered,Seen".to_string()), (3, String::new())]
    );
    assert_eq!(store.sequence_ids(&alice, "INBOX"), vec![(1, 1), (2, 2), (3, 2)]);
}

#[test]
fn delete_message_removes_one_row() {
    let (mut store, alice) = filled();
    store.delete_message(&alice, "INBOX", 2);
    store.delete_message(&alice, "INBOX", 2);
    assert_eq!(store.sequence_ids(&alice, "INBOX"), vec![(1, 1), (3, 3)]);
    store.delete_messages(&alice, "INBOX", &vec![1, 3, 5]);
    assert!(store.sequence_ids(&alice, "INBOX").is_empty());
}

#[test]
fn deleting_a_mailbox_deletes_its_messages() {
    let (mut store, alice) = filled();
    store.put_mailbox(&alice, "Sent", 4).unwrap();
    store.put_messages(&alice, "Sent", &vec![message(1, 1, "x", "")], 5).unwrap();
    store.delete_mailbox(&alice, "INBOX");
    assert_eq!(store.list_mailboxes(&alice), vec!["Sent"]);
    assert!(store.sequence_ids(&alice, "INBOX").is_empty());
    assert_eq!(store.sequence_ids(&alice, "Sent"), vec![(1, 1)]);
    let e = store.put_messages(&alice, "INBOX", &vec![message(1, 1, "x", "")], 6).unwrap_err();
    assert_eq!(e.kind, ErrorKind::Storage);
}

#[test]
fn deleting_a_connection_deletes_what_belongs_to_it() {
    let (mut store, alice) = filled();
    let bob = client("bob@example.org");
    store.put_connection(&bob, 1);
    store.put_mailbox(&bob, "INBOX", 2).unwrap();
    store.put_messages(&bob, "INBOX", &vec![message(8, 1, "x", "")], 3).unwrap();
    store.delete_connection(&alice);
    assert!(!store.has_connection(&alice));
    assert!(store.has_connection(&bob));
    assert!(store.list_mailboxes(&alice).is_empty());
    assert!(store.sequence_ids(&alice, "INBOX").is_empty());
    assert_eq!(store.sequence_ids(&bob, "INBOX"), vec![(8, 1)]);
}

#[test]
fn same_path_of_two_clients_is_two_mailboxes() {
    let (mut store, alice) = filled();
    let bob = client("bob@example.org");
    store.put_connection(&bob, 1);
    store.put_mailbox(&bob, "INBOX", 2).unwrap();
    assert!(store.sequence_ids(&bob, "INBOX").is_empty());
    assert_eq!(store.sequence_ids(&alice, "INBOX").len(), 3);
}

#[test]
fn putting_the_same_messages_twice_changes_nothing() {
    let (mut store, alice) = filled();
    let messages = vec![
        message(2, 9, "2016-01-01T00:00:00+00:00", "x"),
        message(8, 4, "2016-01-02T00:00:00+00:00", "y"),
        message(2, 5, "2016-01-03T00:00:00+00:00", "z"),
    ];
    store.put_messages(&alice, "INBOX", &messages, 7).unwrap();
    let once = store.mailbox_messages(&alice, "INBOX");
    store.put_messages(&alice, "INBOX", &messages, 7).unwrap();
    assert_eq!(store.mailbox_messages(&alice, "INBOX"), once);
    assert_eq!(uids(&once), vec![1, 2, 3, 8]);
    assert_eq!(once[1], messages[2]);
}

#[test]
fn every_row_has_its_connection_and_its_mailbox() {
    let (mut store, alice) = filled();
    for path in store.list_mailboxes(&alice) {
        assert!(store.has_connection(&alice));
        assert!(store.has_mailbox(&alice, &path));
    }
    store.delete_mailbox(&alice, "INBOX");
    assert!(store.mailbox_messages(&alice, "INBOX").is_empty());
    assert!(!store.has_message(&alice, "INBOX", 1));
}
