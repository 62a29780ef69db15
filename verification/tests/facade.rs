use mailsync::envelope::Fetch;
use mailsync::error::ErrorKind;
use mailsync::facade::{
    fetch_by_flag, fetch_by_uids, fetch_sorted, get_mailboxes, login_done, mailboxes_listed,
    mailboxes_updated, message_moved, modify_flags, modify_flags_db, modify_flags_done,
    move_message, move_plan, update_mailbox, MailboxesStep, MovePlan,
};
use mailsync::flags::Flag;
use mailsync::message::{Client, Message};
use mailsync::registry::{Login, Registry};
use mailsync::store::CacheStore;
use mailsync::update::{Phase, SyncAction};

fn alice() -> Client {
    Client {
        username: "alice@example.org".to_string(),
        password: "secret".to_string(),
        address: "imap.example.org".to_string(),
        port: 993,
    }
}

fn message(uid: u32, seq: u32, date: &str, flags: &str) -> Message {
    Message {
        message_uid: uid,
        sequence_id: seq,
        message_id: String::new(),
        subject: String::new(),
        from_: "[]".to_string(),
        sender: "[]".to_string(),
        to_: "[]".to_string(),
        cc: "[]".to_string(),
        bcc: "[]".to_string(),
        reply_to: "[]".to_string(),
        in_reply_to: String::new(),
        delivered_to: String::new(),
        date_: date.to_string(),
        received: date.to_string(),
        flags: flags.to_string(),
        html: String::new(),
        text: String::new(),
    }
}

fn logged_in() -> (Registry, CacheStore) {
    let mut registry = Registry::new();
    let mut store = CacheStore::new();
    assert_eq!(login_done(&mut registry, &mut store, &alice(), 1), 0);
    store.put_mailbox(&alice(), "INBOX", 1).unwrap();
    let messages = vec![
        message(1, 1, "2015-01-01T00:00:00+00:00", "Seen"),
        message(2, 2, "2015-01-02T00:00:00+00:00", "Answered"),
    ];
    store.put_messages(&alice(), "INBOX", &messages, 1).unwrap();
    (registry, store)
}

fn uids(messages: &[Message]) -> Vec<u32> {
    messages.iter().map(|m| m.message_uid).collect()
}

#[test]
fn login_registers_and_persists() {
    let (registry, store) = logged_in();
    assert_eq!(registry.login(&alice()), Login::Existing(0));
    assert!(store.has_connection(&alice()));
}

#[test]
fn reads_check_session_path_and_mailbox() {
    let (registry, store) = logged_in();
    let e = fetch_sorted(&registry, &store, 3, "INBOX", 0, 10).unwrap_err();
    assert_eq!(e.kind, ErrorKind::InvalidArgument);
    let e = fetch_sorted(&registry, &store, 0, "", 0, 10).unwrap_err();
    assert_eq!(e.kind, ErrorKind::InvalidArgument);
    assert_eq!(e.to_string(), "Provide a mailbox path");
    let e = fetch_sorted(&registry, &store, 0, "Trash", 0, 10).unwrap_err();
    assert_eq!(e.kind, ErrorKind::NotFound);
    assert_eq!(e.to_string(), "Mailbox not found");
    let e = fetch_by_flag(&registry, &store, 0, "Trash", "Seen", false).unwrap_err();
    assert_eq!(e.kind, ErrorKind::NotFound);
    let e = fetch_by_uids(&registry, &store, 0, "Trash", &vec![1]).unwrap_err();
    assert_eq!(e.kind, ErrorKind::NotFound);
}

#[test]
fn a_vacant_session_is_not_connected() {
    let (mut registry, store) = logged_in();
    registry.logout(0).unwrap();
    let e = fetch_sorted(&registry, &store, 0, "INBOX", 0, 10).unwrap_err();
    assert_eq!(e.kind, ErrorKind::NotConnected);
}

#[test]
fn reads_return_cached_messages() {
    let (registry, store) = logged_in();
    assert_eq!(uids(&fetch_sorted(&registry, &store, 0, "INBOX", 0, 10).unwrap()), vec![2, 1]);
    assert!(fetch_sorted(&registry, &store, 0, "INBOX", 1, 1).unwrap().is_empty());
    assert_eq!(uids(&fetch_by_uids(&registry, &store, 0, "INBOX", &vec![2]).unwrap()), vec![2]);
    assert_eq!(
        uids(&fetch_by_flag(&registry, &store, 0, "INBOX", "Seen", true).unwrap()),
        vec![2]
    );
    let e = fetch_by_uids(&registry, &store, 0, "INBOX", &vec![1, 7]).unwrap_err();
    assert_eq!(e.kind, ErrorKind::NotFound);
    assert_eq!(e.to_string(), "Message not found");
}

#[test]
fn mailboxes_come_from_the_cache_or_the_server() {
    let (registry, mut store) = logged_in();
    assert_eq!(
        get_mailboxes(&registry, &store, 0).unwrap(),
        MailboxesStep::Cached(vec!["INBOX".to_string()])
    );
    store.delete_mailbox(&alice(), "INBOX");
    assert_eq!(get_mailboxes(&registry, &store, 0).unwrap(), MailboxesStep::List(alice()));
    let listed = vec!["INBOX".to_string(), "Sent".to_string()];
    assert_eq!(mailboxes_listed(&mut store, &alice(), &listed, 2).unwrap(), listed);
    assert_eq!(get_mailboxes(&registry, &store, 0).unwrap(), MailboxesStep::Cached(listed));
    assert_eq!(get_mailboxes(&registry, &store, 9).unwrap_err().kind, ErrorKind::InvalidArgument);
}

#[test]
fn updating_mailboxes_drops_what_disappeared() {
    let (_, mut store) = logged_in();
    store.put_mailbox(&alice(), "Old", 2).unwrap();
    store.put_messages(&alice(), "Old", &vec![message(5, 1, "x", "")], 2).unwrap();
    let listed = vec!["Sent".to_string(), "INBOX".to_string()];
    let now = mailboxes_updated(&mut store, &alice(), &listed, 3).unwrap();
    assert_eq!(now, vec!["INBOX".to_string(), "Sent".to_string()]);
    assert!(store.sequence_ids(&alice(), "Old").is_empty());
    assert_eq!(store.sequence_ids(&alice(), "INBOX").len(), 2);
    let mut other = CacheStore::new();
    let e = mailboxes_updated(&mut other, &alice(), &listed, 3).unwrap_err();
    assert_eq!(e.kind, ErrorKind::Storage);
    let e = mailboxes_listed(&mut other, &alice(), &listed, 3).unwrap_err();
    assert_eq!(e.kind, ErrorKind::Storage);
}

#[test]
fn update_mailbox_begins_with_the_probe() {
    let (registry, _) = logged_in();
    let (client, update, action) = update_mailbox(&registry, 0, "INBOX", true).unwrap();
    assert_eq!(client, alice());
    assert_eq!(update.phase, Phase::Probing);
    assert!(update.quick);
    assert_eq!(action, SyncAction::FetchUids { start: u32::MAX - 1, end: u32::MAX });
    assert_eq!(update_mailbox(&registry, 0, "", true).unwrap_err().kind, ErrorKind::InvalidArgument);
    assert_eq!(update_mailbox(&registry, 1, "INBOX", true).unwrap_err().kind, ErrorKind::InvalidArgument);
}

#[test]
fn adding_seen_to_an_answered_message() {
    let (registry, mut store) = logged_in();
    let command = modify_flags(&registry, 0, "INBOX", 2, "Seen", true).unwrap();
    assert_eq!(command.query, "+FLAGS (\\Seen)");
    assert_eq!(command.uid, 2);
    assert_eq!(command.path, "INBOX");
    assert_eq!(command.client, alice());
    let answer = vec![Fetch {
        message: 2,
        uid: Some(2),
        flags: vec![Flag::Answered, Flag::Seen],
        envelope: None,
        body: None,
    }];
    let result = modify_flags_done(&mut store, &alice(), "INBOX", 2, &answer, 5).unwrap();
    assert_eq!(result, "Answered,Seen");
    assert_eq!(
        store.flags_snapshot(&alice(), "INBOX"),
        vec![(1, "Seen".to_string()), (2, "Answered,Seen".to_string())]
    );
}

#[test]
fn removing_a_flag_stores_what_the_server_reports() {
    let (registry, mut store) = logged_in();
    let command = modify_flags(&registry, 0, "INBOX", 1, "Seen,Flagged", false).unwrap();
    assert_eq!(command.query, "-FLAGS (\\Seen \\Flagged)");
    assert_eq!(modify_flags_db(&mut store, &alice(), "INBOX", 1, &[], 5), "");
    assert_eq!(store.flags_snapshot(&alice(), "INBOX")[0], (1, String::new()));
}

#[test]
fn an_empty_answer_to_a_store_is_an_error() {
    let (_, mut store) = logged_in();
    let e = modify_flags_done(&mut store, &alice(), "INBOX", 2, &vec![], 5).unwrap_err();
    assert_eq!(e.kind, ErrorKind::Protocol);
    assert_eq!(e.to_string(), "Error retrieving message while updating flags");
    assert_eq!(store.flags_snapshot(&alice(), "INBOX")[1], (2, "Answered".to_string()));
}

#[test]
fn moving_a_message_removes_it_from_the_cache() {
    let (registry, mut store) = logged_in();
    let command = move_message(&registry, 0, "INBOX", 1, "Archive").unwrap();
    assert_eq!(command.destination, "Archive");
    assert_eq!(command.uid, 1);
    message_moved(&mut store, &alice(), "INBOX", 1);
    assert_eq!(store.sequence_ids(&alice(), "INBOX"), vec![(2, 2)]);
    assert_eq!(move_message(&registry, 0, "INBOX", 1, "").unwrap_err().kind, ErrorKind::InvalidArgument);
    assert_eq!(move_message(&registry, 0, "", 1, "Archive").unwrap_err().kind, ErrorKind::InvalidArgument);
    assert_eq!(move_message(&registry, 4, "INBOX", 1, "Archive").unwrap_err().kind, ErrorKind::InvalidArgument);
}

#[test]
fn a_message_is_moved_as_the_server_allows() {
    assert_eq!(move_plan(true), MovePlan::Move);
    assert_eq!(move_plan(false), MovePlan::CopyThenExpunge);
}
