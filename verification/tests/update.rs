use mailsync::error::ErrorKind;
use mailsync::flags::Flag;
use mailsync::message::{Client, Message};
use mailsync::retry::{Attempt, ImapFailure, Recovery};
use mailsync::store::CacheStore;
use mailsync::sync::{
    flag_changes, highest, next_window, probe_range, tail_matches, window, window_changes,
};
use mailsync::update::{MailboxChanges, Phase, SyncAction, SyncEvent, Update};

fn alice() -> Client {
    Client {
        username: "alice@example.org".to_string(),
        password: "secret".to_string(),
        address: "imap.example.org".to_string(),
        port: 993,
    }
}

fn message(uid: u32, seq: u32, flags: &str) -> Message {
    Message {
        message_uid: uid,
        sequence_id: seq,
        message_id: format!("<{}@example.org>", uid),
        subject: format!("subject {}", uid),
        from_: "[]".to_string(),
        sender: "[]".to_string(),
        to_: "[]".to_string(),
        cc: "[]".to_string(),
        bcc: "[]".to_string(),
        reply_to: "[]".to_string(),
        in_reply_to: String::new(),
        delivered_to: String::new(),
        date_: "2015-01-01T10:00:00+00:00".to_string(),
        received: "2015-01-01T10:00:00+00:00".to_string(),
        flags: flags.to_string(),
        html: String::new(),
        text: String::new(),
    }
}

fn cache(uids: &[u32]) -> CacheStore {
    let mut store = CacheStore::new();
    store.put_connection(&alice(), 1);
    store.put_mailbox(&alice(), "INBOX", 1).unwrap();
    let messages: Vec<Message> =
        uids.iter().enumerate().map(|(i, uid)| message(*uid, i as u32 + 1, "")).collect();
    store.put_messages(&alice(), "INBOX", &messages, 1).unwrap();
    store
}

/// Plays the server: answers every action from a fixed mailbox.
fn run(store: &mut CacheStore, remote: &[(u32, Vec<Flag>)], quick: bool) -> MailboxChanges {
    let (mut update, mut action) = Update::begin(quick);
    let mut rounds = 0;
    loop {
        rounds += 1;
        assert!(rounds < 1000);
        let event = match action {
            SyncAction::FetchUids { start, end } => {
                let n = remote.len() as u32;
                let mut lines = Vec::new();
                if start > n && n > 0 {
                    lines.push((remote[n as usize - 1].0, n));
                } else {
                    for seq in start..=end.min(n) {
                        lines.push((remote[seq as usize - 1].0, seq));
                    }
                }
                SyncEvent::Uids(lines)
            }
            SyncAction::FetchMessages { uids } => SyncEvent::Messages(
                uids.iter()
                    .map(|uid| {
                        let at = remote.iter().position(|r| r.0 == *uid).unwrap();
                        message(*uid, at as u32 + 1, "")
                    })
                    .collect(),
            ),
            SyncAction::FetchFlags => SyncEvent::Flags(remote.to_vec()),
            SyncAction::Finished(changes) => {
                assert_eq!(update.phase, Phase::Finished);
                return changes;
            }
        };
        action = update.advance(store, &alice(), "INBOX", &event, 5).unwrap();
    }
}

fn plain(uids: &[u32]) -> Vec<(u32, Vec<Flag>)> {
    uids.iter().map(|uid| (*uid, Vec::new())).collect()
}

#[test]
fn the_probe_asks_for_the_two_highest_numbers() {
    assert_eq!(probe_range(), (u32::MAX - 1, u32::MAX));
    let (update, action) = Update::begin(false);
    assert_eq!(update.phase, Phase::Probing);
    assert_eq!(action, SyncAction::FetchUids { start: u32::MAX - 1, end: u32::MAX });
}

#[test]
fn one_new_and_one_removed_message() {
    let mut store = cache(&[1, 2, 3, 4]);
    let changes = run(&mut store, &plain(&[1, 2, 3, 5]), false);
    assert_eq!(changes, MailboxChanges { new: vec![5], changed: vec![], removed: vec![4] });
    assert!(store.messages_by_uids(&alice(), "INBOX", &vec![4]).is_empty());
    let stored = store.messages_by_uids(&alice(), "INBOX", &vec![5]);
    assert_eq!(stored, vec![message(5, 4, "")]);
    assert_eq!(store.sequence_ids(&alice(), "INBOX"), vec![(1, 1), (2, 2), (3, 3), (5, 4)]);
}

#[test]
fn empty_mailbox_reports_nothing_and_stores_nothing() {
    let mut store = cache(&[]);
    let changes = run(&mut store, &[], false);
    assert_eq!(changes, MailboxChanges { new: vec![], changed: vec![], removed: vec![] });
    assert!(store.sequence_ids(&alice(), "INBOX").is_empty());
    let (mut update, _) = Update::begin(false);
    let action = update
        .advance(&mut store, &alice(), "INBOX", &SyncEvent::Uids(vec![]), 1)
        .unwrap();
    assert_eq!(
        action,
        SyncAction::Finished(MailboxChanges { new: vec![], changed: vec![], removed: vec![] })
    );
}

#[test]
fn a_cache_that_agrees_at_the_end_skips_the_windows() {
    let mut store = cache(&[1, 2, 3]);
    let (mut update, _) = Update::begin(false);
    let action = update
        .advance(&mut store, &alice(), "INBOX", &SyncEvent::Uids(vec![(3, 3)]), 1)
        .unwrap();
    assert_eq!(action, SyncAction::FetchFlags);
    let (mut quick, _) = Update::begin(true);
    let action = quick
        .advance(&mut store, &alice(), "INBOX", &SyncEvent::Uids(vec![(3, 3)]), 1)
        .unwrap();
    assert_eq!(
        action,
        SyncAction::Finished(MailboxChanges { new: vec![], changed: vec![], removed: vec![] })
    );
}

#[test]
fn a_first_update_fetches_everything_window_by_window() {
    let uids: Vec<u32> = (1..=45).map(|n| n * 10).collect();
    let mut store = cache(&[]);
    let (mut update, _) = Update::begin(true);
    let mut action = update
        .advance(&mut store, &alice(), "INBOX", &SyncEvent::Uids(vec![(450, 45)]), 1)
        .unwrap();
    assert_eq!(action, SyncAction::FetchUids { start: 1, end: 20 });
    let mut asked = Vec::new();
    while let SyncAction::FetchUids { start, end } = action {
        asked.push((start, end));
        let lines: Vec<(u32, u32)> = (start..=end).map(|s| (uids[s as usize - 1], s)).collect();
        action =
            update.advance(&mut store, &alice(), "INBOX", &SyncEvent::Uids(lines), 1).unwrap();
        if let SyncAction::FetchMessages { uids: wanted } = action {
            let messages = wanted.iter().map(|u| message(*u, u / 10, "")).collect();
            action = update
                .advance(&mut store, &alice(), "INBOX", &SyncEvent::Messages(messages), 1)
                .unwrap();
        }
    }
    assert_eq!(asked, vec![(1, 20), (21, 40), (41, 45)]);
    match action {
        SyncAction::Finished(changes) => {
            assert_eq!(changes.new, uids);
            assert!(changes.removed.is_empty());
        }
        other => panic!("{:?}", other),
    }
    assert_eq!(store.sequence_ids(&alice(), "INBOX").len(), 45);
}

#[test]
fn a_removed_message_in_the_middle_renumbers_the_rest() {
    let mut store = cache(&[1, 2, 3, 4]);
    let changes = run(&mut store, &plain(&[1, 3, 4]), true);
    assert_eq!(changes, MailboxChanges { new: vec![], changed: vec![], removed: vec![2] });
    assert_eq!(store.sequence_ids(&alice(), "INBOX"), vec![(1, 1), (3, 2), (4, 3)]);
    let again = run(&mut store, &plain(&[1, 3, 4]), true);
    assert_eq!(again, MailboxChanges { new: vec![], changed: vec![], removed: vec![] });
}

#[test]
fn flags_of_the_server_win() {
    let mut store = cache(&[1, 2, 3]);
    store.update_flags(&alice(), "INBOX", 1, "Seen", 2);
    let remote = vec![
        (1, vec![Flag::Seen]),
        (2, vec![Flag::Seen, Flag::Answered]),
        (3, vec![]),
        (9, vec![Flag::Draft]),
    ];
    let (mut update, _) = Update::begin(false);
    let action = update
        .advance(&mut store, &alice(), "INBOX", &SyncEvent::Uids(vec![(3, 3)]), 1)
        .unwrap();
    assert_eq!(action, SyncAction::FetchFlags);
    let action =
        update.advance(&mut store, &alice(), "INBOX", &SyncEvent::Flags(remote), 7).unwrap();
    assert_eq!(
        action,
        SyncAction::Finished(MailboxChanges { new: vec![], changed: vec![2], removed: vec![] })
    );
    assert_eq!(
        store.flags_snapshot(&alice(), "INBOX"),
        vec![(1, "Seen".to_string()), (2, "Answered,Seen".to_string()), (3, String::new())]
    );
}

#[test]
fn an_answer_out_of_turn_is_a_protocol_error() {
    let mut store = cache(&[1]);
    let (mut update, _) = Update::begin(false);
    let before = update.clone();
    let e = update
        .advance(&mut store, &alice(), "INBOX", &SyncEvent::Flags(vec![]), 1)
        .unwrap_err();
    assert_eq!(e.kind, ErrorKind::Protocol);
    assert_eq!(e.to_string(), "Unexpected answer");
    assert_eq!(update, before);
    let e = update
        .advance(&mut store, &alice(), "INBOX", &SyncEvent::Messages(vec![]), 1)
        .unwrap_err();
    assert_eq!(e.kind, ErrorKind::Protocol);
}

#[test]
fn new_messages_for_a_mailbox_that_is_not_cached_fail() {
    let mut store = CacheStore::new();
    store.put_connection(&alice(), 1);
    let (mut update, _) = Update::begin(true);
    update.advance(&mut store, &alice(), "INBOX", &SyncEvent::Uids(vec![(7, 1)]), 1).unwrap();
    let action = update
        .advance(&mut store, &alice(), "INBOX", &SyncEvent::Uids(vec![(7, 1)]), 1)
        .unwrap();
    assert_eq!(action, SyncAction::FetchMessages { uids: vec![7] });
    let e = update
        .advance(&mut store, &alice(), "INBOX", &SyncEvent::Messages(vec![message(7, 1, "")]), 1)
        .unwrap_err();
    assert_eq!(e.kind, ErrorKind::Storage);
    assert_eq!(update.phase, Phase::Inserting);
}

#[test]
fn an_update_that_is_driven_again_after_a_drop_gives_the_same() {
    let remote = plain(&[1, 2, 3, 5]);
    let mut store = cache(&[1, 2, 3, 4]);
    let mut attempt = Attempt::first();
    let (mut update, _) = Update::begin(false);
    let action = update
        .advance(&mut store, &alice(), "INBOX", &SyncEvent::Uids(vec![(5, 4)]), 5)
        .unwrap();
    assert_eq!(action, SyncAction::FetchUids { start: 1, end: 4 });
    assert_eq!(attempt.failed(ImapFailure::ConnectionLost), Recovery::Reconnect);
    let changes = run(&mut store, &remote, false);
    let mut fresh = cache(&[1, 2, 3, 4]);
    let undisturbed = run(&mut fresh, &remote, false);
    assert_eq!(changes, undisturbed);
    assert_eq!(changes, MailboxChanges { new: vec![5], changed: vec![], removed: vec![4] });
    assert_eq!(
        store.sequence_ids(&alice(), "INBOX"),
        fresh.sequence_ids(&alice(), "INBOX")
    );
    assert_eq!(attempt.failed(ImapFailure::ConnectionLost), Recovery::Surface);
}

#[test]
fn a_scan_that_stops_early_leaves_the_rest_for_later() {
    let cached: Vec<u32> = (1..=22).collect();
    let mut listed: Vec<u32> = (1..=20).collect();
    listed.push(22);
    let mut store = cache(&cached);
    let changes = run(&mut store, &plain(&listed), true);
    assert_eq!(changes, MailboxChanges { new: vec![], changed: vec![], removed: vec![] });
    assert_eq!(store.sequence_ids(&alice(), "INBOX").len(), 22);
}

#[test]
fn windows_are_clamped_to_the_highest_sequence_id() {
    assert_eq!(window(1, 45), Some((1, 20)));
    assert_eq!(window(21, 45), Some((21, 40)));
    assert_eq!(window(41, 45), Some((41, 45)));
    assert_eq!(window(41, 60), Some((41, 60)));
    assert_eq!(window(45, 45), Some((45, 45)));
    assert_eq!(window(46, 45), None);
    assert_eq!(window(0, 45), None);
    assert_eq!(window(1, 0), None);
    assert_eq!(window(u32::MAX - 3, u32::MAX), Some((u32::MAX - 3, u32::MAX)));
    assert_eq!(next_window(20, 45), Some((21, 40)));
    assert_eq!(next_window(45, 45), None);
    assert_eq!(next_window(u32::MAX, u32::MAX), None);
}

#[test]
fn probe_answer_and_tail() {
    assert_eq!(highest(&vec![]), None);
    assert_eq!(highest(&vec![(50, 7), (60, 8)]), Some((7, 50)));
    assert!(tail_matches(&vec![(1, 1), (50, 7)], 7, 50));
    assert!(!tail_matches(&vec![(1, 1), (50, 6)], 7, 50));
    assert!(!tail_matches(&vec![(1, 1)], 7, 50));
}

#[test]
fn window_changes_partition() {
    let local = vec![(1, 1), (2, 2), (3, 3), (4, 4), (9, 30)];
    let remote = vec![(1, 1), (3, 2), (4, 3), (7, 4)];
    let changes = window_changes(&local, &remote, 1, 20);
    assert_eq!(changes.changed, vec![(3, 2), (4, 3)]);
    assert_eq!(changes.new, vec![7]);
    assert_eq!(changes.removed, vec![2]);
}

#[test]
fn fewer_rows_than_asked_for_are_taken_as_they_come() {
    let local = vec![(1, 1), (2, 2), (3, 3)];
    let remote = vec![(1, 1)];
    let changes = window_changes(&local, &remote, 1, 3);
    assert_eq!(changes.removed, vec![2, 3]);
    assert!(changes.new.is_empty());
    assert!(changes.changed.is_empty());
}

#[test]
fn flag_changes_lists_what_differs() {
    let local = vec![(1, "Seen".to_string()), (2, String::new()), (3, "Draft".to_string())];
    let remote = vec![(2, "Seen".to_string()), (1, "Seen".to_string()), (4, "x".to_string())];
    assert_eq!(flag_changes(&local, &remote), vec![(2, "Seen".to_string())]);
}
