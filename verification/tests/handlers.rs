use mailsync::display::Reply;
use mailsync::error::{ApiError, ErrorKind};
use mailsync::handlers::{
    connected, error, flags_updated, get_mailboxes, get_messages_sorted, get_messages_with_flag,
    get_messages_with_uids, get_sessions, logged_out, login, logout, mailbox_updated,
    mailboxes_retrieved, message_moved, modify_flags, move_message, parse_uids, update_mailbox,
    update_mailboxes, Step,
};
use mailsync::http::{handle_request, http_response, request_target, route, Route};
use mailsync::message::{Client, Message};
use mailsync::registry::Registry;
use mailsync::store::CacheStore;
use mailsync::update::{MailboxChanges, Phase, SyncAction};

fn alice() -> Client {
    Client {
        username: "alice@example.org".to_string(),
        password: "secret".to_string(),
        address: "imap.example.org".to_string(),
        port: 993,
    }
}

fn message(uid: u32, day: u32) -> Message {
    Message {
        message_uid: uid,
        sequence_id: uid,
        message_id: String::new(),
        subject: String::new(),
        from_: "[]".to_string(),
        sender: "[]".to_string(),
        to_: "[]".to_string(),
        cc: "[]".to_string(),
        bcc: "[]".to_string(),
        reply_to: "[]".to_string(),
        in_reply_to: String::new(),
        delivered_to: String::new(),
        date_: format!("2015-01-0{}T00:00:00+00:00", day),
        received: String::new(),
        flags: if uid % 2 == 0 { "Seen".to_string() } else { String::new() },
        html: String::new(),
        text: String::new(),
    }
}

fn state() -> (Registry, CacheStore) {
    let mut registry = Registry::new();
    let mut store = CacheStore::new();
    registry.connected(&alice());
    store.put_connection(&alice(), 1);
    store.put_mailbox(&alice(), "INBOX", 1).unwrap();
    let days = [4, 1, 7, 3, 6, 2, 5];
    let messages: Vec<Message> =
        days.iter().enumerate().map(|(i, d)| message(i as u32 + 1, *d)).collect();
    store.put_messages(&alice(), "INBOX", &messages, 1).unwrap();
    (registry, store)
}

fn reply(step: Step) -> Reply {
    match step {
        Step::Reply(reply) => reply,
        other => panic!("{:?}", other),
    }
}

const LOGIN: &str = "username=alice%40example.org&password=secret&address=imap.example.org&port=993";

#[test]
fn login_connects_once() {
    let mut registry = Registry::new();
    assert_eq!(login(LOGIN, &registry), Step::Connect(alice()));
    let id = registry.connected(&alice());
    assert_eq!(id, 0);
    assert_eq!(
        connected(id).to_string(),
        "{\"success\": true, \"message\": \"Connected to IMAP server\", \"data\": { \"session_id\": 0}}"
    );
    let again = reply(login(
        "username=alice%40example.org&password=other&address=imap.example.org&port=143",
        &registry,
    ));
    assert_eq!(
        again.to_string(),
        "{\"success\": true, \"message\": \"Allready connected to IMAP server\", \"data\": { \"session_id\": 0}}"
    );
}

#[test]
fn login_checks_its_parameters() {
    let registry = Registry::new();
    assert_eq!(
        reply(login("username=a&password=b&address=c", &registry)),
        Reply::failed("Provide all GET parameters")
    );
    assert_eq!(
        reply(login("username=a&password=b&address=c&port=99999", &registry)),
        Reply::failed("Invalid number parameter")
    );
    assert_eq!(reply(login("", &registry)), Reply::failed("Provide all GET parameters"));
}

#[test]
fn logout_vacates_the_slot() {
    let (mut registry, _) = state();
    assert_eq!(logout("session_id=0", &mut registry), Step::Close(0, alice()));
    assert_eq!(logged_out(0).to_string(), "{\"success\": true, \"message\": \"Logged out\", \"data\": 0}");
    assert_eq!(
        reply(logout("session_id=0", &mut registry)),
        Reply::failed("Session is not connected")
    );
    assert_eq!(reply(logout("session_id=4", &mut registry)), Reply::failed("Invalid session_id"));
    assert_eq!(
        reply(logout("", &mut registry)),
        Reply::failed("Provide session_id GET parameter")
    );
    assert_eq!(reply(logout("session_id=x", &mut registry)), Reply::failed("Invalid number parameter"));
}

#[test]
fn sessions_are_listed() {
    let (registry, _) = state();
    assert_eq!(
        get_sessions(&registry).to_string(),
        "{\"success\": true, \"message\": \"Sessions retrieved\", \"data\": \
         [{\"session_id\": 0, \"username\": \"alice@example.org\", \"address\": \"imap.example.org\", \"port\": 993}]}"
    );
}

#[test]
fn mailboxes_from_cache_or_server() {
    let (registry, mut store) = state();
    assert_eq!(
        reply(get_mailboxes("session_id=0", &registry, &store)).to_string(),
        "{\"success\": true, \"message\": \"Mailboxes retrieved\", \"data\": [\"INBOX\"]}"
    );
    store.delete_mailbox(&alice(), "INBOX");
    assert_eq!(get_mailboxes("session_id=0", &registry, &store), Step::List(alice()));
    assert_eq!(update_mailboxes("session_id=0", &registry), Step::List(alice()));
    assert_eq!(
        reply(update_mailboxes("session_id=1", &registry)),
        Reply::failed("Invalid session_id")
    );
    let paths = vec!["A".to_string()];
    assert_eq!(mailboxes_retrieved(&paths, true).message, "Mailboxes updated");
    assert_eq!(mailboxes_retrieved(&paths, false).message, "Mailboxes retrieved");
    assert_eq!(mailboxes_retrieved(&paths, false).data, Some("[\"A\"]".to_string()));
}

fn uids_in(reply: &Reply) -> Vec<u32> {
    let data = reply.data.clone().unwrap();
    data.split("\"message_uid\": ")
        .skip(1)
        .map(|rest| rest.split(',').next().unwrap().parse().unwrap())
        .collect()
}

#[test]
fn seven_messages_sorted_by_date() {
    let (registry, store) = state();
    let answer =
        get_messages_sorted("session_id=0&mailbox_path=INBOX&start=0&end=10", &registry, &store);
    assert!(answer.success);
    assert_eq!(answer.message, "Messages retrieved");
    assert_eq!(uids_in(&answer), vec![3, 5, 7, 1, 4, 6, 2]);
    let none =
        get_messages_sorted("session_id=0&mailbox_path=INBOX&start=3&end=3", &registry, &store);
    assert_eq!(none.data, Some("[]".to_string()));
}

#[test]
fn sorted_checks_its_parameters() {
    let (registry, store) = state();
    assert_eq!(
        get_messages_sorted("session_id=0&mailbox_path=INBOX&start=0", &registry, &store),
        Reply::failed("Provide session_id, mailbox_path, start, and end GET parameters")
    );
    assert_eq!(
        get_messages_sorted("session_id=0&mailbox_path=INBOX&start=-1&end=2", &registry, &store),
        Reply::failed("Invalid number parameter")
    );
    assert_eq!(
        get_messages_sorted("session_id=0&mailbox_path=None&start=0&end=2", &registry, &store),
        Reply::failed("Mailbox not found")
    );
    assert_eq!(
        get_messages_sorted("session_id=7&mailbox_path=INBOX&start=0&end=2", &registry, &store),
        Reply::failed("Invalid session_id")
    );
}

#[test]
fn messages_by_uid_and_by_flag() {
    let (registry, store) = state();
    let answer = get_messages_with_uids(
        "session_id=0&mailbox_path=INBOX&message_uids=2,5",
        &registry,
        &store,
    );
    assert_eq!(uids_in(&answer), vec![2, 5]);
    assert_eq!(
        get_messages_with_uids("session_id=0&mailbox_path=INBOX&message_uids=2,x", &registry, &store),
        Reply::failed("Invalid number parameter")
    );
    assert_eq!(
        get_messages_with_uids("session_id=0&mailbox_path=INBOX&message_uids=99", &registry, &store),
        Reply::failed("Message not found")
    );
    assert_eq!(
        get_messages_with_uids("session_id=0&mailbox_path=INBOX", &registry, &store),
        Reply::failed("Provide session_id, mailbox_path and message_uids GET parameters")
    );
    let seen = get_messages_with_flag(
        "session_id=0&mailbox_path=INBOX&flag=Seen&not_flag=false",
        &registry,
        &store,
    );
    assert_eq!(uids_in(&seen), vec![2, 4, 6]);
    let unseen = get_messages_with_flag(
        "session_id=0&mailbox_path=INBOX&flag=Seen&not_flag=true",
        &registry,
        &store,
    );
    assert_eq!(uids_in(&unseen), vec![1, 3, 5, 7]);
    assert_eq!(
        get_messages_with_flag("session_id=0&mailbox_path=INBOX&flag=Seen&not_flag=no", &registry, &store),
        Reply::failed("Invalid boolean parameter")
    );
    assert_eq!(
        get_messages_with_flag("session_id=0&mailbox_path=INBOX&flag=Seen", &registry, &store),
        Reply::failed("Provide session_id, mailbox_path, flag, and not_flag GET parameters")
    );
}

#[test]
fn uid_lists_are_parsed() {
    assert_eq!(parse_uids("1,2,3"), Some(vec![1, 2, 3]));
    assert_eq!(parse_uids("4294967295"), Some(vec![4294967295]));
    assert_eq!(parse_uids("4294967296"), None);
    assert_eq!(parse_uids(""), None);
    assert_eq!(parse_uids("1,,2"), None);
    assert_eq!(parse_uids("1, 2"), None);
}

#[test]
fn update_mailbox_is_begun() {
    let (registry, _) = state();
    match update_mailbox("session_id=0&mailbox_path=INBOX", &registry) {
        Step::Begin(client, path, update, action) => {
            assert_eq!(client, alice());
            assert_eq!(path, "INBOX");
            assert_eq!(update.phase, Phase::Probing);
            assert!(!update.quick);
            assert_eq!(action, SyncAction::FetchUids { start: u32::MAX - 1, end: u32::MAX });
        }
        other => panic!("{:?}", other),
    }
    match update_mailbox("session_id=0&mailbox_path=INBOX&quick=true", &registry) {
        Step::Begin(_, _, update, _) => assert!(update.quick),
        other => panic!("{:?}", other),
    }
    assert_eq!(
        reply(update_mailbox("session_id=0", &registry)),
        Reply::failed("Provide session_id and mailbox_path GET parameters")
    );
    assert_eq!(
        reply(update_mailbox("session_id=0&mailbox_path=INBOX&quick=1", &registry)),
        Reply::failed("Invalid boolean parameter")
    );
    assert_eq!(
        reply(update_mailbox("session_id=0&mailbox_path=", &registry)),
        Reply::failed("Provide a mailbox path")
    );
    let changes = MailboxChanges { new: vec![5], changed: vec![], removed: vec![4] };
    assert_eq!(
        mailbox_updated(&changes).to_string(),
        "{\"success\": true, \"message\": \"Mailbox updated\", \"data\": \
         {\"new_uids\": [5], \"removed_uids\": [4], \"changed_uids\": []}}"
    );
}

#[test]
fn modify_flags_is_prepared() {
    let (registry, _) = state();
    match modify_flags(
        "session_id=0&mailbox_path=INBOX&message_uid=2&flags=Seen,Flagged&add=true",
        &registry,
    ) {
        Step::Store(command) => {
            assert_eq!(command.query, "+FLAGS (\\Seen \\Flagged)");
            assert_eq!(command.uid, 2);
            assert_eq!(command.path, "INBOX");
        }
        other => panic!("{:?}", other),
    }
    assert_eq!(
        reply(modify_flags("session_id=0&mailbox_path=INBOX&message_uid=2&flags=Seen", &registry)),
        Reply::failed(
            "Provide session_id, mailbox_path, message_uid, flags, and add GET parameters"
        )
    );
    assert_eq!(
        flags_updated("Answered,Seen").to_string(),
        "{\"success\": true, \"message\": \"Flags successfully updated\", \"data\": \"Answered,Seen\"}"
    );
}

#[test]
fn move_message_is_prepared() {
    let (registry, _) = state();
    match move_message(
        "session_id=0&mailbox_path=INBOX&message_uid=2&mailbox_path_dest=Old%20mail",
        &registry,
    ) {
        Step::Move(command) => {
            assert_eq!(command.destination, "Old mail");
            assert_eq!(command.uid, 2);
        }
        other => panic!("{:?}", other),
    }
    assert_eq!(
        reply(move_message("session_id=0&mailbox_path=INBOX&message_uid=2", &registry)),
        Reply::failed(
            "Provide session_id, mailbox_path, message_uid, and mailbox_path_dest GET parameters"
        )
    );
    assert_eq!(
        message_moved().to_string(),
        "{\"success\": true, \"message\": \"Message successfully moved\"}"
    );
}

#[test]
fn errors_become_answers() {
    let e = ApiError::new(ErrorKind::Transport, "Connection lost");
    assert_eq!(error(&e), Reply::failed("Connection lost"));
}

#[test]
fn routes() {
    assert_eq!(route("/login"), Route::Login);
    assert_eq!(route("/logout"), Route::Logout);
    assert_eq!(route("/sessions"), Route::Sessions);
    assert_eq!(route("/mailboxes"), Route::Mailboxes);
    assert_eq!(route("/update_mailboxes"), Route::UpdateMailboxes);
    assert_eq!(route("/messages_with_uids"), Route::MessagesWithUids);
    assert_eq!(route("/messages_sorted"), Route::MessagesSorted);
    assert_eq!(route("/messages_with_flag"), Route::MessagesWithFlag);
    assert_eq!(route("/update_mailbox"), Route::UpdateMailbox);
    assert_eq!(route("/modify_flags"), Route::ModifyFlags);
    assert_eq!(route("/move_message"), Route::MoveMessage);
    assert_eq!(route("/"), Route::NotFound);
    assert_eq!(route("/login/"), Route::NotFound);
}

#[test]
fn request_lines_are_read() {
    let request = "GET /messages_sorted?session_id=0&start=1 HTTP/1.1\r\nHost: x\r\n\r\n";
    assert_eq!(
        request_target(request),
        ("/messages_sorted".to_string(), "session_id=0&start=1".to_string())
    );
    assert_eq!(request_target("GET /sessions HTTP/1.1\r\n"), ("/sessions".to_string(), String::new()));
    assert_eq!(request_target(""), (String::new(), String::new()));
    assert_eq!(request_target("GET"), (String::new(), String::new()));
    assert_eq!(request_target("GET /a?b?c x"), ("/a".to_string(), "b".to_string()));
    assert_eq!(request_target("GET /a\nb c\r\nd /e"), ("/a\nb".to_string(), String::new()));
    assert_eq!(request_target("GET /x\r"), ("/x\r".to_string(), String::new()));
}

#[test]
fn responses_carry_the_length_in_bytes() {
    assert_eq!(http_response("{}"), "HTTP/1.1 200 OK\r\nContent-Length: 2\r\n\r\n{}");
    assert_eq!(http_response("é"), "HTTP/1.1 200 OK\r\nContent-Length: 2\r\n\r\né");
    assert_eq!(http_response(""), "HTTP/1.1 200 OK\r\nContent-Length: 0\r\n\r\n");
}

#[test]
fn requests_are_dispatched() {
    let (mut registry, store) = state();
    let answer = reply(handle_request(
        "/messages_sorted",
        "session_id=0&mailbox_path=INBOX&start=0&end=10",
        &mut registry,
        &store,
    ));
    assert_eq!(uids_in(&answer), vec![3, 5, 7, 1, 4, 6, 2]);
    assert_eq!(
        reply(handle_request("/nowhere", "", &mut registry, &store)),
        Reply::failed("Not Found")
    );
    assert_eq!(
        handle_request("/logout", "session_id=0", &mut registry, &store),
        Step::Close(0, alice())
    );
    assert_eq!(handle_request("/login", LOGIN, &mut registry, &store), Step::Connect(alice()));
    assert_eq!(
        reply(handle_request("/sessions", "", &mut registry, &store)).data,
        Some("[]".to_string())
    );
}
