use mailsync::display::{
    changes_to_display, message_vec_to_display, sessions_to_display, string_vec_to_display,
    u32_vec_to_display, Reply,
};
use mailsync::envelope::{
    envelope_to_string, flag_lines, lacks_uid, message_address, message_from_fetch, message_str, message_to_string,
    Address, Envelope, Fetch,
};
use mailsync::flags::Flag;
use mailsync::message::Client;
use mailsync::number::{parse_decimal, push_decimal};

fn bytes(s: &str) -> Option<Vec<u8>> {
    Some(s.as_bytes().to_vec())
}

fn address(name: &str, mailbox: &str, host: &str) -> Address {
    Address { name: bytes(name), mailbox: bytes(mailbox), host: bytes(host) }
}

fn envelope() -> Envelope {
    Envelope {
        date: bytes("Thu, 1 Jan 2015 10:00:00 +0000"),
        subject: bytes("Hi"),
        from: Some(vec![address("Al", "al", "example.org")]),
        sender: None,
        reply_to: Some(vec![]),
        to: Some(vec![address("B", "b", "x.org"), Address { name: None, mailbox: bytes("c"), host: None }]),
        cc: None,
        bcc: None,
        in_reply_to: None,
        message_id: bytes("<1@x>"),
    }
}

#[test]
fn bytes_become_text_or_nothing() {
    assert_eq!(message_str(Some("héllo".as_bytes())), "héllo");
    assert_eq!(message_str(Some(&[0xff, 0xfe])), "");
    assert_eq!(message_str(Some(&[])), "");
    assert_eq!(message_str(None), "");
}

#[test]
fn address_lists_in_json() {
    assert_eq!(message_address(&None), "[]");
    assert_eq!(message_address(&Some(vec![])), "[]");
    assert_eq!(
        message_address(&Some(vec![address("Al", "al", "example.org")])),
        "[{\"name\": \"Al\",\"mailbox\": \"al\",\"host\": \"example.org\"}]"
    );
    assert_eq!(
        message_address(&envelope().to),
        "[{\"name\": \"B\",\"mailbox\": \"b\",\"host\": \"x.org\"},{\"name\": \"\",\"mailbox\": \"c\",\"host\": \"\"}]"
    );
}

#[test]
fn envelope_in_json() {
    let fetch = Fetch { message: 3, uid: Some(7), flags: vec![], envelope: Some(envelope()), body: None };
    assert_eq!(
        envelope_to_string(&fetch, 7),
        "{\"date\": \"Thu, 1 Jan 2015 10:00:00 +0000\",\"subject\": \"Hi\",\
         \"from\": [{\"name\": \"Al\",\"mailbox\": \"al\",\"host\": \"example.org\"}],\
         \"sender\": [],\"reply_to\": [],\
         \"to\": [{\"name\": \"B\",\"mailbox\": \"b\",\"host\": \"x.org\"},{\"name\": \"\",\"mailbox\": \"c\",\"host\": \"\"}],\
         \"cc\": [],\"bcc\": [],\"in_reply_to\": \"\",\"message_id\": \"<1@x>\",\"message_uid\": 7}"
    );
    let bare = Fetch { message: 3, uid: Some(7), flags: vec![], envelope: None, body: None };
    assert_eq!(envelope_to_string(&bare, 7), "");
}

#[test]
fn parsed_message_in_json() {
    let body = "Date: Thu, 1 Jan 2015 10:00:00 +0000\nSubject: s\nFrom: f\nTo: t\nMessage-ID: m\nDelivered-To: d\n\nContent-Type: text/plain\n\nhi\n";
    let fetch = Fetch { message: 1, uid: Some(12), flags: vec![], envelope: None, body: bytes(body) };
    assert_eq!(
        message_to_string(&fetch, 12),
        "{\"message_uid\": 12,\"date\": \"2015-01-01T10:00:00+00:00\",\
         \"received\": \"1970-01-01T00:00:00+00:00\",\"subject\": \"s\",\"from\": \"f\",\
         \"to\": \"t\",\"delivered_to\": \"d\",\"message_id\": \"m\",\"text\": \"aGk=\",\"html\": \"\"}"
    );
    let broken = Fetch { message: 1, uid: Some(12), flags: vec![], envelope: None, body: Some(vec![0xff]) };
    assert_eq!(
        message_to_string(&broken, 0),
        "{\"message_uid\": 0,\"date\": \"1970-01-01T00:00:00+00:00\",\
         \"received\": \"1970-01-01T00:00:00+00:00\",\"subject\": \"\",\"from\": \"\",\
         \"to\": \"\",\"delivered_to\": \"\",\"message_id\": \"\",\"text\": \"\",\"html\": \"\"}"
    );
}

#[test]
fn a_fetch_becomes_a_cache_record() {
    let body = "Date: Thu, 1 Jan 2015 10:00:00 +0000\nDelivered-To: me\n\nContent-Type: text/html\nContent-Transfer-Encoding: base64\n\nPGI+\n";
    let fetch = Fetch {
        message: 4,
        uid: Some(5),
        flags: vec![Flag::Seen, Flag::Answered],
        envelope: Some(envelope()),
        body: bytes(body),
    };
    let message = message_from_fetch(&fetch).unwrap();
    assert_eq!(message.message_uid, 5);
    assert_eq!(message.sequence_id, 4);
    assert_eq!(message.message_id, "<1@x>");
    assert_eq!(message.subject, "Hi");
    assert_eq!(message.from_, "[{\"name\": \"Al\",\"mailbox\": \"al\",\"host\": \"example.org\"}]");
    assert_eq!(message.sender, "[]");
    assert_eq!(message.cc, "[]");
    assert_eq!(message.in_reply_to, "");
    assert_eq!(message.delivered_to, "me");
    assert_eq!(message.date_, "2015-01-01T10:00:00+00:00");
    assert_eq!(message.received, "1970-01-01T00:00:00+00:00");
    assert_eq!(message.flags, "Answered,Seen");
    assert_eq!(message.html, "PGI+");
    assert_eq!(message.text, "");
    let without_uid = Fetch { uid: None, ..fetch.clone() };
    assert_eq!(message_from_fetch(&without_uid), None);
    let bare = Fetch { message: 1, uid: Some(2), flags: vec![], envelope: None, body: None };
    let message = message_from_fetch(&bare).unwrap();
    assert_eq!(message.from_, "[]");
    assert_eq!(message.subject, "");
    assert_eq!(message.date_, "1970-01-01T00:00:00+00:00");
    assert_eq!(message.flags, "");
}

#[test]
fn lists_in_json() {
    assert_eq!(u32_vec_to_display(&vec![]), "[]");
    assert_eq!(u32_vec_to_display(&vec![5, 0, 4294967295]), "[5,0,4294967295]");
    assert_eq!(string_vec_to_display(&vec![]), "[]");
    assert_eq!(
        string_vec_to_display(&vec!["INBOX".to_string(), "Sent".to_string()]),
        "[\"INBOX\",\"Sent\"]"
    );
    assert_eq!(message_vec_to_display(&vec![]), "[]");
    assert_eq!(
        changes_to_display(&vec![5], &vec![4], &vec![]),
        "{\"new_uids\": [5], \"removed_uids\": [4], \"changed_uids\": []}"
    );
    let client = Client {
        username: "u".to_string(),
        password: "p".to_string(),
        address: "a".to_string(),
        port: 993,
    };
    assert_eq!(
        sessions_to_display(&vec![(0, client.clone()), (2, client)]),
        "[{\"session_id\": 0, \"username\": \"u\", \"address\": \"a\", \"port\": 993},\
         {\"session_id\": 2, \"username\": \"u\", \"address\": \"a\", \"port\": 993}]"
    );
}

#[test]
fn answers_in_json() {
    assert_eq!(Reply::failed("no").to_string(), "{\"success\": false, \"message\": \"no\"}");
    assert_eq!(Reply::done("ok").to_string(), "{\"success\": true, \"message\": \"ok\"}");
    assert_eq!(
        Reply::with_data("ok", "[1]".to_string()).to_string(),
        "{\"success\": true, \"message\": \"ok\", \"data\": [1]}"
    );
}

#[test]
fn numbers_are_written_and_read() {
    for n in [0u64, 7, 10, 99, 100, 4294967295, u64::MAX] {
        let mut out = Vec::new();
        push_decimal(&mut out, n);
        assert_eq!(out.iter().collect::<String>(), n.to_string());
        assert_eq!(parse_decimal(&out, u64::MAX), Some(n));
    }
    let mut out = vec!['x'];
    push_decimal(&mut out, 42);
    assert_eq!(out, vec!['x', '4', '2']);
}

#[test]
fn lines_without_uid_get_it_from_the_pairs() {
    let line = |message: u32, uid: Option<u32>, flags: Vec<Flag>| Fetch {
        message,
        uid,
        flags,
        envelope: None,
        body: None,
    };
    let lines = vec![
        line(1, Some(10), vec![Flag::Seen]),
        line(2, None, vec![Flag::Custom("x".to_string())]),
        line(3, None, vec![]),
        line(4, Some(40), vec![]),
    ];
    assert!(lacks_uid(&lines));
    assert!(!lacks_uid(&lines[..1].to_vec()));
    assert!(!lacks_uid(&vec![]));
    let pairs = vec![(20, 2), (99, 2), (10, 1)];
    assert_eq!(
        flag_lines(&lines, &pairs),
        vec![
            (10, vec![Flag::Seen]),
            (20, vec![Flag::Custom("x".to_string())]),
            (40, vec![]),
        ]
    );
    assert_eq!(flag_lines(&lines, &vec![]), vec![(10, vec![Flag::Seen]), (40, vec![])]);
}
