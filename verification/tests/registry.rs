use mailsync::error::ErrorKind;
use mailsync::message::Client;
use mailsync::registry::{Login, Registry};
use mailsync::retry::{classify, handle_disconnect, Attempt, ImapFailure, Recovery};

fn client(name: &str, password: &str, port: u16) -> Client {
    Client {
        username: name.to_string(),
        password: password.to_string(),
        address: "imap.example.org".to_string(),
        port,
    }
}

#[test]
fn a_second_login_finds_the_first_session() {
    let mut registry = Registry::new();
    let alice = client("alice@example.org", "one", 993);
    assert_eq!(registry.login(&alice), Login::Connect);
    assert_eq!(registry.connected(&alice), 0);
    assert_eq!(registry.login(&alice), Login::Existing(0));
    let again = client("alice@example.org", "two", 143);
    assert_eq!(registry.login(&again), Login::Existing(0));
    assert_eq!(registry.len(), 1);
}

#[test]
fn session_ids_are_dense_and_stay() {
    let mut registry = Registry::new();
    assert_eq!(registry.connected(&client("a", "x", 1)), 0);
    assert_eq!(registry.connected(&client("b", "x", 1)), 1);
    assert_eq!(registry.connected(&client("c", "x", 1)), 2);
    assert_eq!(registry.find("b", "imap.example.org"), Some(1));
    assert_eq!(registry.find("b", "other.example.org"), None);
    assert_eq!(registry.find("z", "imap.example.org"), None);
    registry.logout(1).unwrap();
    assert_eq!(registry.find("b", "imap.example.org"), Some(1));
    assert_eq!(registry.login(&client("b", "x", 1)), Login::Connect);
    assert_eq!(registry.connected(&client("b", "y", 2)), 1);
    assert_eq!(registry.client(1).unwrap(), client("b", "y", 2));
    assert_eq!(registry.len(), 3);
}

#[test]
fn session_id_errors() {
    let mut registry = Registry::new();
    registry.connected(&client("a", "x", 1));
    let e = registry.client(1).unwrap_err();
    assert_eq!(e.kind, ErrorKind::InvalidArgument);
    assert_eq!(e.to_string(), "Invalid session_id");
    assert_eq!(registry.logout(5).unwrap_err().kind, ErrorKind::InvalidArgument);
    assert_eq!(registry.logout(0).unwrap(), client("a", "x", 1));
    let e = registry.client(0).unwrap_err();
    assert_eq!(e.kind, ErrorKind::NotConnected);
    assert_eq!(e.to_string(), "Session is not connected");
    assert_eq!(registry.logout(0).unwrap_err().kind, ErrorKind::NotConnected);
}

#[test]
fn live_sessions_are_listed_by_id() {
    let mut registry = Registry::new();
    registry.connected(&client("a", "x", 1));
    registry.connected(&client("b", "x", 2));
    registry.connected(&client("c", "x", 3));
    registry.logout(1).unwrap();
    let sessions = registry.sessions();
    assert_eq!(sessions, vec![(0, client("a", "x", 1)), (2, client("c", "x", 3))]);
    assert!(Registry::new().sessions().is_empty());
}

#[test]
fn failures_are_classified() {
    assert_eq!(classify(ImapFailure::ConnectionLost), ErrorKind::Transport);
    assert_eq!(classify(ImapFailure::Io), ErrorKind::Transport);
    for f in [
        ImapFailure::No,
        ImapFailure::Bad,
        ImapFailure::Parse,
        ImapFailure::Validate,
        ImapFailure::Other,
    ] {
        assert_eq!(classify(f), ErrorKind::Protocol);
        assert_eq!(handle_disconnect(f, false), Recovery::Surface);
    }
}

#[test]
fn one_reconnect_per_operation() {
    assert_eq!(handle_disconnect(ImapFailure::ConnectionLost, false), Recovery::Reconnect);
    assert_eq!(handle_disconnect(ImapFailure::Io, false), Recovery::Reconnect);
    assert_eq!(handle_disconnect(ImapFailure::Io, true), Recovery::Surface);
    let mut attempt = Attempt::first();
    assert_eq!(attempt.failed(ImapFailure::No), Recovery::Surface);
    assert!(!attempt.retried);
    assert_eq!(attempt.failed(ImapFailure::ConnectionLost), Recovery::Reconnect);
    assert!(attempt.retried);
    assert_eq!(attempt.failed(ImapFailure::ConnectionLost), Recovery::Surface);
    assert_eq!(attempt.failed(ImapFailure::Io), Recovery::Surface);
}
