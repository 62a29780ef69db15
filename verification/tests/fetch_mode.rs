use mailsync::fetch_mode::{string, FetchMode};

#[test]
fn item_lists() {
    assert_eq!(string(FetchMode::ALL), "(UID FLAGS ENVELOPE BODY.PEEK[])");
    assert_eq!(string(FetchMode::ENVELOPE), "ENVELOPE");
    assert_eq!(string(FetchMode::BODY), "BODY");
    assert_eq!(string(FetchMode::UID), "UID");
    assert_eq!(string(FetchMode::FLAGS), "FLAGS");
}
