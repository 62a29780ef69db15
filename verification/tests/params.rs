use mailsync::error::ErrorKind;
use mailsync::params::{get_bool, get_u16, get_u32, get_usize, parse_params, split_params};

#[test]
fn numbers_are_read() {
    let s = String::from("42");
    assert_eq!(get_usize(Some(&s)), Ok(Some(42)));
    assert_eq!(get_u16(Some(&s)), Ok(Some(42)));
    assert_eq!(get_u32(Some(&s)), Ok(Some(42)));
    assert_eq!(get_u32(None), Ok(None));
    assert_eq!(get_usize(None), Ok(None));
    assert_eq!(get_u16(None), Ok(None));
}

#[test]
fn numbers_agree_with_std() {
    for s in ["0", "007", "+5", "65535", "65536", "4294967295", "4294967296", "", "+", "-1", "1a", " 1", "18446744073709551615", "18446744073709551616", "99999999999999999999999"] {
        let owned = String::from(s);
        assert_eq!(get_u16(Some(&owned)).ok(), s.parse::<u16>().ok().map(Some), "{}", s);
        assert_eq!(get_u32(Some(&owned)).ok(), s.parse::<u32>().ok().map(Some), "{}", s);
        assert_eq!(get_usize(Some(&owned)).ok(), s.parse::<usize>().ok().map(Some), "{}", s);
    }
}

#[test]
fn malformed_number_is_an_invalid_argument() {
    let s = String::from("12x");
    let e = get_u32(Some(&s)).unwrap_err();
    assert_eq!(e.kind, ErrorKind::InvalidArgument);
    assert_eq!(e.to_string(), "Invalid number parameter");
    let big = String::from("70000");
    assert_eq!(get_u16(Some(&big)).unwrap_err().kind, ErrorKind::InvalidArgument);
}

#[test]
fn booleans_are_read() {
    let t = String::from("true");
    let f = String::from("false");
    let x = String::from("True");
    assert_eq!(get_bool(Some(&t)), Ok(Some(true)));
    assert_eq!(get_bool(Some(&f)), Ok(Some(false)));
    assert_eq!(get_bool(None), Ok(None));
    let e = get_bool(Some(&x)).unwrap_err();
    assert_eq!(e.kind, ErrorKind::InvalidArgument);
    assert_eq!(e.to_string(), "Invalid boolean parameter");
}

#[test]
fn params_are_split_and_decoded() {
    let params = parse_params(String::from("session_id=0&mailbox_path=INBOX%2FSub&x&a=b=c&flag=%C3%A9"));
    assert_eq!(params.get("session_id"), Some(&String::from("0")));
    assert_eq!(params.get("mailbox_path"), Some(&String::from("INBOX/Sub")));
    assert_eq!(params.get("flag"), Some(&String::from("é")));
    assert_eq!(params.get("x"), None);
    assert_eq!(params.get("a"), None);
    assert_eq!(params.get("missing"), None);
}

#[test]
fn the_last_value_of_a_key_counts() {
    let params = parse_params(String::from("a=1&a=2"));
    assert_eq!(params.get("a"), Some(&String::from("2")));
}

#[test]
fn empty_query_has_no_params() {
    let params = parse_params(String::new());
    assert_eq!(params.get(""), None);
    let raw = split_params(&Vec::new());
    assert!(raw.is_empty());
}

#[test]
fn raw_pairs_keep_what_is_written() {
    let uri: Vec<char> = "k=%20v&=".chars().collect();
    let raw = split_params(&uri);
    assert_eq!(raw.len(), 2);
    assert_eq!(raw[0].1.iter().collect::<String>(), "%20v");
    assert_eq!(raw[1].0.len(), 0);
}
