use mailsync::flags::{canonicalize_flags, flags_to_string, query, Flag};
use mailsync::order::{rank, text_le};

fn chars(s: &str) -> Vec<char> {
    s.chars().collect()
}

#[test]
fn canonical_form_is_sorted_and_bare() {
    assert_eq!(canonicalize_flags("Seen,Answered"), "Answered,Seen");
    assert_eq!(canonicalize_flags("\\Seen,\\Answered"), "Answered,Seen");
    assert_eq!(canonicalize_flags(""), "");
    assert_eq!(canonicalize_flags(",,"), "");
    assert_eq!(canonicalize_flags("\\"), "");
    assert_eq!(canonicalize_flags("\\\\Seen,,Draft"), "Draft,Seen");
    assert_eq!(canonicalize_flags("b,a,b"), "a,b,b");
    assert_eq!(canonicalize_flags("Seen"), "Seen");
}

#[test]
fn canonicalizing_twice_changes_nothing() {
    for s in ["Seen,Answered", "\\Seen,\\\\Answered,,x", "", ",", "z,y,x,\\a", "a\\b,\\c"] {
        let once = canonicalize_flags(s);
        assert_eq!(canonicalize_flags(&once), once);
    }
}

#[test]
fn flags_of_the_server_become_the_canonical_string() {
    assert_eq!(flags_to_string(&[Flag::Answered, Flag::Seen]), "Answered,Seen");
    assert_eq!(flags_to_string(&[Flag::Seen, Flag::Answered]), "Answered,Seen");
    assert_eq!(flags_to_string(&[]), "");
    assert_eq!(
        flags_to_string(&[
            Flag::Recent,
            Flag::MayCreate,
            Flag::Custom("$Junk".to_string()),
            Flag::Flagged,
            Flag::Deleted,
            Flag::Draft
        ]),
        "$Junk,*,Deleted,Draft,Flagged,Recent"
    );
}

#[test]
fn store_item_list() {
    assert_eq!(query("Seen", true), "+FLAGS (\\Seen)");
    assert_eq!(query("Seen,Answered", false), "-FLAGS (\\Seen \\Answered)");
    assert_eq!(query("", true), "+FLAGS (\\)");
}

#[test]
fn text_order_agrees_with_std() {
    let samples = ["", "a", "ab", "b", "B", "é", "a,", "aa", "\u{10000}"];
    for a in samples {
        for b in samples {
            assert_eq!(text_le(&chars(a), &chars(b)), a <= b, "{:?} {:?}", a, b);
        }
    }
}

#[test]
fn rank_sorts_positions() {
    let keys: Vec<Vec<char>> = ["b", "a", "c", "a"].iter().map(|s| chars(s)).collect();
    assert_eq!(rank(&keys, false), vec![1, 3, 0, 2]);
    assert_eq!(rank(&keys, true), vec![2, 0, 1, 3]);
    assert_eq!(rank(&Vec::new(), false), Vec::<usize>::new());
}

#[test]
fn no_flags_give_the_empty_string() {
    assert_eq!(flags_to_string(&[]), "");
    assert_eq!(canonicalize_flags(""), "");
}
