use mailsync::text::{
    chars_to_string, contains, find_text, is_whitespace, join, lines, replace, split,
    starts_alphabetic, starts_with, str_chars, trim,
};

fn chars(s: &str) -> Vec<char> {
    s.chars().collect()
}

fn strings(v: Vec<Vec<char>>) -> Vec<String> {
    v.into_iter().map(|l| l.into_iter().collect()).collect()
}

#[test]
fn str_chars_keeps_every_character() {
    assert_eq!(str_chars("a©b"), vec!['a', '©', 'b']);
    assert_eq!(str_chars(""), Vec::<char>::new());
}

#[test]
fn split_agrees_with_std() {
    for s in ["", "a", "a,b", ",", "a,,b,", ",a"] {
        let expected: Vec<String> = s.split(',').map(|p| p.to_string()).collect();
        assert_eq!(strings(split(&chars(s), ',')), expected);
    }
}

#[test]
fn lines_agree_with_std() {
    for s in ["", "a", "a\n", "a\r\n", "a\r", "a\n\nb", "\n", "a\r\r\nb\r", "x\ny\n\n"] {
        let expected: Vec<String> = s.lines().map(|p| p.to_string()).collect();
        assert_eq!(strings(lines(&chars(s))), expected, "{:?}", s);
    }
}

#[test]
fn trim_agrees_with_std() {
    for s in ["", " ", " a b \t", "\u{a0}x\u{3000}", "abc", "\r\n a"] {
        let got: String = trim(&chars(s)).into_iter().collect();
        assert_eq!(got, s.trim());
    }
}

#[test]
fn replace_agrees_with_std() {
    for (s, from, to) in [("a=3Db", "=3D", "="), ("aaa", "aa", "b"), ("", "x", "y"), ("x&amp;amp;", "&amp;", "&")] {
        let got: String = replace(&chars(s), &chars(from), &chars(to)).into_iter().collect();
        assert_eq!(got, s.replace(from, to));
    }
}

#[test]
fn white_space_agrees_with_std() {
    for code in 0u32..=0x11000 {
        if let Some(c) = char::from_u32(code) {
            assert_eq!(is_whitespace(c), c.is_whitespace(), "{:x}", code);
        }
    }
    assert!(!is_whitespace('\u{10ffff}'));
}

#[test]
fn strings_and_characters_convert_both_ways() {
    for s in ["", "abc", "a\u{a9}\u{10000}b"] {
        assert_eq!(chars_to_string(&str_chars(s)), s);
    }
}

#[test]
fn searching_agrees_with_std() {
    let hay = "abcabcab";
    for needle in ["", "a", "bc", "cab", "abcabcab", "abcabcabc", "x"] {
        assert_eq!(contains(&chars(hay), &chars(needle)), hay.contains(needle), "{}", needle);
        assert_eq!(starts_with(&chars(hay), &chars(needle)), hay.starts_with(needle), "{}", needle);
    }
    assert_eq!(find_text(&chars(hay), &chars("ca"), 0), 2);
    assert_eq!(find_text(&chars(hay), &chars("ca"), 3), 5);
    assert_eq!(find_text(&chars(hay), &chars("ca"), 6), 8);
    assert_eq!(find_text(&chars(hay), &chars("zz"), 0), 8);
}

#[test]
fn joining_undoes_splitting() {
    for s in ["", "a", "a,b", ",", "a,,b,"] {
        let pieces = split(&chars(s), ',');
        assert_eq!(join(&pieces, ',').iter().collect::<String>(), s);
    }
}

#[test]
fn a_text_begins_with_a_letter_or_not() {
    assert!(starts_alphabetic(&chars("abc")));
    assert!(starts_alphabetic(&chars("\u{e9}")));
    assert!(!starts_alphabetic(&chars("1a")));
    assert!(!starts_alphabetic(&chars(" a")));
    assert!(!starts_alphabetic(&chars("")));
}
