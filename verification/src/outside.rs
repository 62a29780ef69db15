//! The calls this library makes into other crates. Each function here is
//! believed, not proved: its contract says what the called function is
//! documented to do.

use vstd::prelude::*;
use vstd::utf8::{decode_utf8, valid_utf8};

verus! {

/// What percent-decoding makes of a text: every `%XY` escape replaced by the
/// byte it stands for, and the bytes read as UTF-8 with U+FFFD in place of
/// what is not UTF-8.
pub uninterp spec fn url_decoded(text: Seq<char>) -> Seq<char>;

/// Percent-decodes a text with `url_escape::decode`. The result depends on
/// the text alone.
#[verifier::external_body]
pub(crate) fn url_decode(text: &str) -> (res: String)
    ensures
        res@ == url_decoded(text@),
{
    url_escape::decode(text).into_owned()
}

/// What a capture group of a regular expression holds in the leftmost
/// match of the expression in a text. There is none where the pattern is no
/// valid expression, where the text has no match, where the expression has
/// no such group, and where the group took no part in the match.
pub uninterp spec fn regex_capture(pattern: Seq<char>, haystack: Seq<char>, group: usize) -> Option<
    Seq<char>,
>;

/// Compiles `pattern` with `regex::Regex::new`, searches `haystack` with
/// `Regex::captures` and hands out the text of the group with the given
/// number, as `Captures::get` finds it. The result depends on the pattern,
/// the text and the number alone; a pattern that does not compile gives
/// `None`, as a text without a match does.
#[verifier::external_body]
pub(crate) fn capture(pattern: &str, haystack: &str, group: usize) -> (res: Option<String>)
    ensures
        match res {
            Some(found) => regex_capture(pattern@, haystack@, group) == Some(found@),
            None => regex_capture(pattern@, haystack@, group) is None,
        },
{
    match regex::Regex::new(pattern) {
        Ok(expression) => match expression.captures(haystack) {
            Some(groups) => match groups.get(group) {
                Some(found) => Some(found.as_str().to_string()),
                None => None,
            },
            None => None,
        },
        Err(_) => None,
    }
}

/// The standard base64 encoding, with padding, of the UTF-8 bytes of a text.
pub uninterp spec fn base64_text(text: Seq<char>) -> Seq<char>;

/// Encodes the bytes of a text with the `encode` method of
/// `base64::prelude::BASE64_STANDARD`. The result depends on the text alone.
/// The method fails only where four thirds of the input's length exceed
/// `usize`, which no string reaches: a string holds at most `isize::MAX`
/// bytes.
#[verifier::external_body]
pub(crate) fn base64_encode(text: &str) -> (res: String)
    ensures
        res@ == base64_text(text@),
{
    base64::Engine::encode(&base64::prelude::BASE64_STANDARD, text.as_bytes())
}

/// The RFC 3339 form of a date and time written as RFC 2822 prescribes, or
/// nothing where the text is no such date.
pub uninterp spec fn rfc3339_of_rfc2822(text: Seq<char>) -> Option<Seq<char>>;

/// Reads a date with `chrono::DateTime::parse_from_rfc2822` and writes what
/// was read with `DateTime::to_rfc3339`. The result depends on the text
/// alone; a text that does not parse gives `None`.
#[verifier::external_body]
pub(crate) fn rfc2822_to_rfc3339(text: &str) -> (res: Option<String>)
    ensures
        match res {
            Some(moment) => rfc3339_of_rfc2822(text@) == Some(moment@),
            None => rfc3339_of_rfc2822(text@) is None,
        },
{
    match chrono::DateTime::parse_from_rfc2822(text) {
        Ok(moment) => Some(moment.to_rfc3339()),
        Err(_) => None,
    }
}

/// Reads bytes as UTF-8 with `std::str::from_utf8`, which accepts exactly
/// the well-formed sequences and decodes them character by character.
#[verifier::external_body]
pub(crate) fn utf8_text(bytes: &[u8]) -> (res: Option<String>)
    ensures
        match res {
            Some(text) => valid_utf8(bytes@) && text@ == decode_utf8(bytes@),
            None => !valid_utf8(bytes@),
        },
{
    match std::str::from_utf8(bytes) {
        Ok(text) => Some(text.to_string()),
        Err(_) => None,
    }
}

} // verus!
