//! The message body parser: a line-by-line state machine that collects the
//! headers, the plain-text part and the HTML part of a message.

use crate::outside::{
    base64_encode, base64_text, capture, regex_capture, rfc2822_to_rfc3339,
    rfc3339_of_rfc2822,
};
use crate::text::{
    append_chars, begins_alphabetic, chars_eq, chars_to_string, contains_char, copy_chars,
    find_char, find_from, has_char, has_prefix, lines, pair_texts, replace, replaced,
    slice_chars, starts_alphabetic, starts_with, str_chars, text_lines, texts, trim, trimmed,
};
use vstd::prelude::*;
use vstd::string::StringExecFns;

verus! {

/// Where the parser stands between two lines.
#[derive(Clone, Copy, Debug, PartialEq, Eq, Structural)]
pub enum State {
    /// A header line is expected.
    HeaderKey,
    /// A header was read; its value may continue.
    HeaderValue,
    /// Inside the headers of a plain-text part.
    TextHeader,
    /// Inside the body of a plain-text part.
    Text,
    /// Inside the headers of an HTML part.
    HtmlHeader,
    /// Inside the body of an HTML part.
    Html,
    /// Between parts.
    BlankLine,
}

/// What the parser has collected so far.
pub struct Scan {
    pub state: State,
    /// The key of the header read last.
    pub header_key: Vec<char>,
    /// The headers, each key once, in the order in which they first came.
    pub headers: Vec<(Vec<char>, Vec<char>)>,
    pub text: Vec<char>,
    pub html: Vec<char>,
    /// The transfer encoding declared for the plain-text part.
    pub text_encoding: Vec<char>,
    /// The transfer encoding declared for the HTML part.
    pub html_encoding: Vec<char>,
}

/// The mathematical content of a `Scan`.
pub struct ScanView {
    pub state: State,
    pub header_key: Seq<char>,
    pub headers: Seq<(Seq<char>, Seq<char>)>,
    pub text: Seq<char>,
    pub html: Seq<char>,
    pub text_encoding: Seq<char>,
    pub html_encoding: Seq<char>,
}

impl View for Scan {
    type V = ScanView;

    open spec fn view(&self) -> ScanView {
        ScanView {
            state: self.state,
            header_key: self.header_key@,
            headers: pair_texts(self.headers@),
            text: self.text@,
            html: self.html@,
            text_encoding: self.text_encoding@,
            html_encoding: self.html_encoding@,
        }
    }
}

/// The first position at or after `from` whose header has the key `key`, or
/// the number of headers if there is none.
pub open spec fn header_slot(headers: Seq<(Seq<char>, Seq<char>)>, key: Seq<char>, from: int) -> int
    decreases headers.len() - from,
{
    if from >= headers.len() || from < 0 {
        headers.len() as int
    } else if headers[from].0 == key {
        from
    } else {
        header_slot(headers, key, from + 1)
    }
}

/// The headers after `value` was recorded under `key`: appended to the value
/// the key already has, or entered as a new header.
pub open spec fn with_header(
    headers: Seq<(Seq<char>, Seq<char>)>,
    key: Seq<char>,
    value: Seq<char>,
) -> Seq<(Seq<char>, Seq<char>)> {
    let at = header_slot(headers, key, 0);
    if at < headers.len() {
        headers.update(at, (key, headers[at].1 + value))
    } else {
        headers.push((key, value))
    }
}

/// The value recorded under `key`, empty if there is none.
pub open spec fn header(headers: Seq<(Seq<char>, Seq<char>)>, key: Seq<char>) -> Seq<char> {
    let at = header_slot(headers, key, 0);
    if at < headers.len() {
        headers[at].1
    } else {
        Seq::<char>::empty()
    }
}

/// A line cut at its first colon: what stands before it and what stands
/// after it. A line without a colon gives two empty texts.
pub open spec fn cut_at_colon(line: Seq<char>) -> (Seq<char>, Seq<char>) {
    let at = find_from(line, ':', 0);
    if at < line.len() {
        (line.subrange(0, at), line.subrange(at + 1, line.len() as int))
    } else {
        (Seq::<char>::empty(), Seq::<char>::empty())
    }
}

/// The line that opens a plain-text part.
pub open spec fn plain_marker() -> Seq<char> {
    "Content-Type: text/plain"@
}

/// The line that opens an HTML part.
pub open spec fn html_marker() -> Seq<char> {
    "Content-Type: text/html"@
}

/// The header that declares how a part is encoded.
pub open spec fn encoding_key() -> Seq<char> {
    "Content-Transfer-Encoding"@
}

/// The text that closes a part: two hyphens and the boundary.
pub open spec fn part_end(boundary: Seq<char>) -> Seq<char> {
    "--"@ + boundary
}

/// Whether a line inside the headers of a part ends them: an empty line, or
/// one that begins with a letter and holds no colon.
pub open spec fn ends_part_headers(line: Seq<char>) -> bool {
    line.len() == 0 || (!has_char(line, ':') && begins_alphabetic(line))
}

/// The state after a header line was read in.
pub open spec fn take_header(s: ScanView, line: Seq<char>) -> ScanView {
    let cut = cut_at_colon(line);
    ScanView {
        state: State::HeaderValue,
        header_key: cut.0,
        headers: with_header(s.headers, cut.0, trimmed(cut.1)),
        ..s
    }
}

/// The encoding that a line inside the headers of a part declares, or the
/// one known so far if it declares none.
pub open spec fn declared_encoding(known: Seq<char>, line: Seq<char>) -> Seq<char> {
    let cut = cut_at_colon(line);
    if trimmed(cut.0) == encoding_key() {
        trimmed(cut.1)
    } else {
        known
    }
}

/// The transition of the parser on one line.
pub open spec fn scan_step(s: ScanView, line: Seq<char>, boundary: Seq<char>) -> ScanView {
    match s.state {
        State::HeaderKey => if line.len() == 0 {
            ScanView { state: State::BlankLine, ..s }
        } else {
            take_header(s, line)
        },
        State::HeaderValue => if line.len() == 0 {
            ScanView { state: State::BlankLine, ..s }
        } else if has_char(line, ':') && begins_alphabetic(line) {
            take_header(s, line)
        } else {
            ScanView { headers: with_header(s.headers, s.header_key, trimmed(line)), ..s }
        },
        State::TextHeader => if ends_part_headers(line) {
            ScanView { state: State::Text, ..s }
        } else {
            ScanView { text_encoding: declared_encoding(s.text_encoding, line), ..s }
        },
        State::Text => if has_prefix(line, part_end(boundary)) {
            ScanView { state: State::BlankLine, ..s }
        } else {
            ScanView { text: s.text + line, ..s }
        },
        State::HtmlHeader => if ends_part_headers(line) {
            ScanView { state: State::Html, ..s }
        } else {
            ScanView { html_encoding: declared_encoding(s.html_encoding, line), ..s }
        },
        State::Html => if has_prefix(line, part_end(boundary)) {
            ScanView { state: State::BlankLine, ..s }
        } else {
            ScanView { html: s.html + line, ..s }
        },
        State::BlankLine => if has_prefix(line, plain_marker()) {
            ScanView { state: State::TextHeader, ..s }
        } else if has_prefix(line, html_marker()) {
            ScanView { state: State::HtmlHeader, ..s }
        } else {
            s
        },
    }
}

/// The parser before the first line.
pub open spec fn initial_scan() -> ScanView {
    ScanView {
        state: State::HeaderKey,
        header_key: Seq::empty(),
        headers: Seq::empty(),
        text: Seq::empty(),
        html: Seq::empty(),
        text_encoding: "utf-8"@,
        html_encoding: "utf-8"@,
    }
}

/// The parser after the given lines, taken in order.
pub open spec fn scan_lines(lines: Seq<Seq<char>>, boundary: Seq<char>) -> ScanView
    decreases lines.len(),
{
    if lines.len() == 0 {
        initial_scan()
    } else {
        scan_step(scan_lines(lines.drop_last(), boundary), lines.last(), boundary)
    }
}

/// The position of the header with the given key.
fn header_position(headers: &Vec<(Vec<char>, Vec<char>)>, key: &Vec<char>) -> (res: usize)
    ensures
        res == header_slot(pair_texts(headers@), key@, 0),
        res <= headers.len(),
{
    let mut i: usize = 0;
    while i < headers.len()
        invariant
            i <= headers.len(),
            header_slot(pair_texts(headers@), key@, 0) == header_slot(
                pair_texts(headers@),
                key@,
                i as int,
            ),
        decreases headers.len() - i,
    {
        if chars_eq(&headers[i].0, key) {
            return i;
        }
        i += 1;
    }
    i
}

/// Records `value` under `key`: appended to the value the key already has,
/// or entered as a new header.
pub fn put_header(headers: &mut Vec<(Vec<char>, Vec<char>)>, key: &Vec<char>, value: &Vec<char>)
    ensures
        pair_texts(final(headers)@) == with_header(pair_texts(old(headers)@), key@, value@),
{
    let at = header_position(headers, key);
    let ghost before = pair_texts(headers@);
    if at < headers.len() {
        let (_, mut known) = headers.remove(at);
        append_chars(&mut known, value);
        headers.insert(at, (copy_chars(key), known));
        assert(pair_texts(headers@) =~= before.update(at as int, (key@, before[at as int].1 + value@)));
    } else {
        headers.push((copy_chars(key), copy_chars(value)));
        assert(pair_texts(headers@) =~= before.push((key@, value@)));
    }
}

/// The value recorded under `key`, empty if there is none.
pub fn header_value(headers: &Vec<(Vec<char>, Vec<char>)>, key: &str) -> (res: Vec<char>)
    ensures
        res@ == header(pair_texts(headers@), key@),
{
    let wanted = str_chars(key);
    let at = header_position(headers, &wanted);
    if at < headers.len() {
        copy_chars(&headers[at].1)
    } else {
        Vec::new()
    }
}

/// Cuts a line at its first colon.
fn cut_line(line: &Vec<char>) -> (res: (Vec<char>, Vec<char>))
    ensures
        (res.0@, res.1@) == cut_at_colon(line@),
{
    let at = find_char(line, ':', 0);
    if at < line.len() {
        (slice_chars(line, 0, at), slice_chars(line, at + 1, line.len()))
    } else {
        (Vec::new(), Vec::new())
    }
}

fn read_header(scan: &mut Scan, line: &Vec<char>)
    ensures
        final(scan)@ == take_header(old(scan)@, line@),
{
    let (key, rest) = cut_line(line);
    let value = trim(&rest);
    put_header(&mut scan.headers, &key, &value);
    scan.header_key = key;
    scan.state = State::HeaderValue;
}

fn line_ends_part_headers(line: &Vec<char>) -> (res: bool)
    ensures
        res == ends_part_headers(line@),
{
    line.len() == 0 || (!contains_char(line, ':') && starts_alphabetic(line))
}

fn read_encoding(known: &mut Vec<char>, line: &Vec<char>)
    ensures
        final(known)@ == declared_encoding(old(known)@, line@),
{
    let (key, rest) = cut_line(line);
    let name = trim(&key);
    let wanted = str_chars("Content-Transfer-Encoding");
    if chars_eq(&name, &wanted) {
        *known = trim(&rest);
    }
}

fn closes_part(line: &Vec<char>, boundary: &Vec<char>) -> (res: bool)
    ensures
        res == has_prefix(line@, part_end(boundary@)),
{
    let mut end = str_chars("--");
    append_chars(&mut end, boundary);
    starts_with(line, &end)
}

/// Takes the parser over one line.
pub fn step(scan: &mut Scan, line: &Vec<char>, boundary: &Vec<char>)
    ensures
        final(scan)@ == scan_step(old(scan)@, line@, boundary@),
{
    match scan.state {
        State::HeaderKey => {
            if line.len() == 0 {
                scan.state = State::BlankLine;
            } else {
                read_header(scan, line);
            }
        },
        State::HeaderValue => {
            if line.len() == 0 {
                scan.state = State::BlankLine;
            } else if contains_char(line, ':') && starts_alphabetic(line) {
                read_header(scan, line);
            } else {
                let value = trim(line);
                let key = copy_chars(&scan.header_key);
                put_header(&mut scan.headers, &key, &value);
            }
        },
        State::TextHeader => {
            if line_ends_part_headers(line) {
                scan.state = State::Text;
            } else {
                read_encoding(&mut scan.text_encoding, line);
            }
        },
        State::Text => {
            if closes_part(line, boundary) {
                scan.state = State::BlankLine;
            } else {
                append_chars(&mut scan.text, line);
            }
        },
        State::HtmlHeader => {
            if line_ends_part_headers(line) {
                scan.state = State::Html;
            } else {
                read_encoding(&mut scan.html_encoding, line);
            }
        },
        State::Html => {
            if closes_part(line, boundary) {
                scan.state = State::BlankLine;
            } else {
                append_chars(&mut scan.html, line);
            }
        },
        State::BlankLine => {
            let plain = str_chars("Content-Type: text/plain");
            let html = str_chars("Content-Type: text/html");
            if starts_with(line, &plain) {
                scan.state = State::TextHeader;
            } else if starts_with(line, &html) {
                scan.state = State::HtmlHeader;
            }
        },
    }
}

/// Runs the parser over a whole buffer, line by line, with the given part
/// boundary.
pub fn scan_body(body: &Vec<char>, boundary: &Vec<char>) -> (res: Scan)
    ensures
        res@ == scan_lines(text_lines(body@), boundary@),
{
    let all = lines(body);
    let mut scan = Scan {
        state: State::HeaderKey,
        header_key: Vec::new(),
        headers: Vec::new(),
        text: Vec::new(),
        html: Vec::new(),
        text_encoding: str_chars("utf-8"),
        html_encoding: str_chars("utf-8"),
    };
    assert(pair_texts(scan.headers@) =~= Seq::empty());
    assert(texts(all@).take(0) =~= Seq::<Seq<char>>::empty());
    let mut i: usize = 0;
    while i < all.len()
        invariant
            i <= all.len(),
            scan@ == scan_lines(texts(all@).take(i as int), boundary@),
        decreases all.len() - i,
    {
        proof {
            assert(texts(all@).take(i + 1).drop_last() =~= texts(all@).take(i as int));
            assert(texts(all@).take(i + 1).last() == all@[i as int]@);
        }
        step(&mut scan, &all[i], boundary);
        i += 1;
    }
    assert(texts(all@).take(all.len() as int) =~= texts(all@));
    scan
}

/// The regular expression whose first group is the part boundary that a
/// buffer declares: what stands between `boundary="` and the next quote.
pub open spec fn boundary_pattern() -> Seq<char> {
    "boundary=\"([^\"]*)\""@
}

/// The regular expression whose first group is a date and time in the form
/// of RFC 2822.
pub open spec fn date_pattern() -> Seq<char> {
    "(\\w{1,3}, \\d{1,2} \\w{1,3} \\d{4} \\d{2}:\\d{2}:\\d{2} ([+-]\\d{4})?(\\w{3})?)"@
}

/// The first moment of 1970 in UTC, in the form of RFC 3339.
pub open spec fn epoch() -> Seq<char> {
    "1970-01-01T00:00:00+00:00"@
}

/// The part boundary of a buffer: what stands between its first
/// `boundary="` and the quote that follows, empty if there is none.
pub open spec fn body_boundary(body: Seq<char>) -> Seq<char> {
    match regex_capture(boundary_pattern(), body, 1) {
        Some(boundary) => boundary,
        None => Seq::<char>::empty(),
    }
}

/// A converted date, or the epoch where there was nothing to convert.
pub open spec fn time_or_epoch(converted: Option<Seq<char>>) -> Seq<char> {
    match converted {
        Some(moment) => moment,
        None => epoch(),
    }
}

/// The date that a header value holds, in the form of RFC 3339: the epoch
/// where the value holds no date in the form of RFC 2822.
pub open spec fn message_time(value: Seq<char>) -> Seq<char> {
    match regex_capture(date_pattern(), value, 1) {
        Some(written) => time_or_epoch(rfc3339_of_rfc2822(written)),
        None => epoch(),
    }
}

/// An HTML part with `=3D` read as `=` and the entities for the apostrophe,
/// the ampersand and the copyright sign read as these characters.
pub open spec fn plain_html(html: Seq<char>) -> Seq<char> {
    replaced(
        replaced(replaced(replaced(html, "=3D"@, "="@), "&#39;"@, "'"@), "&amp;"@, "&"@),
        "&copy;"@,
        seq!['\u{a9}'],
    )
}

/// A part as it is handed on: unchanged where it is declared as base64,
/// base64-encoded otherwise.
pub open spec fn for_transport(part: Seq<char>, encoding: Seq<char>) -> Seq<char> {
    if encoding == "base64"@ {
        part
    } else {
        base64_text(part)
    }
}

/// What the parser extracts from a message.
#[derive(Clone, Debug, PartialEq, Eq)]
pub struct MessageBody {
    pub date: String,
    pub received: String,
    pub to: String,
    pub delivered_to: String,
    pub from: String,
    pub subject: String,
    pub message_id: String,
    pub text: String,
    pub html: String,
}

/// The mathematical content of a `MessageBody`.
pub struct MessageBodyView {
    pub date: Seq<char>,
    pub received: Seq<char>,
    pub to: Seq<char>,
    pub delivered_to: Seq<char>,
    pub from: Seq<char>,
    pub subject: Seq<char>,
    pub message_id: Seq<char>,
    pub text: Seq<char>,
    pub html: Seq<char>,
}

impl View for MessageBody {
    type V = MessageBodyView;

    open spec fn view(&self) -> MessageBodyView {
        MessageBodyView {
            date: self.date@,
            received: self.received@,
            to: self.to@,
            delivered_to: self.delivered_to@,
            from: self.from@,
            subject: self.subject@,
            message_id: self.message_id@,
            text: self.text@,
            html: self.html@,
        }
    }
}

/// What is extracted from what the parser collected.
pub open spec fn extracted(scan: ScanView) -> MessageBodyView {
    MessageBodyView {
        date: message_time(header(scan.headers, "Date"@)),
        received: message_time(header(scan.headers, "Received"@)),
        to: header(scan.headers, "To"@),
        delivered_to: header(scan.headers, "Delivered-To"@),
        from: header(scan.headers, "From"@),
        subject: header(scan.headers, "Subject"@),
        message_id: header(scan.headers, "Message-ID"@),
        text: for_transport(scan.text, scan.text_encoding),
        html: for_transport(plain_html(scan.html), scan.html_encoding),
    }
}

/// What the parser extracts from a buffer.
pub open spec fn parsed_body(body: Seq<char>) -> MessageBodyView {
    extracted(scan_lines(text_lines(body), body_boundary(body)))
}

/// Reads `=3D` as `=` and the entities for the apostrophe, the ampersand and
/// the copyright sign as these characters.
pub fn unescape_html(html: &Vec<char>) -> (res: Vec<char>)
    ensures
        res@ == plain_html(html@),
{
    let copyright: Vec<char> = vec!['\u{a9}'];
    assert(copyright@ =~= seq!['\u{a9}']);
    let first = replace(html, &str_chars("=3D"), &str_chars("="));
    let second = replace(&first, &str_chars("&#39;"), &str_chars("'"));
    let third = replace(&second, &str_chars("&amp;"), &str_chars("&"));
    replace(&third, &str_chars("&copy;"), &copyright)
}

/// Hands a part on as text: unchanged where it is declared as base64,
/// base64-encoded otherwise.
pub fn encode_part(part: &Vec<char>, encoding: &Vec<char>) -> (res: String)
    ensures
        res@ == for_transport(part@, encoding@),
{
    let declared = str_chars("base64");
    let text = chars_to_string(part);
    if chars_eq(encoding, &declared) {
        text
    } else {
        base64_encode(text.as_str())
    }
}

/// The converted date, or the epoch where the conversion gave nothing.
pub fn converted_or_epoch(converted: Option<String>) -> (res: String)
    ensures
        res@ == time_or_epoch(
            match converted {
                Some(moment) => Some(moment@),
                None => None,
            },
        ),
{
    match converted {
        Some(moment) => moment,
        None => String::from_str("1970-01-01T00:00:00+00:00"),
    }
}

/// The date that a header value holds, in the form of RFC 3339. An absent
/// value, and one that holds no date, give the epoch.
pub fn parse_time_rfc2822(time_str: Option<&String>) -> (res: String)
    ensures
        res@ == message_time(
            match time_str {
                Some(value) => value@,
                None => Seq::<char>::empty(),
            },
        ),
{
    let empty = String::new();
    let value: &String = match time_str {
        Some(value) => value,
        None => &empty,
    };
    let pattern =
        "(\\w{1,3}, \\d{1,2} \\w{1,3} \\d{4} \\d{2}:\\d{2}:\\d{2} ([+-]\\d{4})?(\\w{3})?)";
    match capture(pattern, value.as_str(), 1) {
        Some(written) => converted_or_epoch(rfc2822_to_rfc3339(written.as_str())),
        None => converted_or_epoch(None),
    }
}

/// Builds the result out of what the parser collected.
pub fn extract(scan: &Scan) -> (res: MessageBody)
    ensures
        res@ == extracted(scan@),
{
    let date = chars_to_string(&header_value(&scan.headers, "Date"));
    let received = chars_to_string(&header_value(&scan.headers, "Received"));
    let html = unescape_html(&scan.html);
    MessageBody {
        date: parse_time_rfc2822(Some(&date)),
        received: parse_time_rfc2822(Some(&received)),
        to: chars_to_string(&header_value(&scan.headers, "To")),
        delivered_to: chars_to_string(&header_value(&scan.headers, "Delivered-To")),
        from: chars_to_string(&header_value(&scan.headers, "From")),
        subject: chars_to_string(&header_value(&scan.headers, "Subject")),
        message_id: chars_to_string(&header_value(&scan.headers, "Message-ID")),
        text: encode_part(&scan.text, &scan.text_encoding),
        html: encode_part(&html, &scan.html_encoding),
    }
}

/// Parses a message: splits it into lines, runs the state machine over them
/// with the boundary that the message declares, and normalises the parts.
pub fn parse_message_body(body: &str) -> (res: MessageBody)
    ensures
        res@ == parsed_body(body@),
{
    let boundary = match capture("boundary=\"([^\"]*)\"", body, 1) {
        Some(declared) => str_chars(declared.as_str()),
        None => Vec::new(),
    };
    let chars = str_chars(body);
    let scan = scan_body(&chars, &boundary);
    extract(&scan)
}

/// Parsing is a function of the buffer: two results for the same buffer hold
/// the same text in every field.
pub proof fn lemma_parse_deterministic(body: Seq<char>, first: MessageBody, second: MessageBody)
    requires
        first@ == parsed_body(body),
        second@ == parsed_body(body),
    ensures
        first@ == second@,
        first.text@ == second.text@,
        first.html@ == second.html@,
        first.date@ == second.date@,
{
}

} // verus!
