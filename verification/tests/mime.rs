use mailsync::mime::{
    converted_or_epoch, encode_part, parse_message_body, parse_time_rfc2822, put_header,
    scan_body, step, unescape_html, Scan, State,
};

fn chars(s: &str) -> Vec<char> {
    s.chars().collect()
}

fn string(v: &[char]) -> String {
    v.iter().collect()
}

fn fresh() -> Scan {
    scan_body(&Vec::new(), &Vec::new())
}

#[test]
fn alternative_body_with_two_parts() {
    let body = "Date: Thu, 1 Jan 2015 10:00:00 +0000\r\n\
                Content-Type: multipart/alternative; boundary=\"b1\"\r\n\
                \r\n\
                --b1\r\n\
                Content-Type: text/plain\r\n\
                Content-Transfer-Encoding: quoted-printable\r\n\
                \r\n\
                hello\r\n\
                --b1\r\n\
                Content-Type: text/html\r\n\
                Content-Transfer-Encoding: base64\r\n\
                \r\n\
                <p>hi</p>\r\n\
                --b1--\r\n";
    let parsed = parse_message_body(body);
    assert_eq!(parsed.text, "aGVsbG8=");
    assert_eq!(parsed.html, "<p>hi</p>");
    assert_eq!(parsed.date, "2015-01-01T10:00:00+00:00");
    assert_eq!(parsed.received, "1970-01-01T00:00:00+00:00");
}

#[test]
fn parsing_twice_gives_the_same() {
    let body = "Subject: a\nTo: b@c\n\nContent-Type: text/plain\n\nx\n";
    assert_eq!(parse_message_body(body), parse_message_body(body));
}

#[test]
fn headers_are_collected_and_continued() {
    let body = "Subject: first\n second\nFrom: a@b\nMessage-ID: <1@x>\nDelivered-To: me\nTo: you\n\n";
    let parsed = parse_message_body(body);
    assert_eq!(parsed.subject, "firstsecond");
    assert_eq!(parsed.from, "a@b");
    assert_eq!(parsed.message_id, "<1@x>");
    assert_eq!(parsed.delivered_to, "me");
    assert_eq!(parsed.to, "you");
}

#[test]
fn a_repeated_header_is_appended() {
    let body = "Received: one\nReceived: two\n\n";
    let scan = scan_body(&chars(body), &Vec::new());
    assert_eq!(scan.headers.len(), 1);
    assert_eq!(string(&scan.headers[0].1), "onetwo");
}

#[test]
fn empty_body_gives_the_epoch_and_empty_parts() {
    let parsed = parse_message_body("");
    assert_eq!(parsed.date, "1970-01-01T00:00:00+00:00");
    assert_eq!(parsed.received, "1970-01-01T00:00:00+00:00");
    assert_eq!(parsed.subject, "");
    assert_eq!(parsed.text, "");
    assert_eq!(parsed.html, "");
}

#[test]
fn part_without_declared_encoding_is_encoded() {
    let body = "\nContent-Type: text/html\n\n<b>x</b>\n";
    let parsed = parse_message_body(body);
    assert_eq!(parsed.html, "PGI+eDwvYj4=");
}

#[test]
fn a_line_that_looks_like_body_ends_the_part_headers() {
    let body = "\nContent-Type: text/plain\nhello there\nworld\n";
    let scan = scan_body(&chars(body), &Vec::new());
    assert_eq!(scan.state, State::Text);
    assert_eq!(string(&scan.text), "world");
}

#[test]
fn boundary_line_closes_a_part() {
    let body = "\nContent-Type: text/plain\n\none\ntwo\n--xyz\nthree\n";
    let scan = scan_body(&chars(body), &chars("xyz"));
    assert_eq!(string(&scan.text), "onetwo");
    assert_eq!(scan.state, State::BlankLine);
}

#[test]
fn step_follows_the_transitions() {
    let mut scan = fresh();
    assert_eq!(scan.state, State::HeaderKey);
    step(&mut scan, &chars("Subject: hi"), &Vec::new());
    assert_eq!(scan.state, State::HeaderValue);
    assert_eq!(string(&scan.header_key), "Subject");
    step(&mut scan, &chars(""), &Vec::new());
    assert_eq!(scan.state, State::BlankLine);
    step(&mut scan, &chars("Content-Type: text/html; charset=utf-8"), &Vec::new());
    assert_eq!(scan.state, State::HtmlHeader);
    step(&mut scan, &chars("Content-Transfer-Encoding: base64 "), &Vec::new());
    assert_eq!(string(&scan.html_encoding), "base64");
    step(&mut scan, &chars(""), &Vec::new());
    assert_eq!(scan.state, State::Html);
    step(&mut scan, &chars("--"), &Vec::new());
    assert_eq!(scan.state, State::BlankLine);
}

#[test]
fn a_header_line_without_colon_is_recorded_under_the_empty_key() {
    let mut scan = fresh();
    step(&mut scan, &chars("no colon here"), &Vec::new());
    assert_eq!(scan.state, State::HeaderValue);
    assert_eq!(string(&scan.header_key), "");
    assert_eq!(scan.headers.len(), 1);
}

#[test]
fn put_header_appends_or_enters() {
    let mut headers = Vec::new();
    put_header(&mut headers, &chars("A"), &chars("1"));
    put_header(&mut headers, &chars("B"), &chars("2"));
    put_header(&mut headers, &chars("A"), &chars("3"));
    assert_eq!(headers.len(), 2);
    assert_eq!(string(&headers[0].1), "13");
    assert_eq!(string(&headers[1].1), "2");
}

#[test]
fn unescape_html_reads_escapes_and_entities() {
    let got = unescape_html(&chars("a=3Db &#39;q&#39; &amp; &copy; &amp;copy;"));
    assert_eq!(string(&got), "a=b 'q' & © ©");
}

#[test]
fn encode_part_passes_base64_through() {
    assert_eq!(encode_part(&chars("aGk="), &chars("base64")), "aGk=");
    assert_eq!(encode_part(&chars("hi"), &chars("7bit")), "aGk=");
}

#[test]
fn dates_are_converted_or_fall_back() {
    let good = String::from("Wed, 18 Feb 2015 23:16:09 +0100 (CET)");
    assert_eq!(parse_time_rfc2822(Some(&good)), "2015-02-18T23:16:09+01:00");
    let bad = String::from("yesterday");
    assert_eq!(parse_time_rfc2822(Some(&bad)), "1970-01-01T00:00:00+00:00");
    let wrong = String::from("Xyz, 99 Abc 2015 99:99:99 +0000");
    assert_eq!(parse_time_rfc2822(Some(&wrong)), "1970-01-01T00:00:00+00:00");
    assert_eq!(parse_time_rfc2822(None), "1970-01-01T00:00:00+00:00");
    assert_eq!(converted_or_epoch(None), "1970-01-01T00:00:00+00:00");
    assert_eq!(converted_or_epoch(Some(String::from("x"))), "x");
}

#[test]
fn a_letter_and_a_colon_begin_a_new_header() {
    let mut scan = fresh();
    step(&mut scan, &chars("Subject: one"), &Vec::new());
    step(&mut scan, &chars("\u{e9}t\u{e9}: two"), &Vec::new());
    assert_eq!(scan.headers.len(), 2);
    assert_eq!(string(&scan.header_key), "\u{e9}t\u{e9}");
    step(&mut scan, &chars("1: three"), &Vec::new());
    assert_eq!(scan.headers.len(), 2);
    assert_eq!(string(&scan.headers[1].1), "two1: three");
    step(&mut scan, &chars(" folded: four"), &Vec::new());
    assert_eq!(string(&scan.headers[1].1), "two1: threefolded: four");
}

#[test]
fn the_boundary_ends_at_the_next_quote() {
    let body = "Content-Type: multipart/alternative; boundary=\"b1\"; type=\"x\"\n\n--b1\n\
                Content-Type: text/plain\n\nhello\n--b1\nContent-Type: text/html\n\n<i>x</i>\n--b1--\n";
    let parsed = parse_message_body(body);
    assert_eq!(parsed.text, "aGVsbG8=");
    assert_eq!(parsed.html, "PGk+eDwvaT4=");
}

#[test]
fn the_first_boundary_of_a_buffer_counts() {
    let body = "X: boundary=\"one\"\nY: boundary=\"two\"\n\nContent-Type: text/plain\n\na\n--two\nb\n--one\nc\n";
    let parsed = parse_message_body(body);
    assert_eq!(parsed.text, "YS0tdHdvYg==");
}

#[test]
fn an_empty_boundary_closes_a_part_at_two_hyphens() {
    let body = "X: boundary=\"\"\n\nContent-Type: text/plain\n\na\n--\nb\n";
    assert_eq!(parse_message_body(body).text, "YQ==");
}
