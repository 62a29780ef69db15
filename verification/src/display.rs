//! The JSON forms of what the operations return, and the envelope that
//! every answer is wrapped in.

use crate::message::{message_views, Client, ClientView, Message, MessageView};
use crate::number::{decimal_text, push_decimal};
use crate::registry::session_views;
use crate::store::{string_views};
use crate::text::{
    append_chars, chars_to_string, join, join_with, lemma_texts_push, push_str, str_chars,
    texts,
};
use vstd::prelude::*;
use vstd::string::StringExecFns;

verus! {

/// A list in JSON: the items between brackets, with commas between them.
pub open spec fn list_text(items: Seq<Seq<char>>) -> Seq<char> {
    "["@ + join_with(items, ',') + "]"@
}

fn list_chars(items: &Vec<Vec<char>>) -> (res: Vec<char>)
    ensures
        res@ == list_text(texts(items@)),
{
    let mut out = str_chars("[");
    append_chars(&mut out, &join(items, ','));
    push_str(&mut out, "]");
    out
}

/// The decimal forms of a list of numbers.
pub open spec fn number_texts(numbers: Seq<u32>) -> Seq<Seq<char>> {
    Seq::new(numbers.len(), |i: int| decimal_text(numbers[i] as nat))
}

fn numbers_chars(numbers: &Vec<u32>) -> (res: Vec<char>)
    ensures
        res@ == list_text(number_texts(numbers@)),
{
    let mut items: Vec<Vec<char>> = Vec::new();
    let mut i: usize = 0;
    assert(texts(items@) =~= number_texts(numbers@).take(0));
    while i < numbers.len()
        invariant
            i <= numbers.len(),
            texts(items@) == number_texts(numbers@).take(i as int),
        decreases numbers.len() - i,
    {
        let mut item: Vec<char> = Vec::new();
        push_decimal(&mut item, numbers[i] as u64);
        assert(item@ =~= decimal_text(numbers@[i as int] as nat));
        proof {
            lemma_texts_push(items@, item);
            assert(number_texts(numbers@).take(i + 1) =~= number_texts(numbers@).take(
                i as int,
            ).push(item@));
        }
        items.push(item);
        i += 1;
    }
    assert(number_texts(numbers@).take(numbers.len() as int) =~= number_texts(numbers@));
    list_chars(&items)
}

/// A list of numbers in JSON.
pub fn u32_vec_to_display(numbers: &Vec<u32>) -> (res: String)
    ensures
        res@ == list_text(number_texts(numbers@)),
{
    chars_to_string(&numbers_chars(numbers))
}

/// A text between double quotes.
pub open spec fn quoted(text: Seq<char>) -> Seq<char> {
    "\""@ + text + "\""@
}

/// The texts of a list, each between double quotes.
pub open spec fn quoted_texts(items: Seq<Seq<char>>) -> Seq<Seq<char>> {
    Seq::new(items.len(), |i: int| quoted(items[i]))
}

/// A list of texts in JSON.
pub fn string_vec_to_display(items: &Vec<String>) -> (res: String)
    ensures
        res@ == list_text(quoted_texts(string_views(items@))),
{
    let ghost wanted = quoted_texts(string_views(items@));
    let mut shown: Vec<Vec<char>> = Vec::new();
    let mut i: usize = 0;
    assert(texts(shown@) =~= wanted.take(0));
    while i < items.len()
        invariant
            i <= items.len(),
            wanted == quoted_texts(string_views(items@)),
            texts(shown@) == wanted.take(i as int),
        decreases items.len() - i,
    {
        let mut item = str_chars("\"");
        push_str(&mut item, items[i].as_str());
        push_str(&mut item, "\"");
        proof {
            lemma_texts_push(shown@, item);
            assert(wanted.take(i + 1) =~= wanted.take(i as int).push(item@));
        }
        shown.push(item);
        i += 1;
    }
    assert(wanted.take(items.len() as int) =~= wanted);
    chars_to_string(&list_chars(&shown))
}

/// The JSON form of a cached message.
pub open spec fn message_text(m: MessageView) -> Seq<char> {
    "{"@ + "\"message_uid\": "@ + decimal_text(m.message_uid as nat) + ","@
        + "\"sequence_id\": "@ + decimal_text(m.sequence_id as nat) + ","@
        + "\"message_id\": \""@ + m.message_id + "\","@ + "\"subject\": \""@ + m.subject
        + "\","@ + "\"from\": "@ + m.from_ + ","@ + "\"sender\": "@ + m.sender + ","@
        + "\"to\": "@ + m.to_ + ","@ + "\"cc\": "@ + m.cc + ","@ + "\"bcc\": "@ + m.bcc + ","@
        + "\"reply_to\": "@ + m.reply_to + ","@ + "\"in_reply_to\": \""@ + m.in_reply_to
        + "\","@ + "\"delivered_to\": \""@ + m.delivered_to + "\","@ + "\"date\": \""@ + m.date_
        + "\","@ + "\"received\": \""@ + m.received + "\","@ + "\"flags\": \""@ + m.flags
        + "\","@ + "\"html\": \""@ + m.html + "\","@ + "\"text\": \""@ + m.text + "\""@ + "}"@
}

fn push_number(out: &mut Vec<char>, label: &str, value: u32, tail: &str)
    ensures
        final(out)@ == old(out)@ + label@ + decimal_text(value as nat) + tail@,
{
    push_str(out, label);
    push_decimal(out, value as u64);
    push_str(out, tail);
}

fn push_text(out: &mut Vec<char>, label: &str, value: &String, tail: &str)
    ensures
        final(out)@ == old(out)@ + label@ + value@ + tail@,
{
    push_str(out, label);
    push_str(out, value.as_str());
    push_str(out, tail);
}

fn message_chars(m: &Message) -> (res: Vec<char>)
    ensures
        res@ == message_text(m@),
{
    let mut out = str_chars("{");
    push_number(&mut out, "\"message_uid\": ", m.message_uid, ",");
    push_number(&mut out, "\"sequence_id\": ", m.sequence_id, ",");
    push_text(&mut out, "\"message_id\": \"", &m.message_id, "\",");
    push_text(&mut out, "\"subject\": \"", &m.subject, "\",");
    push_text(&mut out, "\"from\": ", &m.from_, ",");
    push_text(&mut out, "\"sender\": ", &m.sender, ",");
    push_text(&mut out, "\"to\": ", &m.to_, ",");
    push_text(&mut out, "\"cc\": ", &m.cc, ",");
    push_text(&mut out, "\"bcc\": ", &m.bcc, ",");
    push_text(&mut out, "\"reply_to\": ", &m.reply_to, ",");
    push_text(&mut out, "\"in_reply_to\": \"", &m.in_reply_to, "\",");
    push_text(&mut out, "\"delivered_to\": \"", &m.delivered_to, "\",");
    push_text(&mut out, "\"date\": \"", &m.date_, "\",");
    push_text(&mut out, "\"received\": \"", &m.received, "\",");
    push_text(&mut out, "\"flags\": \"", &m.flags, "\",");
    push_text(&mut out, "\"html\": \"", &m.html, "\",");
    push_text(&mut out, "\"text\": \"", &m.text, "\"");
    push_str(&mut out, "}");
    out
}

/// The JSON forms of a list of cached messages.
pub open spec fn message_texts(messages: Seq<MessageView>) -> Seq<Seq<char>> {
    Seq::new(messages.len(), |i: int| message_text(messages[i]))
}

/// A list of cached messages in JSON.
pub fn message_vec_to_display(messages: &Vec<Message>) -> (res: String)
    ensures
        res@ == list_text(message_texts(message_views(messages@))),
{
    let ghost wanted = message_texts(message_views(messages@));
    let mut shown: Vec<Vec<char>> = Vec::new();
    let mut i: usize = 0;
    assert(texts(shown@) =~= wanted.take(0));
    while i < messages.len()
        invariant
            i <= messages.len(),
            wanted == message_texts(message_views(messages@)),
            texts(shown@) == wanted.take(i as int),
        decreases messages.len() - i,
    {
        let item = message_chars(&messages[i]);
        proof {
            lemma_texts_push(shown@, item);
            assert(wanted.take(i + 1) =~= wanted.take(i as int).push(item@));
        }
        shown.push(item);
        i += 1;
    }
    assert(wanted.take(messages.len() as int) =~= wanted);
    chars_to_string(&list_chars(&shown))
}

/// The JSON form of a session: its id and the client without the password.
pub open spec fn session_text(session_id: usize, client: ClientView) -> Seq<char> {
    "{"@ + "\"session_id\": "@ + decimal_text(session_id as nat) + ", "@ + "\"username\": \""@
        + client.username + "\", "@ + "\"address\": \""@ + client.address + "\", "@
        + "\"port\": "@ + decimal_text(client.port as nat) + "}"@
}

/// The JSON forms of a list of sessions.
pub open spec fn session_texts(sessions: Seq<(usize, ClientView)>) -> Seq<Seq<char>> {
    Seq::new(sessions.len(), |i: int| session_text(sessions[i].0, sessions[i].1))
}

/// A list of sessions in JSON.
pub fn sessions_to_display(sessions: &Vec<(usize, Client)>) -> (res: String)
    ensures
        res@ == list_text(session_texts(session_views(sessions@))),
{
    let ghost wanted = session_texts(session_views(sessions@));
    let mut shown: Vec<Vec<char>> = Vec::new();
    let mut i: usize = 0;
    assert(texts(shown@) =~= wanted.take(0));
    while i < sessions.len()
        invariant
            i <= sessions.len(),
            wanted == session_texts(session_views(sessions@)),
            texts(shown@) == wanted.take(i as int),
        decreases sessions.len() - i,
    {
        let client = &sessions[i].1;
        let mut item = str_chars("{");
        push_str(&mut item, "\"session_id\": ");
        push_decimal(&mut item, sessions[i].0 as u64);
        push_str(&mut item, ", ");
        push_text(&mut item, "\"username\": \"", &client.username, "\", ");
        push_text(&mut item, "\"address\": \"", &client.address, "\", ");
        push_str(&mut item, "\"port\": ");
        push_decimal(&mut item, client.port as u64);
        push_str(&mut item, "}");
        proof {
            lemma_texts_push(shown@, item);
            assert(wanted.take(i + 1) =~= wanted.take(i as int).push(item@));
        }
        shown.push(item);
        i += 1;
    }
    assert(wanted.take(sessions.len() as int) =~= wanted);
    chars_to_string(&list_chars(&shown))
}

/// The outcome of an update of a mailbox in JSON.
pub open spec fn changes_text(new: Seq<u32>, removed: Seq<u32>, changed: Seq<u32>) -> Seq<char> {
    "{"@ + "\"new_uids\": "@ + list_text(number_texts(new)) + ", "@ + "\"removed_uids\": "@
        + list_text(number_texts(removed)) + ", "@ + "\"changed_uids\": "@ + list_text(
        number_texts(changed),
    ) + "}"@
}

/// The outcome of an update of a mailbox in JSON.
pub fn changes_to_display(new: &Vec<u32>, removed: &Vec<u32>, changed: &Vec<u32>) -> (res: String)
    ensures
        res@ == changes_text(new@, removed@, changed@),
{
    let mut out = str_chars("{");
    push_str(&mut out, "\"new_uids\": ");
    append_chars(&mut out, &numbers_chars(new));
    push_str(&mut out, ", ");
    push_str(&mut out, "\"removed_uids\": ");
    append_chars(&mut out, &numbers_chars(removed));
    push_str(&mut out, ", ");
    push_str(&mut out, "\"changed_uids\": ");
    append_chars(&mut out, &numbers_chars(changed));
    push_str(&mut out, "}");
    chars_to_string(&out)
}

/// An answer: whether the operation succeeded, a message for a human, and
/// the data of a successful operation that has any.
#[derive(Clone, Debug, PartialEq, Eq)]
pub struct Reply {
    pub success: bool,
    pub message: String,
    pub data: Option<String>,
}

/// The mathematical content of a `Reply`.
pub struct ReplyView {
    pub success: bool,
    pub message: Seq<char>,
    pub data: Option<Seq<char>>,
}

impl View for Reply {
    type V = ReplyView;

    open spec fn view(&self) -> ReplyView {
        ReplyView {
            success: self.success,
            message: self.message@,
            data: match self.data {
                Some(data) => Some(data@),
                None => None,
            },
        }
    }
}

/// The envelope of an answer in JSON. The data stands in it as it is.
pub open spec fn reply_text(reply: ReplyView) -> Seq<char> {
    let head = "{"@ + "\"success\": "@ + (if reply.success {
        "true"@
    } else {
        "false"@
    }) + ", "@ + "\"message\": \""@ + reply.message + "\""@;
    match reply.data {
        Some(data) => head + ", \"data\": "@ + data + "}"@,
        None => head + "}"@,
    }
}

/// The answer of a failed operation.
pub open spec fn failure(message: Seq<char>) -> ReplyView {
    ReplyView { success: false, message, data: None }
}

/// The answer of a successful operation.
pub open spec fn success(message: Seq<char>, data: Option<Seq<char>>) -> ReplyView {
    ReplyView { success: true, message, data }
}

impl Reply {
    /// The answer of a failed operation.
    pub fn failed(message: &str) -> (res: Reply)
        ensures
            res@ == failure(message@),
    {
        Reply { success: false, message: String::from_str(message), data: None }
    }

    /// The answer of a successful operation without data.
    pub fn done(message: &str) -> (res: Reply)
        ensures
            res@ == success(message@, None),
    {
        Reply { success: true, message: String::from_str(message), data: None }
    }

    /// The answer of a successful operation with data, which is JSON
    /// already.
    pub fn with_data(message: &str, data: String) -> (res: Reply)
        ensures
            res@ == success(message@, Some(data@)),
    {
        Reply {
            success: true,
            message: String::from_str(message),
            data: Some(data),
        }
    }

    /// The envelope of the answer in JSON.
    pub fn to_string(&self) -> (res: String)
        ensures
            res@ == reply_text(self@),
    {
        let mut out = str_chars("{");
        push_str(&mut out, "\"success\": ");
        if self.success {
            push_str(&mut out, "true");
        } else {
            push_str(&mut out, "false");
        }
        push_str(&mut out, ", ");
        push_str(&mut out, "\"message\": \"");
        push_str(&mut out, self.message.as_str());
        push_str(&mut out, "\"");
        match &self.data {
            Some(data) => {
                push_str(&mut out, ", \"data\": ");
                push_str(&mut out, data.as_str());
                push_str(&mut out, "}");
            },
            None => {
                push_str(&mut out, "}");
            },
        }
        chars_to_string(&out)
    }
}

} // verus!
