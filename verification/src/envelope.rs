//! What a fetch returns, as plain values, and the texts made of it: the
//! JSON form of an envelope and of a parsed message, and the message record
//! that the cache stores.

use crate::flags::{flags_text, flags_to_string, Flag};
use crate::message::{Message, MessageView};
use crate::mime::{parse_message_body, parsed_body, MessageBodyView};
use crate::number::{decimal_text, push_decimal};
use crate::outside::utf8_text;
use crate::table::{first_where, kept, lemma_kept_step};
use crate::text::{append_chars, chars_to_string, push_str, str_chars};
use vstd::prelude::*;
use vstd::utf8::{decode_utf8, valid_utf8};

verus! {

/// An address of an envelope. Each component is what the server sent, or
/// absent.
#[derive(Clone, Debug, PartialEq, Eq)]
pub struct Address {
    pub name: Option<Vec<u8>>,
    pub mailbox: Option<Vec<u8>>,
    pub host: Option<Vec<u8>>,
}

/// The mathematical content of an `Address`.
pub struct AddressView {
    pub name: Option<Seq<u8>>,
    pub mailbox: Option<Seq<u8>>,
    pub host: Option<Seq<u8>>,
}

/// The bytes of an optional byte vector.
pub open spec fn bytes_view(bytes: Option<Vec<u8>>) -> Option<Seq<u8>> {
    match bytes {
        Some(b) => Some(b@),
        None => None,
    }
}

impl View for Address {
    type V = AddressView;

    open spec fn view(&self) -> AddressView {
        AddressView {
            name: bytes_view(self.name),
            mailbox: bytes_view(self.mailbox),
            host: bytes_view(self.host),
        }
    }
}

/// The views of an optional list of addresses.
pub open spec fn addresses_view(list: Option<Vec<Address>>) -> Option<Seq<AddressView>> {
    match list {
        Some(l) => Some(Seq::new(l@.len(), |i: int| l@[i]@)),
        None => None,
    }
}

/// The envelope of a message.
#[derive(Clone, Debug, PartialEq, Eq)]
pub struct Envelope {
    pub date: Option<Vec<u8>>,
    pub subject: Option<Vec<u8>>,
    pub from: Option<Vec<Address>>,
    pub sender: Option<Vec<Address>>,
    pub reply_to: Option<Vec<Address>>,
    pub to: Option<Vec<Address>>,
    pub cc: Option<Vec<Address>>,
    pub bcc: Option<Vec<Address>>,
    pub in_reply_to: Option<Vec<u8>>,
    pub message_id: Option<Vec<u8>>,
}

/// The mathematical content of an `Envelope`.
pub struct EnvelopeView {
    pub date: Option<Seq<u8>>,
    pub subject: Option<Seq<u8>>,
    pub from: Option<Seq<AddressView>>,
    pub sender: Option<Seq<AddressView>>,
    pub reply_to: Option<Seq<AddressView>>,
    pub to: Option<Seq<AddressView>>,
    pub cc: Option<Seq<AddressView>>,
    pub bcc: Option<Seq<AddressView>>,
    pub in_reply_to: Option<Seq<u8>>,
    pub message_id: Option<Seq<u8>>,
}

impl View for Envelope {
    type V = EnvelopeView;

    open spec fn view(&self) -> EnvelopeView {
        EnvelopeView {
            date: bytes_view(self.date),
            subject: bytes_view(self.subject),
            from: addresses_view(self.from),
            sender: addresses_view(self.sender),
            reply_to: addresses_view(self.reply_to),
            to: addresses_view(self.to),
            cc: addresses_view(self.cc),
            bcc: addresses_view(self.bcc),
            in_reply_to: bytes_view(self.in_reply_to),
            message_id: bytes_view(self.message_id),
        }
    }
}

/// What the server returned for one message.
#[derive(Clone, Debug, PartialEq, Eq)]
pub struct Fetch {
    /// The sequence id of the message.
    pub message: u32,
    pub uid: Option<u32>,
    pub flags: Vec<Flag>,
    pub envelope: Option<Envelope>,
    pub body: Option<Vec<u8>>,
}

/// The text that bytes stand for: their reading as UTF-8, or nothing where
/// they are absent or no UTF-8.
pub open spec fn text_of(bytes: Option<Seq<u8>>) -> Seq<char> {
    match bytes {
        Some(b) => if valid_utf8(b) {
            decode_utf8(b)
        } else {
            Seq::<char>::empty()
        },
        None => Seq::<char>::empty(),
    }
}

/// The bytes of an optional slice.
pub open spec fn slice_view(bytes: Option<&[u8]>) -> Option<Seq<u8>> {
    match bytes {
        Some(b) => Some(b@),
        None => None,
    }
}

/// The text that bytes stand for: empty where they are absent or no UTF-8.
pub fn message_str(string: Option<&[u8]>) -> (res: String)
    ensures
        res@ == text_of(slice_view(string)),
{
    match string {
        Some(bytes) => match utf8_text(bytes) {
            Some(text) => text,
            None => String::new(),
        },
        None => String::new(),
    }
}

fn text_chars(bytes: &Option<Vec<u8>>) -> (res: Vec<char>)
    ensures
        res@ == text_of(bytes_view(*bytes)),
{
    let text = match bytes {
        Some(b) => message_str(Some(b.as_slice())),
        None => message_str(None),
    };
    str_chars(text.as_str())
}

/// The JSON form of an address.
pub open spec fn address_text(a: AddressView) -> Seq<char> {
    "{"@ + "\"name\": \""@ + text_of(a.name) + "\","@ + "\"mailbox\": \""@ + text_of(a.mailbox)
        + "\","@ + "\"host\": \""@ + text_of(a.host) + "\""@ + "}"@
}

/// The JSON forms of addresses, with commas between them.
pub open spec fn addresses_text(list: Seq<AddressView>) -> Seq<char>
    decreases list.len(),
{
    if list.len() == 0 {
        Seq::<char>::empty()
    } else if list.len() == 1 {
        address_text(list[0])
    } else {
        addresses_text(list.drop_last()) + ","@ + address_text(list.last())
    }
}

/// The JSON form of an address list; an absent list is the empty list.
pub open spec fn address_list_text(list: Option<Seq<AddressView>>) -> Seq<char> {
    match list {
        Some(l) => "["@ + addresses_text(l) + "]"@,
        None => "[]"@,
    }
}

fn push_field(out: &mut Vec<char>, label: &str, value: &Vec<char>, tail: &str)
    ensures
        final(out)@ == old(out)@ + label@ + value@ + tail@,
{
    push_str(out, label);
    append_chars(out, value);
    push_str(out, tail);
}

fn address_chars(a: &Address) -> (res: Vec<char>)
    ensures
        res@ == address_text(a@),
{
    let mut out = str_chars("{");
    push_field(&mut out, "\"name\": \"", &text_chars(&a.name), "\",");
    push_field(&mut out, "\"mailbox\": \"", &text_chars(&a.mailbox), "\",");
    push_field(&mut out, "\"host\": \"", &text_chars(&a.host), "\"");
    push_str(&mut out, "}");
    out
}

fn address_list_chars(list: &Option<Vec<Address>>) -> (res: Vec<char>)
    ensures
        res@ == address_list_text(addresses_view(*list)),
{
    match list {
        None => str_chars("[]"),
        Some(l) => {
            let ghost all = Seq::new(l@.len(), |i: int| l@[i]@);
            let mut inner: Vec<char> = Vec::new();
            let mut i: usize = 0;
            assert(all.take(0) =~= Seq::<AddressView>::empty());
            while i < l.len()
                invariant
                    i <= l.len(),
                    all == Seq::new(l@.len(), |i: int| l@[i]@),
                    inner@ == addresses_text(all.take(i as int)),
                decreases l.len() - i,
            {
                proof {
                    assert(all.take(i + 1).drop_last() =~= all.take(i as int));
                    assert(all.take(i + 1).last() == l@[i as int]@);
                }
                if i > 0 {
                    push_str(&mut inner, ",");
                } else {
                    assert(inner@ + address_text(l@[0]@) =~= address_text(l@[0]@));
                }
                append_chars(&mut inner, &address_chars(&l[i]));
                i += 1;
            }
            assert(all.take(l.len() as int) =~= all);
            let mut out = str_chars("[");
            append_chars(&mut out, &inner);
            push_str(&mut out, "]");
            out
        },
    }
}

/// The text made with `message_address`: the JSON form of an address list.
pub fn message_address(address: &Option<Vec<Address>>) -> (res: String)
    ensures
        res@ == address_list_text(addresses_view(*address)),
{
    chars_to_string(&address_list_chars(address))
}

/// The JSON form of an envelope with the uid of its message.
pub open spec fn envelope_text(e: EnvelopeView, message_uid: u32) -> Seq<char> {
    "{"@ + "\"date\": \""@ + text_of(e.date) + "\","@ + "\"subject\": \""@ + text_of(e.subject)
        + "\","@ + "\"from\": "@ + address_list_text(e.from) + ","@ + "\"sender\": "@
        + address_list_text(e.sender) + ","@ + "\"reply_to\": "@ + address_list_text(e.reply_to)
        + ","@ + "\"to\": "@ + address_list_text(e.to) + ","@ + "\"cc\": "@ + address_list_text(
        e.cc,
    ) + ","@ + "\"bcc\": "@ + address_list_text(e.bcc) + ","@ + "\"in_reply_to\": \""@ + text_of(
        e.in_reply_to,
    ) + "\","@ + "\"message_id\": \""@ + text_of(e.message_id) + "\","@ + "\"message_uid\": "@
        + decimal_text(message_uid as nat) + "}"@
}

/// The view of an optional envelope.
pub open spec fn envelope_view(envelope: Option<Envelope>) -> Option<EnvelopeView> {
    match envelope {
        Some(e) => Some(e@),
        None => None,
    }
}

/// The JSON form of the envelope of a fetch, empty where the fetch has no
/// envelope.
pub open spec fn fetch_envelope_text(envelope: Option<EnvelopeView>, message_uid: u32) -> Seq<char> {
    match envelope {
        Some(e) => envelope_text(e, message_uid),
        None => Seq::<char>::empty(),
    }
}

/// Renders the envelope of a fetch as JSON, with the uid of the message.
/// A fetch without envelope gives the empty text.
pub fn envelope_to_string(fetch: &Fetch, message_uid: u32) -> (res: String)
    ensures
        res@ == fetch_envelope_text(envelope_view(fetch.envelope), message_uid),
{
    let e = match &fetch.envelope {
        Some(e) => e,
        None => {
            return String::new();
        },
    };
    let mut out = str_chars("{");
    push_field(&mut out, "\"date\": \"", &text_chars(&e.date), "\",");
    push_field(&mut out, "\"subject\": \"", &text_chars(&e.subject), "\",");
    push_field(&mut out, "\"from\": ", &address_list_chars(&e.from), ",");
    push_field(&mut out, "\"sender\": ", &address_list_chars(&e.sender), ",");
    push_field(&mut out, "\"reply_to\": ", &address_list_chars(&e.reply_to), ",");
    push_field(&mut out, "\"to\": ", &address_list_chars(&e.to), ",");
    push_field(&mut out, "\"cc\": ", &address_list_chars(&e.cc), ",");
    push_field(&mut out, "\"bcc\": ", &address_list_chars(&e.bcc), ",");
    push_field(&mut out, "\"in_reply_to\": \"", &text_chars(&e.in_reply_to), "\",");
    push_field(&mut out, "\"message_id\": \"", &text_chars(&e.message_id), "\",");
    push_str(&mut out, "\"message_uid\": ");
    push_decimal(&mut out, message_uid as u64);
    push_str(&mut out, "}");
    chars_to_string(&out)
}

/// The JSON form of a parsed message with its uid.
pub open spec fn body_text(b: MessageBodyView, message_uid: u32) -> Seq<char> {
    "{"@ + "\"message_uid\": "@ + decimal_text(message_uid as nat) + ","@ + "\"date\": \""@
        + b.date + "\","@ + "\"received\": \""@ + b.received + "\","@ + "\"subject\": \""@
        + b.subject + "\","@ + "\"from\": \""@ + b.from + "\","@ + "\"to\": \""@ + b.to + "\","@
        + "\"delivered_to\": \""@ + b.delivered_to + "\","@ + "\"message_id\": \""@
        + b.message_id + "\","@ + "\"text\": \""@ + b.text + "\","@ + "\"html\": \""@ + b.html
        + "\""@ + "}"@
}

/// What the parser extracts from the body of a fetch. A body that is absent
/// or no UTF-8 is read as the empty body.
pub open spec fn fetch_body(body: Option<Seq<u8>>) -> MessageBodyView {
    parsed_body(text_of(body))
}

/// Parses the body of a fetch and renders what was extracted as JSON, with
/// the uid of the message.
pub fn message_to_string(body_fetch: &Fetch, message_uid: u32) -> (res: String)
    ensures
        res@ == body_text(fetch_body(bytes_view(body_fetch.body)), message_uid),
{
    let text = match &body_fetch.body {
        Some(b) => message_str(Some(b.as_slice())),
        None => message_str(None),
    };
    let b = parse_message_body(text.as_str());
    let mut out = str_chars("{");
    push_str(&mut out, "\"message_uid\": ");
    push_decimal(&mut out, message_uid as u64);
    push_str(&mut out, ",");
    push_field(&mut out, "\"date\": \"", &str_chars(b.date.as_str()), "\",");
    push_field(&mut out, "\"received\": \"", &str_chars(b.received.as_str()), "\",");
    push_field(&mut out, "\"subject\": \"", &str_chars(b.subject.as_str()), "\",");
    push_field(&mut out, "\"from\": \"", &str_chars(b.from.as_str()), "\",");
    push_field(&mut out, "\"to\": \"", &str_chars(b.to.as_str()), "\",");
    push_field(&mut out, "\"delivered_to\": \"", &str_chars(b.delivered_to.as_str()), "\",");
    push_field(&mut out, "\"message_id\": \"", &str_chars(b.message_id.as_str()), "\",");
    push_field(&mut out, "\"text\": \"", &str_chars(b.text.as_str()), "\",");
    push_field(&mut out, "\"html\": \"", &str_chars(b.html.as_str()), "\"");
    push_str(&mut out, "}");
    chars_to_string(&out)
}

/// The envelope with nothing in it.
pub open spec fn no_envelope() -> EnvelopeView {
    EnvelopeView {
        date: None,
        subject: None,
        from: None,
        sender: None,
        reply_to: None,
        to: None,
        cc: None,
        bcc: None,
        in_reply_to: None,
        message_id: None,
    }
}

/// The record that the cache stores for a fetched message: identity and
/// addresses from the envelope, dates and parts from the parsed body, the
/// flags as the canonical flag string. What the fetch lacks is empty.
pub open spec fn fetched_message(
    uid: u32,
    sequence_id: u32,
    flags: Seq<Flag>,
    envelope: Option<EnvelopeView>,
    body: Option<Seq<u8>>,
) -> MessageView {
    let e = match envelope {
        Some(e) => e,
        None => no_envelope(),
    };
    let b = fetch_body(body);
    MessageView {
        message_uid: uid,
        sequence_id,
        message_id: text_of(e.message_id),
        subject: text_of(e.subject),
        from_: address_list_text(e.from),
        sender: address_list_text(e.sender),
        to_: address_list_text(e.to),
        cc: address_list_text(e.cc),
        bcc: address_list_text(e.bcc),
        reply_to: address_list_text(e.reply_to),
        in_reply_to: text_of(e.in_reply_to),
        delivered_to: b.delivered_to,
        date_: b.date,
        received: b.received,
        flags: flags_text(flags),
        html: b.html,
        text: b.text,
    }
}

/// Builds the record that the cache stores for a fetched message. A fetch
/// without uid gives none.
pub fn message_from_fetch(fetch: &Fetch) -> (res: Option<Message>)
    ensures
        match res {
            Some(message) => fetch.uid is Some && message@ == fetched_message(
                fetch.uid->Some_0,
                fetch.message,
                fetch.flags@,
                envelope_view(fetch.envelope),
                bytes_view(fetch.body),
            ),
            None => fetch.uid is None,
        },
{
    let uid = match fetch.uid {
        Some(uid) => uid,
        None => {
            return None;
        },
    };
    let text = match &fetch.body {
        Some(b) => message_str(Some(b.as_slice())),
        None => message_str(None),
    };
    let b = parse_message_body(text.as_str());
    let flags = flags_to_string(fetch.flags.as_slice());
    let none: Option<Vec<Address>> = None;
    let absent: Option<Vec<u8>> = None;
    let message = match &fetch.envelope {
        Some(e) => Message {
            message_uid: uid,
            sequence_id: fetch.message,
            message_id: chars_to_string(&text_chars(&e.message_id)),
            subject: chars_to_string(&text_chars(&e.subject)),
            from_: message_address(&e.from),
            sender: message_address(&e.sender),
            to_: message_address(&e.to),
            cc: message_address(&e.cc),
            bcc: message_address(&e.bcc),
            reply_to: message_address(&e.reply_to),
            in_reply_to: chars_to_string(&text_chars(&e.in_reply_to)),
            delivered_to: b.delivered_to,
            date_: b.date,
            received: b.received,
            flags,
            html: b.html,
            text: b.text,
        },
        None => Message {
            message_uid: uid,
            sequence_id: fetch.message,
            message_id: chars_to_string(&text_chars(&absent)),
            subject: chars_to_string(&text_chars(&absent)),
            from_: message_address(&none),
            sender: message_address(&none),
            to_: message_address(&none),
            cc: message_address(&none),
            bcc: message_address(&none),
            reply_to: message_address(&none),
            in_reply_to: chars_to_string(&text_chars(&absent)),
            delivered_to: b.delivered_to,
            date_: b.date,
            received: b.received,
            flags,
            html: b.html,
            text: b.text,
        },
    };
    Some(message)
}

/// The condition "has this sequence id", of a pair of uid and sequence id.
pub open spec fn has_sequence_id(sequence_id: u32) -> spec_fn((u32, u32)) -> bool {
    |pair: (u32, u32)| pair.1 == sequence_id
}

/// The uid of a line of a fetch: the one it carries or, where it carries
/// none, the one that the pairs of uid and sequence id give for its
/// sequence id.
pub open spec fn line_uid(fetch: Fetch, pairs: Seq<(u32, u32)>) -> Option<u32> {
    match fetch.uid {
        Some(uid) => Some(uid),
        None => {
            let at = first_where(pairs, has_sequence_id(fetch.message), 0);
            if at < pairs.len() {
                Some(pairs[at].0)
            } else {
                None
            }
        },
    }
}

/// The condition "has a uid, its own or one from the pairs".
pub open spec fn has_line_uid(pairs: Seq<(u32, u32)>) -> spec_fn(Fetch) -> bool {
    |fetch: Fetch| line_uid(fetch, pairs) is Some
}

/// The condition "carries no uid".
pub open spec fn without_uid() -> spec_fn(Fetch) -> bool {
    |fetch: Fetch| fetch.uid is None
}

/// Uid and flags of each line of a fetch of flags that has a uid, its own
/// or one from the pairs, in the order of the lines.
pub open spec fn flag_lines_of(fetches: Seq<Fetch>, pairs: Seq<(u32, u32)>) -> Seq<
    (u32, Seq<Flag>),
> {
    kept(fetches, has_line_uid(pairs)).map_values(
        |fetch: Fetch| (line_uid(fetch, pairs)->Some_0, fetch.flags@),
    )
}

/// The views of a list of uids with their flags.
pub open spec fn flag_line_views(lines: Seq<(u32, Vec<Flag>)>) -> Seq<(u32, Seq<Flag>)> {
    Seq::new(lines.len(), |i: int| (lines[i].0, lines[i].1@))
}

/// Whether some line of a fetch carries no uid, so that the uids have to be
/// asked for.
pub fn lacks_uid(fetches: &Vec<Fetch>) -> (res: bool)
    ensures
        res == crate::table::any_where(fetches@, without_uid()),
{
    let mut i: usize = 0;
    while i < fetches.len()
        invariant
            i <= fetches.len(),
            first_where(fetches@, without_uid(), 0) == first_where(
                fetches@,
                without_uid(),
                i as int,
            ),
        decreases fetches.len() - i,
    {
        if fetches[i].uid.is_none() {
            return true;
        }
        i += 1;
    }
    false
}

fn copy_flags(flags: &Vec<Flag>) -> (res: Vec<Flag>)
    ensures
        res@ == flags@,
{
    let mut out: Vec<Flag> = Vec::new();
    let mut i: usize = 0;
    while i < flags.len()
        invariant
            i <= flags.len(),
            out@ == flags@.take(i as int),
        decreases flags.len() - i,
    {
        let flag = match &flags[i] {
            Flag::Seen => Flag::Seen,
            Flag::Answered => Flag::Answered,
            Flag::Flagged => Flag::Flagged,
            Flag::Deleted => Flag::Deleted,
            Flag::Draft => Flag::Draft,
            Flag::Recent => Flag::Recent,
            Flag::MayCreate => Flag::MayCreate,
            Flag::Custom(name) => Flag::Custom(name.clone()),
        };
        out.push(flag);
        i += 1;
        assert(out@ =~= flags@.take(i as int));
    }
    assert(flags@.take(flags.len() as int) =~= flags@);
    out
}

/// Uid and flags of each line of a fetch of flags. A line that carries no
/// uid gets the uid that `pairs` gives for its sequence id; a line for
/// which there is none is left out.
pub fn flag_lines(fetches: &Vec<Fetch>, pairs: &Vec<(u32, u32)>) -> (res: Vec<(u32, Vec<Flag>)>)
    ensures
        flag_line_views(res@) == flag_lines_of(fetches@, pairs@),
{
    let ghost wanted = has_line_uid(pairs@);
    let ghost shown = |fetch: Fetch| (line_uid(fetch, pairs@)->Some_0, fetch.flags@);
    let mut out: Vec<(u32, Vec<Flag>)> = Vec::new();
    let mut i: usize = 0;
    assert(fetches@.take(0) =~= Seq::<Fetch>::empty());
    assert(flag_line_views(out@) =~= kept(fetches@.take(0), wanted).map_values(shown));
    while i < fetches.len()
        invariant
            i <= fetches.len(),
            wanted == has_line_uid(pairs@),
            shown == |fetch: Fetch| (line_uid(fetch, pairs@)->Some_0, fetch.flags@),
            flag_line_views(out@) == kept(fetches@.take(i as int), wanted).map_values(shown),
        decreases fetches.len() - i,
    {
        proof {
            lemma_kept_step(fetches@, wanted, i as int);
        }
        let fetch = &fetches[i];
        let uid = match fetch.uid {
            Some(uid) => Some(uid),
            None => {
                let mut at: usize = 0;
                while at < pairs.len() && pairs[at].1 != fetch.message
                    invariant
                        at <= pairs.len(),
                        first_where(pairs@, has_sequence_id(fetch.message), 0) == first_where(
                            pairs@,
                            has_sequence_id(fetch.message),
                            at as int,
                        ),
                    decreases pairs.len() - at,
                {
                    at += 1;
                }
                if at < pairs.len() {
                    Some(pairs[at].0)
                } else {
                    None
                }
            },
        };
        assert(uid == line_uid(*fetch, pairs@));
        match uid {
            Some(uid) => {
                let ghost before = out@;
                out.push((uid, copy_flags(&fetch.flags)));
                assert(flag_line_views(out@) =~= flag_line_views(before).push(shown(*fetch)));
                assert(kept(fetches@.take(i as int), wanted).push(*fetch).map_values(shown)
                    =~= kept(fetches@.take(i as int), wanted).map_values(shown).push(
                    shown(*fetch),
                ));
            },
            None => {},
        }
        i += 1;
    }
    assert(fetches@.take(fetches.len() as int) =~= fetches@);
    out
}

} // verus!
