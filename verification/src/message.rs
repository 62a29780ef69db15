//! The records that the cache holds: clients, connections, mailboxes and
//! messages.

use vstd::prelude::*;

verus! {

/// The credentials of a client and the server it talks to. A client is
/// identified by its user name and the server's address.
#[derive(Clone, Debug, PartialEq, Eq)]
pub struct Client {
    pub username: String,
    pub password: String,
    pub address: String,
    pub port: u16,
}

/// The mathematical content of a `Client`.
pub struct ClientView {
    pub username: Seq<char>,
    pub password: Seq<char>,
    pub address: Seq<char>,
    pub port: u16,
}

impl View for Client {
    type V = ClientView;

    open spec fn view(&self) -> ClientView {
        ClientView {
            username: self.username@,
            password: self.password@,
            address: self.address@,
            port: self.port,
        }
    }
}

impl Client {
    /// A copy of the record.
    pub fn copy(&self) -> (res: Client)
        ensures
            res@ == self@,
    {
        Client {
            username: self.username.clone(),
            password: self.password.clone(),
            address: self.address.clone(),
            port: self.port,
        }
    }
}

/// A message as the cache holds it. The uid identifies the message within
/// its mailbox; the sequence id is its position in the server's view when
/// it was last seen.
#[derive(Clone, Debug, PartialEq, Eq)]
pub struct Message {
    pub message_uid: u32,
    pub sequence_id: u32,
    pub message_id: String,
    pub subject: String,
    pub from_: String,
    pub sender: String,
    pub to_: String,
    pub cc: String,
    pub bcc: String,
    pub reply_to: String,
    pub in_reply_to: String,
    pub delivered_to: String,
    pub date_: String,
    pub received: String,
    pub flags: String,
    pub html: String,
    pub text: String,
}

/// The mathematical content of a `Message`.
pub struct MessageView {
    pub message_uid: u32,
    pub sequence_id: u32,
    pub message_id: Seq<char>,
    pub subject: Seq<char>,
    pub from_: Seq<char>,
    pub sender: Seq<char>,
    pub to_: Seq<char>,
    pub cc: Seq<char>,
    pub bcc: Seq<char>,
    pub reply_to: Seq<char>,
    pub in_reply_to: Seq<char>,
    pub delivered_to: Seq<char>,
    pub date_: Seq<char>,
    pub received: Seq<char>,
    pub flags: Seq<char>,
    pub html: Seq<char>,
    pub text: Seq<char>,
}

impl View for Message {
    type V = MessageView;

    open spec fn view(&self) -> MessageView {
        MessageView {
            message_uid: self.message_uid,
            sequence_id: self.sequence_id,
            message_id: self.message_id@,
            subject: self.subject@,
            from_: self.from_@,
            sender: self.sender@,
            to_: self.to_@,
            cc: self.cc@,
            bcc: self.bcc@,
            reply_to: self.reply_to@,
            in_reply_to: self.in_reply_to@,
            delivered_to: self.delivered_to@,
            date_: self.date_@,
            received: self.received@,
            flags: self.flags@,
            html: self.html@,
            text: self.text@,
        }
    }
}

impl Message {
    /// A copy of the record.
    pub fn copy(&self) -> (res: Message)
        ensures
            res@ == self@,
    {
        Message {
            message_uid: self.message_uid,
            sequence_id: self.sequence_id,
            message_id: self.message_id.clone(),
            subject: self.subject.clone(),
            from_: self.from_.clone(),
            sender: self.sender.clone(),
            to_: self.to_.clone(),
            cc: self.cc.clone(),
            bcc: self.bcc.clone(),
            reply_to: self.reply_to.clone(),
            in_reply_to: self.in_reply_to.clone(),
            delivered_to: self.delivered_to.clone(),
            date_: self.date_.clone(),
            received: self.received.clone(),
            flags: self.flags.clone(),
            html: self.html.clone(),
            text: self.text.clone(),
        }
    }
}

/// The views of a list of messages, one per entry.
pub open spec fn message_views(v: Seq<Message>) -> Seq<MessageView> {
    Seq::new(v.len(), |i: int| v[i]@)
}

/// A connection as the cache holds it.
#[derive(Clone, Debug, PartialEq, Eq)]
pub struct ConnectionRow {
    pub username: String,
    pub password: String,
    pub address: String,
    pub port: u16,
    pub updated_at: u64,
}

/// The mathematical content of a `ConnectionRow`.
pub struct ConnectionView {
    pub username: Seq<char>,
    pub password: Seq<char>,
    pub address: Seq<char>,
    pub port: u16,
    pub updated_at: u64,
}

impl View for ConnectionRow {
    type V = ConnectionView;

    open spec fn view(&self) -> ConnectionView {
        ConnectionView {
            username: self.username@,
            password: self.password@,
            address: self.address@,
            port: self.port,
            updated_at: self.updated_at,
        }
    }
}

/// A mailbox as the cache holds it.
#[derive(Clone, Debug, PartialEq, Eq)]
pub struct MailboxRow {
    pub c_username: String,
    pub c_address: String,
    pub path: String,
    pub updated_at: u64,
}

/// The mathematical content of a `MailboxRow`.
pub struct MailboxView {
    pub c_username: Seq<char>,
    pub c_address: Seq<char>,
    pub path: Seq<char>,
    pub updated_at: u64,
}

impl View for MailboxRow {
    type V = MailboxView;

    open spec fn view(&self) -> MailboxView {
        MailboxView {
            c_username: self.c_username@,
            c_address: self.c_address@,
            path: self.path@,
            updated_at: self.updated_at,
        }
    }
}

/// A message together with the mailbox it belongs to.
#[derive(Clone, Debug, PartialEq, Eq)]
pub struct MessageRow {
    pub c_username: String,
    pub c_address: String,
    pub m_path: String,
    pub message: Message,
    pub updated_at: u64,
}

/// The mathematical content of a `MessageRow`.
pub struct RowView {
    pub c_username: Seq<char>,
    pub c_address: Seq<char>,
    pub m_path: Seq<char>,
    pub message: MessageView,
    pub updated_at: u64,
}

impl View for MessageRow {
    type V = RowView;

    open spec fn view(&self) -> RowView {
        RowView {
            c_username: self.c_username@,
            c_address: self.c_address@,
            m_path: self.m_path@,
            message: self.message@,
            updated_at: self.updated_at,
        }
    }
}

} // verus!
