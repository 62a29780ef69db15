//! The cache store: three tables (connections, their mailboxes, the
//! messages of each mailbox) and the operations that read and change them.
//! What each operation makes of the tables is said in `schema`.

use crate::error::{ApiError, ErrorKind};
use crate::message::{
    message_views, Client, ConnectionRow, ConnectionView, MailboxRow, MailboxView, Message,
    MessageRow, MessageView, RowView,
};
use crate::order::{positions, rank, ranked};
use crate::schema::{
    in_mailbox, is_connection, is_mailbox, is_row, lemma_row_replaced, lemma_with_connection,
    lemma_with_mailbox, lemma_with_rows, lemma_without_connection, lemma_without_mailbox,
    lemma_without_message, lemma_without_parent, mailbox_paths, mailbox_rows, mailbox_scope,
    missing_parent, not_where, of_connection, row_dates, row_flags, row_messages, row_scope,
    row_sequence_ids, sorted_window, well_formed, with_connection, with_flag, with_flag_changes,
    with_flags, with_mailbox, with_mailboxes, with_message, with_messages, with_rows,
    with_sequence_id, with_sequence_ids, with_uid_among, without_connection, without_mailbox,
    without_mailboxes, without_message, without_messages, StoreView,
};
use crate::table::{any_where, first_where, kept, lemma_first_where, lemma_kept_step};
use crate::text::{contains, lemma_texts_push, str_chars, texts};
use vstd::prelude::*;
use vstd::string::StringExecFns;

verus! {

/// The cache store.
pub struct CacheStore {
    connections: Vec<ConnectionRow>,
    mailboxes: Vec<MailboxRow>,
    messages: Vec<MessageRow>,
}

/// The views of a list of connection rows.
pub open spec fn connection_views(v: Seq<ConnectionRow>) -> Seq<ConnectionView> {
    Seq::new(v.len(), |i: int| v[i]@)
}

/// The views of a list of mailbox rows.
pub open spec fn mailbox_views(v: Seq<MailboxRow>) -> Seq<MailboxView> {
    Seq::new(v.len(), |i: int| v[i]@)
}

/// The views of a list of message rows.
pub open spec fn row_views(v: Seq<MessageRow>) -> Seq<RowView> {
    Seq::new(v.len(), |i: int| v[i]@)
}

impl View for CacheStore {
    type V = StoreView;

    closed spec fn view(&self) -> StoreView {
        StoreView {
            connections: connection_views(self.connections@),
            mailboxes: mailbox_views(self.mailboxes@),
            messages: row_views(self.messages@),
        }
    }
}

/// The views of the path and the uid that narrow a scope.
pub open spec fn path_view(path: Option<&String>) -> Option<Seq<char>> {
    match path {
        Some(p) => Some(p@),
        None => None,
    }
}

fn remove_rows(
    rows: &mut Vec<MessageRow>,
    username: &String,
    address: &String,
    path: Option<&String>,
    uid: Option<u32>,
)
    ensures
        row_views(final(rows)@) == kept(
            row_views(old(rows)@),
            not_where(row_scope(username@, address@, path_view(path), uid)),
        ),
{
    let ghost all = row_views(rows@);
    let ghost stays = not_where(row_scope(username@, address@, path_view(path), uid));
    let ghost seen: int = 0;
    let mut i: usize = 0;
    assert(all.take(0) =~= Seq::<RowView>::empty());
    assert(row_views(rows@) =~= kept(all.take(0), stays) + all.skip(0));
    while i < rows.len()
        invariant
            0 <= seen <= all.len(),
            i == kept(all.take(seen), stays).len(),
            rows.len() == i + all.len() - seen,
            row_views(rows@) == kept(all.take(seen), stays) + all.skip(seen),
            stays == not_where(row_scope(username@, address@, path_view(path), uid)),
        decreases rows.len() - i,
    {
        proof {
            lemma_kept_step(all, stays, seen);
            assert(row_views(rows@)[i as int] == all.skip(seen)[0]);
        }
        let row = &rows[i];
        let in_path = match path {
            Some(p) => row.m_path == *p,
            None => true,
        };
        let has_uid = match uid {
            Some(n) => row.message.message_uid == n,
            None => true,
        };
        let goes = row.c_username == *username && row.c_address == *address && in_path && has_uid;
        let ghost before = row_views(rows@);
        if goes {
            rows.remove(i);
            proof {
                assert(!stays(all[seen]));
                assert(row_views(rows@) =~= before.remove(i as int));
                assert(before.remove(i as int) =~= kept(all.take(seen), stays) + all.skip(seen + 1));
            }
        } else {
            i += 1;
            assert(before =~= kept(all.take(seen + 1), stays) + all.skip(seen + 1));
        }
        proof {
            seen = seen + 1;
        }
    }
    assert(all.take(all.len() as int) =~= all);
    assert(row_views(rows@) =~= kept(all.take(seen), stays));
}

fn remove_mailboxes(
    rows: &mut Vec<MailboxRow>,
    username: &String,
    address: &String,
    path: Option<&String>,
)
    ensures
        mailbox_views(final(rows)@) == kept(
            mailbox_views(old(rows)@),
            not_where(mailbox_scope(username@, address@, path_view(path))),
        ),
{
    let ghost all = mailbox_views(rows@);
    let ghost stays = not_where(mailbox_scope(username@, address@, path_view(path)));
    let ghost seen: int = 0;
    let mut i: usize = 0;
    assert(all.take(0) =~= Seq::<MailboxView>::empty());
    assert(mailbox_views(rows@) =~= kept(all.take(0), stays) + all.skip(0));
    while i < rows.len()
        invariant
            0 <= seen <= all.len(),
            i == kept(all.take(seen), stays).len(),
            rows.len() == i + all.len() - seen,
            mailbox_views(rows@) == kept(all.take(seen), stays) + all.skip(seen),
            stays == not_where(mailbox_scope(username@, address@, path_view(path))),
        decreases rows.len() - i,
    {
        proof {
            lemma_kept_step(all, stays, seen);
            assert(mailbox_views(rows@)[i as int] == all.skip(seen)[0]);
        }
        let row = &rows[i];
        let in_path = match path {
            Some(p) => row.path == *p,
            None => true,
        };
        let goes = row.c_username == *username && row.c_address == *address && in_path;
        let ghost before = mailbox_views(rows@);
        if goes {
            rows.remove(i);
            proof {
                assert(!stays(all[seen]));
                assert(mailbox_views(rows@) =~= before.remove(i as int));
                assert(before.remove(i as int) =~= kept(all.take(seen), stays) + all.skip(seen + 1));
            }
        } else {
            i += 1;
            assert(before =~= kept(all.take(seen + 1), stays) + all.skip(seen + 1));
        }
        proof {
            seen = seen + 1;
        }
    }
    assert(all.take(all.len() as int) =~= all);
    assert(mailbox_views(rows@) =~= kept(all.take(seen), stays));
}

fn remove_connections(rows: &mut Vec<ConnectionRow>, username: &String, address: &String)
    ensures
        connection_views(final(rows)@) == kept(
            connection_views(old(rows)@),
            not_where(is_connection(username@, address@)),
        ),
{
    let ghost all = connection_views(rows@);
    let ghost stays = not_where(is_connection(username@, address@));
    let ghost seen: int = 0;
    let mut i: usize = 0;
    assert(all.take(0) =~= Seq::<ConnectionView>::empty());
    assert(connection_views(rows@) =~= kept(all.take(0), stays) + all.skip(0));
    while i < rows.len()
        invariant
            0 <= seen <= all.len(),
            i == kept(all.take(seen), stays).len(),
            rows.len() == i + all.len() - seen,
            connection_views(rows@) == kept(all.take(seen), stays) + all.skip(seen),
            stays == not_where(is_connection(username@, address@)),
        decreases rows.len() - i,
    {
        proof {
            lemma_kept_step(all, stays, seen);
            assert(connection_views(rows@)[i as int] == all.skip(seen)[0]);
        }
        let goes = rows[i].username == *username && rows[i].address == *address;
        let ghost before = connection_views(rows@);
        if goes {
            rows.remove(i);
            proof {
                assert(!stays(all[seen]));
                assert(connection_views(rows@) =~= before.remove(i as int));
                assert(before.remove(i as int) =~= kept(all.take(seen), stays) + all.skip(seen + 1));
            }
        } else {
            i += 1;
            assert(before =~= kept(all.take(seen + 1), stays) + all.skip(seen + 1));
        }
        proof {
            seen = seen + 1;
        }
    }
    assert(all.take(all.len() as int) =~= all);
    assert(connection_views(rows@) =~= kept(all.take(seen), stays));
}

/// The views of a list of uids with their flag strings.
pub open spec fn flag_views(v: Seq<(u32, String)>) -> Seq<(u32, Seq<char>)> {
    Seq::new(v.len(), |i: int| (v[i].0, v[i].1@))
}

/// The texts of a list of strings, one per entry.
pub open spec fn string_views(v: Seq<String>) -> Seq<Seq<char>> {
    Seq::new(v.len(), |i: int| v[i]@)
}

/// Whether `found` gives, for each of `rows` in order, a position of the
/// table at which this row stands.
pub open spec fn located(found: Seq<usize>, table: Seq<RowView>, rows: Seq<RowView>) -> bool {
    &&& found.len() == rows.len()
    &&& forall|k: int|
        0 <= k < found.len() ==> (#[trigger] found[k]) < table.len() && table[found[k] as int]
            == rows[k]
}

/// Whether a uid is among the given uids.
pub fn has_uid(uids: &Vec<u32>, uid: u32) -> (res: bool)
    ensures
        res == uids@.contains(uid),
{
    let mut i: usize = 0;
    while i < uids.len()
        invariant
            i <= uids.len(),
            forall|k: int| 0 <= k < i ==> uids@[k] != uid,
        decreases uids.len() - i,
    {
        if uids[i] == uid {
            return true;
        }
        i += 1;
    }
    false
}

impl CacheStore {
    /// Whether the invariant of the store holds.
    pub open spec fn wf(&self) -> bool {
        well_formed(self@)
    }

    /// An empty store.
    pub fn new() -> (res: CacheStore)
        ensures
            res.wf(),
            res@.connections.len() == 0,
            res@.mailboxes.len() == 0,
            res@.messages.len() == 0,
    {
        CacheStore { connections: Vec::new(), mailboxes: Vec::new(), messages: Vec::new() }
    }

    fn connection_position(&self, username: &String, address: &String) -> (res: usize)
        ensures
            res == first_where(self@.connections, is_connection(username@, address@), 0),
            res <= self.connections.len(),
            self.connections.len() == self@.connections.len(),
    {
        let mut i: usize = 0;
        while i < self.connections.len()
            invariant
                i <= self.connections.len(),
                first_where(self@.connections, is_connection(username@, address@), 0)
                    == first_where(self@.connections, is_connection(username@, address@), i as int),
            decreases self.connections.len() - i,
        {
            if self.connections[i].username == *username && self.connections[i].address
                == *address {
                return i;
            }
            i += 1;
        }
        i
    }

    fn mailbox_position(&self, username: &String, address: &String, path: &String) -> (res: usize)
        ensures
            res == first_where(self@.mailboxes, is_mailbox(username@, address@, path@), 0),
            res <= self.mailboxes.len(),
            self.mailboxes.len() == self@.mailboxes.len(),
    {
        let mut i: usize = 0;
        while i < self.mailboxes.len()
            invariant
                i <= self.mailboxes.len(),
                first_where(self@.mailboxes, is_mailbox(username@, address@, path@), 0)
                    == first_where(
                    self@.mailboxes,
                    is_mailbox(username@, address@, path@),
                    i as int,
                ),
            decreases self.mailboxes.len() - i,
        {
            if self.mailboxes[i].c_username == *username && self.mailboxes[i].c_address
                == *address && self.mailboxes[i].path == *path {
                return i;
            }
            i += 1;
        }
        i
    }

    fn row_position(
        &self,
        username: &String,
        address: &String,
        path: &String,
        uid: u32,
    ) -> (res: usize)
        ensures
            res == first_where(self@.messages, is_row(username@, address@, path@, uid), 0),
            res <= self.messages.len(),
            self.messages.len() == self@.messages.len(),
    {
        let mut i: usize = 0;
        while i < self.messages.len()
            invariant
                i <= self.messages.len(),
                first_where(self@.messages, is_row(username@, address@, path@, uid), 0)
                    == first_where(
                    self@.messages,
                    is_row(username@, address@, path@, uid),
                    i as int,
                ),
            decreases self.messages.len() - i,
        {
            if self.messages[i].message.message_uid == uid && self.messages[i].c_username
                == *username && self.messages[i].c_address == *address && self.messages[i].m_path
                == *path {
                return i;
            }
            i += 1;
        }
        i
    }

    /// Whether the connection of a client is stored.
    pub fn has_connection(&self, client: &Client) -> (res: bool)
        ensures
            res == any_where(self@.connections, is_connection(client@.username, client@.address)),
    {
        self.connection_position(&client.username, &client.address) < self.connections.len()
    }

    /// Whether a mailbox of a client is stored.
    pub fn has_mailbox(&self, client: &Client, path: &str) -> (res: bool)
        ensures
            res == any_where(
                self@.mailboxes,
                is_mailbox(client@.username, client@.address, path@),
            ),
    {
        let path = String::from_str(path);
        self.mailbox_position(&client.username, &client.address, &path) < self.mailboxes.len()
    }

    /// Stores the connection of a client, with `now` as the time of the
    /// change. A connection that is stored already is replaced.
    pub fn put_connection(&mut self, client: &Client, now: u64)
        requires
            old(self).wf(),
        ensures
            final(self).wf(),
            final(self)@ == with_connection(old(self)@, client@, now),
    {
        let at = self.connection_position(&client.username, &client.address);
        let row = ConnectionRow {
            username: client.username.clone(),
            password: client.password.clone(),
            address: client.address.clone(),
            port: client.port,
            updated_at: now,
        };
        proof {
            lemma_with_connection(self@, client@, now);
        }
        if at < self.connections.len() {
            self.connections[at] = row;
        } else {
            self.connections.push(row);
        }
        assert(self@.connections =~= with_connection(old(self)@, client@, now).connections);
    }

    /// Stores a mailbox of a client. A mailbox that is stored already stays
    /// as it is; without the client's connection the write fails and nothing
    /// changes.
    pub fn put_mailbox(&mut self, client: &Client, path: &str, now: u64) -> (res: Result<
        (),
        ApiError,
    >)
        requires
            old(self).wf(),
        ensures
            final(self).wf(),
            final(self)@ == with_mailbox(
                old(self)@,
                client@.username,
                client@.address,
                path@,
                now,
            ),
            res is Ok <==> any_where(
                old(self)@.connections,
                is_connection(client@.username, client@.address),
            ),
            res is Err ==> res->Err_0@ == missing_parent(),
    {
        if !self.has_connection(client) {
            return Err(ApiError::new(ErrorKind::Storage, "No such connection or mailbox"));
        }
        let path = String::from_str(path);
        let at = self.mailbox_position(&client.username, &client.address, &path);
        proof {
            lemma_with_mailbox(self@, client@.username, client@.address, path@, now);
        }
        if at == self.mailboxes.len() {
            self.mailboxes.push(
                MailboxRow {
                    c_username: client.username.clone(),
                    c_address: client.address.clone(),
                    path,
                    updated_at: now,
                },
            );
            assert(self@.mailboxes =~= with_mailbox(
                old(self)@,
                client@.username,
                client@.address,
                path@,
                now,
            ).mailboxes);
        }
        Ok(())
    }

    /// Deletes the connection of a client, its mailboxes and their messages.
    pub fn delete_connection(&mut self, client: &Client)
        requires
            old(self).wf(),
        ensures
            final(self).wf(),
            final(self)@ == without_connection(old(self)@, client@.username, client@.address),
    {
        proof {
            lemma_without_connection(self@, client@.username, client@.address);
        }
        remove_connections(&mut self.connections, &client.username, &client.address);
        remove_mailboxes(&mut self.mailboxes, &client.username, &client.address, None);
        remove_rows(&mut self.messages, &client.username, &client.address, None, None);
    }

    /// Deletes a mailbox of a client and its messages.
    pub fn delete_mailbox(&mut self, client: &Client, path: &str)
        requires
            old(self).wf(),
        ensures
            final(self).wf(),
            final(self)@ == without_mailbox(old(self)@, client@.username, client@.address, path@),
    {
        let path = String::from_str(path);
        proof {
            lemma_without_mailbox(self@, client@.username, client@.address, path@);
        }
        remove_mailboxes(&mut self.mailboxes, &client.username, &client.address, Some(&path));
        remove_rows(&mut self.messages, &client.username, &client.address, Some(&path), None);
    }

    /// Deletes a message of a mailbox.
    pub fn delete_message(&mut self, client: &Client, path: &str, uid: u32)
        requires
            old(self).wf(),
        ensures
            final(self).wf(),
            final(self)@ == without_message(
                old(self)@,
                client@.username,
                client@.address,
                path@,
                uid,
            ),
    {
        let path = String::from_str(path);
        proof {
            lemma_without_message(self@, client@.username, client@.address, path@, uid);
        }
        remove_rows(&mut self.messages, &client.username, &client.address, Some(&path), Some(uid));
    }

    /// Stores messages of a mailbox, one after the other; a message whose
    /// uid is stored already replaces the stored one. Without the mailbox
    /// the write fails and nothing changes.
    pub fn put_messages(
        &mut self,
        client: &Client,
        path: &str,
        messages: &Vec<Message>,
        now: u64,
    ) -> (res: Result<(), ApiError>)
        requires
            old(self).wf(),
        ensures
            final(self).wf(),
            final(self)@ == with_rows(
                old(self)@,
                client@.username,
                client@.address,
                path@,
                message_views(messages@),
                now,
            ),
            res is Ok <==> any_where(
                old(self)@.mailboxes,
                is_mailbox(client@.username, client@.address, path@),
            ),
            res is Err ==> res->Err_0@ == missing_parent(),
    {
        if !self.has_mailbox(client, path) {
            return Err(ApiError::new(ErrorKind::Storage, "No such connection or mailbox"));
        }
        let path = String::from_str(path);
        let ghost start = self@;
        let ghost all = message_views(messages@);
        let mut i: usize = 0;
        assert(all.take(0) =~= Seq::<MessageView>::empty());
        while i < messages.len()
            invariant
                i <= messages.len(),
                all == message_views(messages@),
                self@ == (StoreView {
                    messages: with_messages(
                        start.messages,
                        client@.username,
                        client@.address,
                        path@,
                        all.take(i as int),
                        now,
                    ),
                    ..start
                }),
            decreases messages.len() - i,
        {
            proof {
                assert(all.take(i + 1).drop_last() =~= all.take(i as int));
                assert(all.take(i + 1).last() == messages@[i as int]@);
            }
            let at = self.row_position(
                &client.username,
                &client.address,
                &path,
                messages[i].message_uid,
            );
            let row = MessageRow {
                c_username: client.username.clone(),
                c_address: client.address.clone(),
                m_path: path.clone(),
                message: messages[i].copy(),
                updated_at: now,
            };
            let ghost before = self@.messages;
            if at < self.messages.len() {
                self.messages[at] = row;
            } else {
                self.messages.push(row);
            }
            assert(self@.messages =~= with_message(
                before,
                client@.username,
                client@.address,
                path@,
                messages@[i as int]@,
                now,
            ));
            i += 1;
        }
        proof {
            assert(all.take(messages.len() as int) =~= all);
            lemma_with_rows(start, client@.username, client@.address, path@, all, now);
        }
        Ok(())
    }

    /// Sets the flag string of a message. Without the message nothing
    /// changes.
    pub fn update_flags(&mut self, client: &Client, path: &str, uid: u32, flags: &str, now: u64)
        requires
            old(self).wf(),
        ensures
            final(self).wf(),
            final(self)@ == with_flags(
                old(self)@,
                client@.username,
                client@.address,
                path@,
                uid,
                flags@,
                now,
            ),
    {
        let path = String::from_str(path);
        let at = self.row_position(&client.username, &client.address, &path, uid);
        if at < self.messages.len() {
            let ghost before = self@;
            proof {
                lemma_first_where(
                    before.messages,
                    is_row(client@.username, client@.address, path@, uid),
                    0,
                );
                let row = before.messages[at as int];
                lemma_row_replaced(
                    before,
                    at as int,
                    RowView {
                        message: MessageView { flags: flags@, ..row.message },
                        updated_at: now,
                        ..row
                    },
                );
            }
            self.messages[at].message.flags = String::from_str(flags);
            self.messages[at].updated_at = now;
            assert(self@.messages =~= with_flags(
                before,
                client@.username,
                client@.address,
                path@,
                uid,
                flags@,
                now,
            ).messages);
        }
    }

    /// Sets the sequence id of a message. Without the message nothing
    /// changes.
    pub fn update_sequence_id(
        &mut self,
        client: &Client,
        path: &str,
        uid: u32,
        sequence_id: u32,
        now: u64,
    )
        requires
            old(self).wf(),
        ensures
            final(self).wf(),
            final(self)@ == with_sequence_id(
                old(self)@,
                client@.username,
                client@.address,
                path@,
                uid,
                sequence_id,
                now,
            ),
    {
        let path = String::from_str(path);
        let at = self.row_position(&client.username, &client.address, &path, uid);
        if at < self.messages.len() {
            let ghost before = self@;
            proof {
                lemma_first_where(
                    before.messages,
                    is_row(client@.username, client@.address, path@, uid),
                    0,
                );
                let row = before.messages[at as int];
                lemma_row_replaced(
                    before,
                    at as int,
                    RowView {
                        message: MessageView { sequence_id, ..row.message },
                        updated_at: now,
                        ..row
                    },
                );
            }
            self.messages[at].message.sequence_id = sequence_id;
            self.messages[at].updated_at = now;
            assert(self@.messages =~= with_sequence_id(
                before,
                client@.username,
                client@.address,
                path@,
                uid,
                sequence_id,
                now,
            ).messages);
        }
    }

    /// The positions of the rows of a mailbox, in the order of the table.
    fn mailbox_positions(&self, client: &Client, path: &String) -> (res: Vec<usize>)
        ensures
            located(
                res@,
                self@.messages,
                mailbox_rows(self@, client@.username, client@.address, path@),
            ),
            self@.messages.len() == self.messages.len(),
    {
        let ghost rows = self@.messages;
        let ghost wanted = in_mailbox(client@.username, client@.address, path@);
        let mut found: Vec<usize> = Vec::new();
        let mut i: usize = 0;
        assert(rows.take(0) =~= Seq::<RowView>::empty());
        while i < self.messages.len()
            invariant
                i <= self.messages.len(),
                rows == self@.messages,
                rows.len() == self.messages.len(),
                wanted == in_mailbox(client@.username, client@.address, path@),
                located(found@, rows.take(i as int), kept(rows.take(i as int), wanted)),
            decreases self.messages.len() - i,
        {
            proof {
                lemma_kept_step(rows, wanted, i as int);
            }
            let row = &self.messages[i];
            if row.c_username == client.username && row.c_address == client.address && row.m_path
                == *path {
                found.push(i);
            }
            i += 1;
            assert(located(found@, rows.take(i as int), kept(rows.take(i as int), wanted))) by {
                assert forall|k: int| 0 <= k < found.len() implies (#[trigger] found@[k])
                    < rows.take(i as int).len() && rows.take(i as int)[found@[k] as int] == kept(
                    rows.take(i as int),
                    wanted,
                )[k] by {
                    if k < kept(rows.take(i - 1), wanted).len() {
                        assert(rows.take(i - 1)[found@[k] as int] == kept(
                            rows.take(i - 1),
                            wanted,
                        )[k]);
                    }
                }
            }
        }
        assert(rows.take(self.messages.len() as int) =~= rows);
        found
    }

    /// The messages of a mailbox whose uid is among `uids`, in the order of
    /// the table.
    pub fn messages_by_uids(&self, client: &Client, path: &str, uids: &Vec<u32>) -> (res: Vec<
        Message,
    >)
        ensures
            message_views(res@) == row_messages(
                kept(
                    self@.messages,
                    with_uid_among(client@.username, client@.address, path@, uids@),
                ),
            ),
    {
        let path = String::from_str(path);
        let ghost rows = self@.messages;
        let ghost wanted = with_uid_among(client@.username, client@.address, path@, uids@);
        let mut out: Vec<Message> = Vec::new();
        let mut i: usize = 0;
        assert(rows.take(0) =~= Seq::<RowView>::empty());
        assert(message_views(out@) =~= row_messages(kept(rows.take(0), wanted)));
        while i < self.messages.len()
            invariant
                i <= self.messages.len(),
                rows == self@.messages,
                rows.len() == self.messages.len(),
                wanted == with_uid_among(client@.username, client@.address, path@, uids@),
                message_views(out@) == row_messages(kept(rows.take(i as int), wanted)),
            decreases self.messages.len() - i,
        {
            proof {
                lemma_kept_step(rows, wanted, i as int);
            }
            let row = &self.messages[i];
            if row.c_username == client.username && row.c_address == client.address && row.m_path
                == path && has_uid(uids, row.message.message_uid) {
                let ghost before = out@;
                out.push(row.message.copy());
                assert(message_views(out@) =~= message_views(before).push(rows[i as int].message));
                assert(row_messages(kept(rows.take(i as int), wanted).push(rows[i as int]))
                    =~= row_messages(kept(rows.take(i as int), wanted)).push(
                    rows[i as int].message,
                ));
            }
            i += 1;
        }
        assert(rows.take(self.messages.len() as int) =~= rows);
        out
    }

    /// The messages of a mailbox whose flag string holds `flag` or, where
    /// `negate` is set, does not hold it, in the order of the table.
    pub fn messages_by_flag(&self, client: &Client, path: &str, flag: &str, negate: bool) -> (res:
        Vec<Message>)
        ensures
            message_views(res@) == row_messages(
                kept(
                    self@.messages,
                    with_flag(client@.username, client@.address, path@, flag@, negate),
                ),
            ),
    {
        let path = String::from_str(path);
        let flag_chars = str_chars(flag);
        let ghost rows = self@.messages;
        let ghost wanted = with_flag(client@.username, client@.address, path@, flag@, negate);
        let mut out: Vec<Message> = Vec::new();
        let mut i: usize = 0;
        assert(rows.take(0) =~= Seq::<RowView>::empty());
        assert(message_views(out@) =~= row_messages(kept(rows.take(0), wanted)));
        while i < self.messages.len()
            invariant
                i <= self.messages.len(),
                rows == self@.messages,
                rows.len() == self.messages.len(),
                flag_chars@ == flag@,
                wanted == with_flag(client@.username, client@.address, path@, flag@, negate),
                message_views(out@) == row_messages(kept(rows.take(i as int), wanted)),
            decreases self.messages.len() - i,
        {
            proof {
                lemma_kept_step(rows, wanted, i as int);
            }
            let row = &self.messages[i];
            if row.c_username == client.username && row.c_address == client.address && row.m_path
                == path && (contains(&str_chars(row.message.flags.as_str()), &flag_chars)
                != negate) {
                let ghost before = out@;
                out.push(row.message.copy());
                assert(message_views(out@) =~= message_views(before).push(rows[i as int].message));
                assert(row_messages(kept(rows.take(i as int), wanted).push(rows[i as int]))
                    =~= row_messages(kept(rows.take(i as int), wanted)).push(
                    rows[i as int].message,
                ));
            }
            i += 1;
        }
        assert(rows.take(self.messages.len() as int) =~= rows);
        out
    }

    /// The messages of a mailbox with ranks `start` up to, not including,
    /// `end`, ranked by date, latest first.
    pub fn messages_sorted(&self, client: &Client, path: &str, start: u32, end: u32) -> (res: Vec<
        Message,
    >)
        ensures
            message_views(res@) == sorted_window(
                mailbox_rows(self@, client@.username, client@.address, path@),
                start as int,
                end as int,
            ),
            end <= start ==> res.len() == 0,
    {
        let path = String::from_str(path);
        let found = self.mailbox_positions(client, &path);
        let ghost rows = mailbox_rows(self@, client@.username, client@.address, path@);
        let mut keys: Vec<Vec<char>> = Vec::new();
        let mut i: usize = 0;
        while i < found.len()
            invariant
                i <= found.len(),
                located(found@, self@.messages, rows),
                self@.messages.len() == self.messages.len(),
                texts(keys@) == row_dates(rows).take(i as int),
            decreases found.len() - i,
        {
            let key = str_chars(self.messages[found[i]].message.date_.as_str());
            proof {
                lemma_texts_push(keys@, key);
                assert(self@.messages[found@[i as int] as int] == rows[i as int]);
                assert(row_dates(rows).take(i + 1) =~= row_dates(rows).take(i as int).push(key@));
            }
            keys.push(key);
            i += 1;
        }
        assert(row_dates(rows).take(found.len() as int) =~= row_dates(rows));
        let order = rank(&keys, true);
        let n: usize = found.len();
        let lo: usize = if (start as usize) < n {
            start as usize
        } else {
            n
        };
        let hi: usize = if (end as usize) < n {
            end as usize
        } else {
            n
        };
        let ghost wanted = sorted_window(rows, start as int, end as int);
        let mut out: Vec<Message> = Vec::new();
        if lo >= hi {
            assert(message_views(out@) =~= wanted);
            return out;
        }
        let mut k: usize = lo;
        assert(message_views(out@) =~= wanted.take(0));
        while k < hi
            invariant
                lo <= k <= hi <= n,
                n == found.len(),
                n == rows.len(),
                order.len() == n,
                positions(order@) == ranked(row_dates(rows), true),
                forall|j: int| 0 <= j < order.len() ==> order@[j] < n,
                located(found@, self@.messages, rows),
                self@.messages.len() == self.messages.len(),
                wanted.len() == hi - lo,
                forall|j: int|
                    0 <= j < hi - lo ==> #[trigger] wanted[j] == rows[ranked(
                        row_dates(rows),
                        true,
                    )[lo + j]].message,
                message_views(out@) == wanted.take(k - lo),
            decreases hi - k,
        {
            let at = found[order[k]];
            let ghost before = out@;
            proof {
                assert(positions(order@)[k as int] == order@[k as int]);
                assert(self@.messages[found@[order@[k as int] as int] as int] == rows[order@[
                    k as int
                ] as int]);
            }
            out.push(self.messages[at].message.copy());
            assert(message_views(out@) =~= message_views(before).push(wanted[k - lo]));
            assert(wanted.take(k - lo + 1) =~= wanted.take(k - lo).push(wanted[k - lo]));
            k += 1;
        }
        assert(wanted.take(hi - lo) =~= wanted);
        out
    }

    /// The messages of a mailbox, in the order of the table.
    pub fn mailbox_messages(&self, client: &Client, path: &str) -> (res: Vec<Message>)
        ensures
            message_views(res@) == row_messages(
                mailbox_rows(self@, client@.username, client@.address, path@),
            ),
    {
        let path = String::from_str(path);
        let found = self.mailbox_positions(client, &path);
        let ghost rows = mailbox_rows(self@, client@.username, client@.address, path@);
        let mut out: Vec<Message> = Vec::new();
        let mut i: usize = 0;
        assert(message_views(out@) =~= row_messages(rows).take(0));
        while i < found.len()
            invariant
                i <= found.len(),
                located(found@, self@.messages, rows),
                self@.messages.len() == self.messages.len(),
                message_views(out@) == row_messages(rows).take(i as int),
            decreases found.len() - i,
        {
            let ghost before = out@;
            proof {
                assert(self@.messages[found@[i as int] as int] == rows[i as int]);
            }
            out.push(self.messages[found[i]].message.copy());
            assert(message_views(out@) =~= message_views(before).push(rows[i as int].message));
            assert(row_messages(rows).take(i + 1) =~= row_messages(rows).take(i as int).push(
                rows[i as int].message,
            ));
            i += 1;
        }
        assert(row_messages(rows).take(found.len() as int) =~= row_messages(rows));
        out
    }

    /// The uid and the flag string of each message of a mailbox, in the
    /// order of the table.
    pub fn flags_snapshot(&self, client: &Client, path: &str) -> (res: Vec<(u32, String)>)
        ensures
            flag_views(res@) == row_flags(
                mailbox_rows(self@, client@.username, client@.address, path@),
            ),
    {
        let path = String::from_str(path);
        let found = self.mailbox_positions(client, &path);
        let ghost rows = mailbox_rows(self@, client@.username, client@.address, path@);
        let mut out: Vec<(u32, String)> = Vec::new();
        let mut i: usize = 0;
        assert(flag_views(out@) =~= row_flags(rows).take(0));
        while i < found.len()
            invariant
                i <= found.len(),
                located(found@, self@.messages, rows),
                self@.messages.len() == self.messages.len(),
                flag_views(out@) == row_flags(rows).take(i as int),
            decreases found.len() - i,
        {
            let message = &self.messages[found[i]].message;
            let ghost before = out@;
            proof {
                assert(self@.messages[found@[i as int] as int] == rows[i as int]);
            }
            out.push((message.message_uid, message.flags.clone()));
            assert(flag_views(out@) =~= row_flags(rows).take(i as int).push(
                (rows[i as int].message.message_uid, rows[i as int].message.flags),
            ));
            assert(row_flags(rows).take(i + 1) =~= row_flags(rows).take(i as int).push(
                (rows[i as int].message.message_uid, rows[i as int].message.flags),
            ));
            i += 1;
        }
        assert(row_flags(rows).take(found.len() as int) =~= row_flags(rows));
        out
    }

    /// The uid and the sequence id of each message of a mailbox, in the
    /// order of the table.
    pub fn sequence_ids(&self, client: &Client, path: &str) -> (res: Vec<(u32, u32)>)
        ensures
            res@ == row_sequence_ids(
                mailbox_rows(self@, client@.username, client@.address, path@),
            ),
    {
        let path = String::from_str(path);
        let found = self.mailbox_positions(client, &path);
        let ghost rows = mailbox_rows(self@, client@.username, client@.address, path@);
        let mut out: Vec<(u32, u32)> = Vec::new();
        let mut i: usize = 0;
        assert(out@ =~= row_sequence_ids(rows).take(0));
        while i < found.len()
            invariant
                i <= found.len(),
                located(found@, self@.messages, rows),
                self@.messages.len() == self.messages.len(),
                out@ == row_sequence_ids(rows).take(i as int),
            decreases found.len() - i,
        {
            let message = &self.messages[found[i]].message;
            proof {
                assert(self@.messages[found@[i as int] as int] == rows[i as int]);
            }
            out.push((message.message_uid, message.sequence_id));
            assert(out@ =~= row_sequence_ids(rows).take(i as int).push(
                (rows[i as int].message.message_uid, rows[i as int].message.sequence_id),
            ));
            assert(row_sequence_ids(rows).take(i + 1) =~= row_sequence_ids(rows).take(
                i as int,
            ).push((rows[i as int].message.message_uid, rows[i as int].message.sequence_id)));
            i += 1;
        }
        assert(row_sequence_ids(rows).take(found.len() as int) =~= row_sequence_ids(rows));
        out
    }

    /// Deletes messages of a mailbox, one after the other.
    pub fn delete_messages(&mut self, client: &Client, path: &str, uids: &Vec<u32>)
        requires
            old(self).wf(),
        ensures
            final(self).wf(),
            final(self)@ == without_messages(
                old(self)@,
                client@.username,
                client@.address,
                path@,
                uids@,
            ),
    {
        let ghost start = self@;
        let mut i: usize = 0;
        assert(uids@.take(0) =~= Seq::<u32>::empty());
        while i < uids.len()
            invariant
                i <= uids.len(),
                self.wf(),
                self@ == without_messages(
                    start,
                    client@.username,
                    client@.address,
                    path@,
                    uids@.take(i as int),
                ),
            decreases uids.len() - i,
        {
            proof {
                assert(uids@.take(i + 1).drop_last() =~= uids@.take(i as int));
                assert(uids@.take(i + 1).last() == uids@[i as int]);
            }
            self.delete_message(client, path, uids[i]);
            i += 1;
        }
        assert(uids@.take(uids.len() as int) =~= uids@);
    }

    /// Sets the sequence ids of messages of a mailbox, one after the other.
    /// Each change is a uid and its new sequence id.
    pub fn update_sequence_ids(
        &mut self,
        client: &Client,
        path: &str,
        changes: &Vec<(u32, u32)>,
        now: u64,
    )
        requires
            old(self).wf(),
        ensures
            final(self).wf(),
            final(self)@ == with_sequence_ids(
                old(self)@,
                client@.username,
                client@.address,
                path@,
                changes@,
                now,
            ),
    {
        let ghost start = self@;
        let mut i: usize = 0;
        assert(changes@.take(0) =~= Seq::<(u32, u32)>::empty());
        while i < changes.len()
            invariant
                i <= changes.len(),
                self.wf(),
                self@ == with_sequence_ids(
                    start,
                    client@.username,
                    client@.address,
                    path@,
                    changes@.take(i as int),
                    now,
                ),
            decreases changes.len() - i,
        {
            proof {
                assert(changes@.take(i + 1).drop_last() =~= changes@.take(i as int));
                assert(changes@.take(i + 1).last() == changes@[i as int]);
            }
            self.update_sequence_id(client, path, changes[i].0, changes[i].1, now);
            i += 1;
        }
        assert(changes@.take(changes.len() as int) =~= changes@);
    }

    /// Sets the flag strings of messages of a mailbox, one after the other.
    /// Each change is a uid and its new flag string.
    pub fn update_flag_strings(
        &mut self,
        client: &Client,
        path: &str,
        changes: &Vec<(u32, String)>,
        now: u64,
    )
        requires
            old(self).wf(),
        ensures
            final(self).wf(),
            final(self)@ == with_flag_changes(
                old(self)@,
                client@.username,
                client@.address,
                path@,
                flag_views(changes@),
                now,
            ),
    {
        let ghost start = self@;
        let ghost all = flag_views(changes@);
        let mut i: usize = 0;
        assert(all.take(0) =~= Seq::<(u32, Seq<char>)>::empty());
        while i < changes.len()
            invariant
                i <= changes.len(),
                self.wf(),
                all == flag_views(changes@),
                self@ == with_flag_changes(
                    start,
                    client@.username,
                    client@.address,
                    path@,
                    all.take(i as int),
                    now,
                ),
            decreases changes.len() - i,
        {
            proof {
                assert(all.take(i + 1).drop_last() =~= all.take(i as int));
                assert(all.take(i + 1).last() == (changes@[i as int].0, changes@[i as int].1@));
            }
            self.update_flags(client, path, changes[i].0, changes[i].1.as_str(), now);
            i += 1;
        }
        assert(all.take(changes.len() as int) =~= all);
    }

    /// Whether a message of a mailbox is stored.
    pub fn has_message(&self, client: &Client, path: &str, uid: u32) -> (res: bool)
        ensures
            res == any_where(
                self@.messages,
                is_row(client@.username, client@.address, path@, uid),
            ),
    {
        let path = String::from_str(path);
        self.row_position(&client.username, &client.address, &path, uid) < self.messages.len()
    }

    /// Stores mailboxes of a client, one after the other. Without the
    /// client's connection the write fails and nothing changes.
    pub fn put_mailboxes(&mut self, client: &Client, paths: &Vec<String>, now: u64) -> (res: Result<
        (),
        ApiError,
    >)
        requires
            old(self).wf(),
        ensures
            final(self).wf(),
            final(self)@ == with_mailboxes(
                old(self)@,
                client@.username,
                client@.address,
                string_views(paths@),
                now,
            ),
            res is Ok <==> any_where(
                old(self)@.connections,
                is_connection(client@.username, client@.address),
            ),
            res is Err ==> res->Err_0@ == missing_parent() && final(self)@ == old(self)@,
    {
        let ghost start = self@;
        let ghost all = string_views(paths@);
        if !self.has_connection(client) {
            proof {
                lemma_without_parent(start, client@.username, client@.address, all, now);
            }
            return Err(ApiError::new(ErrorKind::Storage, "No such connection or mailbox"));
        }
        let mut i: usize = 0;
        assert(all.take(0) =~= Seq::<Seq<char>>::empty());
        while i < paths.len()
            invariant
                i <= paths.len(),
                self.wf(),
                all == string_views(paths@),
                self@.connections == start.connections,
                self@ == with_mailboxes(
                    start,
                    client@.username,
                    client@.address,
                    all.take(i as int),
                    now,
                ),
                any_where(start.connections, is_connection(client@.username, client@.address)),
            decreases paths.len() - i,
        {
            proof {
                assert(all.take(i + 1).drop_last() =~= all.take(i as int));
                assert(all.take(i + 1).last() == paths@[i as int]@);
            }
            let put = self.put_mailbox(client, paths[i].as_str(), now);
            i += 1;
        }
        assert(all.take(paths.len() as int) =~= all);
        Ok(())
    }

    /// Deletes mailboxes of a client with their messages, one after the
    /// other.
    pub fn delete_mailboxes(&mut self, client: &Client, paths: &Vec<String>)
        requires
            old(self).wf(),
        ensures
            final(self).wf(),
            final(self)@ == without_mailboxes(
                old(self)@,
                client@.username,
                client@.address,
                string_views(paths@),
            ),
    {
        let ghost start = self@;
        let ghost all = string_views(paths@);
        let mut i: usize = 0;
        assert(all.take(0) =~= Seq::<Seq<char>>::empty());
        while i < paths.len()
            invariant
                i <= paths.len(),
                self.wf(),
                all == string_views(paths@),
                self@ == without_mailboxes(
                    start,
                    client@.username,
                    client@.address,
                    all.take(i as int),
                ),
            decreases paths.len() - i,
        {
            proof {
                assert(all.take(i + 1).drop_last() =~= all.take(i as int));
                assert(all.take(i + 1).last() == paths@[i as int]@);
            }
            self.delete_mailbox(client, paths[i].as_str());
            i += 1;
        }
        assert(all.take(paths.len() as int) =~= all);
    }

    /// The paths of the mailboxes of a client, in the order in which they
    /// were entered.
    pub fn list_mailboxes(&self, client: &Client) -> (res: Vec<String>)
        ensures
            string_views(res@) == mailbox_paths(self@, client@.username, client@.address),
    {
        let ghost wanted = of_connection(client@.username, client@.address);
        let ghost rows = self@.mailboxes;
        let ghost path_of = |m: MailboxView| m.path;
        let mut out: Vec<String> = Vec::new();
        let mut i: usize = 0;
        assert(rows.take(0) =~= Seq::<MailboxView>::empty());
        assert(string_views(out@) =~= kept(rows.take(0), wanted).map_values(path_of));
        while i < self.mailboxes.len()
            invariant
                i <= self.mailboxes.len(),
                rows == self@.mailboxes,
                rows.len() == self.mailboxes.len(),
                wanted == of_connection(client@.username, client@.address),
                path_of == |m: MailboxView| m.path,
                string_views(out@) == kept(rows.take(i as int), wanted).map_values(path_of),
            decreases self.mailboxes.len() - i,
        {
            proof {
                lemma_kept_step(rows, wanted, i as int);
            }
            if self.mailboxes[i].c_username == client.username && self.mailboxes[i].c_address
                == client.address {
                let ghost before = out@;
                out.push(self.mailboxes[i].path.clone());
                assert(string_views(out@) =~= string_views(before).push(rows[i as int].path));
                assert(kept(rows.take(i as int), wanted).push(rows[i as int]).map_values(path_of)
                    =~= kept(rows.take(i as int), wanted).map_values(path_of).push(
                    rows[i as int].path,
                ));
            }
            i += 1;
        }
        assert(rows.take(self.mailboxes.len() as int) =~= rows);
        out
    }
}

} // verus!
