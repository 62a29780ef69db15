//! The tables of the cache as mathematics: what a well-formed cache is, what
//! each operation makes of it, and the laws that follow.
//!
//! A connection is identified by user name and address, a mailbox by its
//! connection and its path, a message by its mailbox and its uid. Every
//! mailbox belongs to a stored connection and every message to a stored
//! mailbox; deleting a connection or a mailbox deletes what belongs to it.

use crate::error::{ApiErrorView, ErrorKind};
use crate::message::{ClientView, ConnectionView, MailboxView, MessageView, RowView};
use crate::order::ranked;
use crate::table::{
    all_differ, any_where, first_where, kept, lemma_any_where, lemma_first_where, lemma_kept,
    lemma_kept_differ,
};
use crate::text::has_infix;
use vstd::prelude::*;

verus! {

/// The mathematical content of the store: its three tables, each in the
/// order in which its rows were entered.
pub struct StoreView {
    pub connections: Seq<ConnectionView>,
    pub mailboxes: Seq<MailboxView>,
    pub messages: Seq<RowView>,
}

/// The condition "is the connection of this user at this address".
pub open spec fn is_connection(username: Seq<char>, address: Seq<char>) -> spec_fn(
    ConnectionView,
) -> bool {
    |c: ConnectionView| c.username == username && c.address == address
}

/// The condition "is a mailbox of this connection and, where a path is
/// given, the one at this path".
pub open spec fn mailbox_scope(
    username: Seq<char>,
    address: Seq<char>,
    path: Option<Seq<char>>,
) -> spec_fn(MailboxView) -> bool {
    |m: MailboxView|
        m.c_username == username && m.c_address == address && (path matches Some(p) ==> m.path
            == p)
}

/// The condition "is a mailbox of this connection".
pub open spec fn of_connection(username: Seq<char>, address: Seq<char>) -> spec_fn(
    MailboxView,
) -> bool {
    mailbox_scope(username, address, None)
}

/// The condition "is the mailbox at this path of this connection".
pub open spec fn is_mailbox(username: Seq<char>, address: Seq<char>, path: Seq<char>) -> spec_fn(
    MailboxView,
) -> bool {
    mailbox_scope(username, address, Some(path))
}

/// The condition "is a message of this connection and, where they are
/// given, of the mailbox at this path and with this uid".
pub open spec fn row_scope(
    username: Seq<char>,
    address: Seq<char>,
    path: Option<Seq<char>>,
    uid: Option<u32>,
) -> spec_fn(RowView) -> bool {
    |r: RowView|
        r.c_username == username && r.c_address == address && (path matches Some(p) ==> r.m_path
            == p) && (uid matches Some(n) ==> r.message.message_uid == n)
}

/// The condition "is a message of this connection".
pub open spec fn in_connection(username: Seq<char>, address: Seq<char>) -> spec_fn(RowView) -> bool {
    row_scope(username, address, None, None)
}

/// The condition "is a message of this mailbox".
pub open spec fn in_mailbox(username: Seq<char>, address: Seq<char>, path: Seq<char>) -> spec_fn(
    RowView,
) -> bool {
    row_scope(username, address, Some(path), None)
}

/// The condition "is the message with this uid in this mailbox".
pub open spec fn is_row(
    username: Seq<char>,
    address: Seq<char>,
    path: Seq<char>,
    uid: u32,
) -> spec_fn(RowView) -> bool {
    row_scope(username, address, Some(path), Some(uid))
}

/// The opposite of a condition.
pub open spec fn not_where<T>(wanted: spec_fn(T) -> bool) -> spec_fn(T) -> bool {
    |row: T| !wanted(row)
}

/// The relation "two connection rows have the same key".
pub open spec fn same_connection() -> spec_fn(ConnectionView, ConnectionView) -> bool {
    |x: ConnectionView, y: ConnectionView| x.username == y.username && x.address == y.address
}

/// The relation "two mailbox rows have the same key".
pub open spec fn same_mailbox() -> spec_fn(MailboxView, MailboxView) -> bool {
    |x: MailboxView, y: MailboxView|
        x.c_username == y.c_username && x.c_address == y.c_address && x.path == y.path
}

/// The relation "two message rows have the same key".
pub open spec fn same_row() -> spec_fn(RowView, RowView) -> bool {
    |x: RowView, y: RowView|
        x.c_username == y.c_username && x.c_address == y.c_address && x.m_path == y.m_path
            && x.message.message_uid == y.message.message_uid
}

/// Whether every mailbox belongs to a stored connection.
pub open spec fn mailboxes_have_connections(s: StoreView) -> bool {
    forall|i: int|
        0 <= i < s.mailboxes.len() ==> any_where(
            s.connections,
            is_connection((#[trigger] s.mailboxes[i]).c_username, s.mailboxes[i].c_address),
        )
}

/// Whether every message belongs to a stored mailbox.
pub open spec fn messages_have_mailboxes(s: StoreView) -> bool {
    forall|i: int|
        0 <= i < s.messages.len() ==> any_where(
            s.mailboxes,
            is_mailbox(
                (#[trigger] s.messages[i]).c_username,
                s.messages[i].c_address,
                s.messages[i].m_path,
            ),
        )
}

/// The invariant of the store: keys are unique in each table, every mailbox
/// belongs to a stored connection and every message to a stored mailbox.
pub open spec fn well_formed(s: StoreView) -> bool {
    &&& all_differ(s.connections, same_connection())
    &&& all_differ(s.mailboxes, same_mailbox())
    &&& all_differ(s.messages, same_row())
    &&& mailboxes_have_connections(s)
    &&& messages_have_mailboxes(s)
}

/// In a well-formed store the connection and the mailbox of every message
/// row are stored.
pub proof fn lemma_rows_have_parents(s: StoreView, at: int)
    requires
        well_formed(s),
        0 <= at < s.messages.len(),
    ensures
        any_where(s.connections, is_connection(s.messages[at].c_username, s.messages[at].c_address)),
        any_where(
            s.mailboxes,
            is_mailbox(s.messages[at].c_username, s.messages[at].c_address, s.messages[at].m_path),
        ),
{
    let row = s.messages[at];
    let wanted = is_mailbox(row.c_username, row.c_address, row.m_path);
    lemma_first_where(s.mailboxes, wanted, 0);
    let parent = s.mailboxes[first_where(s.mailboxes, wanted, 0)];
    assert(parent.c_username == row.c_username && parent.c_address == row.c_address);
}

/// The connection row that stands for a client at a given time.
pub open spec fn connection_row(client: ClientView, now: u64) -> ConnectionView {
    ConnectionView {
        username: client.username,
        password: client.password,
        address: client.address,
        port: client.port,
        updated_at: now,
    }
}

/// The store after a connection was put: its row replaced if the key is
/// stored already, entered at the end if not.
pub open spec fn with_connection(s: StoreView, client: ClientView, now: u64) -> StoreView {
    let at = first_where(s.connections, is_connection(client.username, client.address), 0);
    let row = connection_row(client, now);
    StoreView {
        connections: if at < s.connections.len() {
            s.connections.update(at, row)
        } else {
            s.connections.push(row)
        },
        ..s
    }
}

/// Putting a connection keeps the store well formed.
pub proof fn lemma_with_connection(s: StoreView, client: ClientView, now: u64)
    requires
        well_formed(s),
    ensures
        well_formed(with_connection(s, client, now)),
{
    let wanted = is_connection(client.username, client.address);
    let at = first_where(s.connections, wanted, 0);
    let t = with_connection(s, client, now);
    lemma_first_where(s.connections, wanted, 0);
    assert forall|i: int, j: int| 0 <= i < j < t.connections.len() implies !same_connection()(
        #[trigger] t.connections[i],
        #[trigger] t.connections[j],
    ) by {
        if at < s.connections.len() {
            assert(!same_connection()(s.connections[i], s.connections[j]));
        } else if j < s.connections.len() {
            assert(!same_connection()(s.connections[i], s.connections[j]));
        } else {
            assert(!wanted(s.connections[i]));
        }
    }
    assert forall|i: int| 0 <= i < t.mailboxes.len() implies any_where(
        t.connections,
        is_connection((#[trigger] t.mailboxes[i]).c_username, t.mailboxes[i].c_address),
    ) by {
        let parent = is_connection(s.mailboxes[i].c_username, s.mailboxes[i].c_address);
        lemma_first_where(s.connections, parent, 0);
        let w = first_where(s.connections, parent, 0);
        assert(parent(t.connections[w]));
        lemma_any_where(t.connections, parent, w);
    }
}

/// The error of a write that names a connection or a mailbox that is not
/// stored.
pub open spec fn missing_parent() -> ApiErrorView {
    ApiErrorView { kind: ErrorKind::Storage, message: "No such connection or mailbox"@ }
}

/// The store after a mailbox was put: entered at the end if its connection
/// is stored and the mailbox is not; unchanged otherwise.
pub open spec fn with_mailbox(
    s: StoreView,
    username: Seq<char>,
    address: Seq<char>,
    path: Seq<char>,
    now: u64,
) -> StoreView {
    if any_where(s.connections, is_connection(username, address)) && !any_where(
        s.mailboxes,
        is_mailbox(username, address, path),
    ) {
        StoreView {
            mailboxes: s.mailboxes.push(
                MailboxView { c_username: username, c_address: address, path, updated_at: now },
            ),
            ..s
        }
    } else {
        s
    }
}

/// Putting a mailbox keeps the store well formed.
pub proof fn lemma_with_mailbox(
    s: StoreView,
    username: Seq<char>,
    address: Seq<char>,
    path: Seq<char>,
    now: u64,
)
    requires
        well_formed(s),
    ensures
        well_formed(with_mailbox(s, username, address, path, now)),
{
    let t = with_mailbox(s, username, address, path, now);
    let wanted = is_mailbox(username, address, path);
    if t != s {
        lemma_first_where(s.mailboxes, wanted, 0);
        assert forall|i: int, j: int| 0 <= i < j < t.mailboxes.len() implies !same_mailbox()(
            #[trigger] t.mailboxes[i],
            #[trigger] t.mailboxes[j],
        ) by {
            if j < s.mailboxes.len() {
                assert(!same_mailbox()(s.mailboxes[i], s.mailboxes[j]));
            } else {
                assert(!wanted(s.mailboxes[i]));
            }
        }
        assert forall|i: int| 0 <= i < t.mailboxes.len() implies any_where(
            t.connections,
            is_connection((#[trigger] t.mailboxes[i]).c_username, t.mailboxes[i].c_address),
        ) by {
            if i < s.mailboxes.len() {
                assert(t.mailboxes[i] == s.mailboxes[i]);
            }
        }
        assert forall|i: int| 0 <= i < t.messages.len() implies any_where(
            t.mailboxes,
            is_mailbox(
                (#[trigger] t.messages[i]).c_username,
                t.messages[i].c_address,
                t.messages[i].m_path,
            ),
        ) by {
            let parent = is_mailbox(
                s.messages[i].c_username,
                s.messages[i].c_address,
                s.messages[i].m_path,
            );
            lemma_first_where(s.mailboxes, parent, 0);
            let w = first_where(s.mailboxes, parent, 0);
            assert(t.mailboxes[w] == s.mailboxes[w]);
            lemma_any_where(t.mailboxes, parent, w);
        }
    }
}

/// The store without a connection, its mailboxes and their messages.
pub open spec fn without_connection(s: StoreView, username: Seq<char>, address: Seq<char>) -> StoreView {
    StoreView {
        connections: kept(s.connections, not_where(is_connection(username, address))),
        mailboxes: kept(s.mailboxes, not_where(of_connection(username, address))),
        messages: kept(s.messages, not_where(in_connection(username, address))),
    }
}

/// The store without a mailbox and its messages.
pub open spec fn without_mailbox(
    s: StoreView,
    username: Seq<char>,
    address: Seq<char>,
    path: Seq<char>,
) -> StoreView {
    StoreView {
        connections: s.connections,
        mailboxes: kept(s.mailboxes, not_where(is_mailbox(username, address, path))),
        messages: kept(s.messages, not_where(in_mailbox(username, address, path))),
    }
}

/// The store without a message.
pub open spec fn without_message(
    s: StoreView,
    username: Seq<char>,
    address: Seq<char>,
    path: Seq<char>,
    uid: u32,
) -> StoreView {
    StoreView { messages: kept(s.messages, not_where(is_row(username, address, path, uid))), ..s }
}

/// Leaving out rows keeps the store well formed, where every mailbox that
/// stays has its connection stay and every message that stays has its
/// mailbox stay.
pub proof fn lemma_store_kept(
    s: StoreView,
    connections: spec_fn(ConnectionView) -> bool,
    mailboxes: spec_fn(MailboxView) -> bool,
    messages: spec_fn(RowView) -> bool,
)
    requires
        well_formed(s),
        forall|m: MailboxView, c: ConnectionView|
            mailboxes(m) && c.username == m.c_username && c.address == m.c_address
                ==> connections(c),
        forall|r: RowView, m: MailboxView|
            messages(r) && m.c_username == r.c_username && m.c_address == r.c_address && m.path
                == r.m_path ==> mailboxes(m),
    ensures
        well_formed(
            StoreView {
                connections: kept(s.connections, connections),
                mailboxes: kept(s.mailboxes, mailboxes),
                messages: kept(s.messages, messages),
            },
        ),
{
    let t = StoreView {
        connections: kept(s.connections, connections),
        mailboxes: kept(s.mailboxes, mailboxes),
        messages: kept(s.messages, messages),
    };
    lemma_kept_differ(s.connections, connections, same_connection());
    lemma_kept_differ(s.mailboxes, mailboxes, same_mailbox());
    lemma_kept_differ(s.messages, messages, same_row());
    lemma_kept(s.connections, connections);
    lemma_kept(s.mailboxes, mailboxes);
    lemma_kept(s.messages, messages);
    assert forall|i: int| 0 <= i < t.mailboxes.len() implies any_where(
        t.connections,
        is_connection((#[trigger] t.mailboxes[i]).c_username, t.mailboxes[i].c_address),
    ) by {
        let m = t.mailboxes[i];
        assert(s.mailboxes.contains(m));
        let k = choose|k: int| 0 <= k < s.mailboxes.len() && s.mailboxes[k] == m;
        let parent = is_connection(s.mailboxes[k].c_username, s.mailboxes[k].c_address);
        lemma_first_where(s.connections, parent, 0);
        let w = first_where(s.connections, parent, 0);
        assert(connections(s.connections[w]));
        assert(t.connections.contains(s.connections[w]));
        let j = choose|j: int| 0 <= j < t.connections.len() && t.connections[j] == s.connections[w];
        lemma_any_where(t.connections, parent, j);
    }
    assert forall|i: int| 0 <= i < t.messages.len() implies any_where(
        t.mailboxes,
        is_mailbox(
            (#[trigger] t.messages[i]).c_username,
            t.messages[i].c_address,
            t.messages[i].m_path,
        ),
    ) by {
        let r = t.messages[i];
        assert(s.messages.contains(r));
        let k = choose|k: int| 0 <= k < s.messages.len() && s.messages[k] == r;
        let parent = is_mailbox(
            s.messages[k].c_username,
            s.messages[k].c_address,
            s.messages[k].m_path,
        );
        lemma_first_where(s.mailboxes, parent, 0);
        let w = first_where(s.mailboxes, parent, 0);
        assert(mailboxes(s.mailboxes[w]));
        assert(t.mailboxes.contains(s.mailboxes[w]));
        let j = choose|j: int| 0 <= j < t.mailboxes.len() && t.mailboxes[j] == s.mailboxes[w];
        lemma_any_where(t.mailboxes, parent, j);
    }
}

/// Keeping every row of a table keeps the table.
pub proof fn lemma_kept_all<T>(rows: Seq<T>, wanted: spec_fn(T) -> bool)
    requires
        forall|i: int| 0 <= i < rows.len() ==> wanted(#[trigger] rows[i]),
    ensures
        kept(rows, wanted) == rows,
    decreases rows.len(),
{
    if rows.len() > 0 {
        let front = rows.drop_last();
        assert forall|i: int| 0 <= i < front.len() implies wanted(#[trigger] front[i]) by {
            assert(front[i] == rows[i]);
        }
        lemma_kept_all(front, wanted);
        assert(wanted(rows[rows.len() - 1]));
        assert(front.push(rows.last()) =~= rows);
    } else {
        assert(kept(rows, wanted) =~= rows);
    }
}

/// Deleting a connection with what belongs to it keeps the store well
/// formed.
pub proof fn lemma_without_connection(s: StoreView, username: Seq<char>, address: Seq<char>)
    requires
        well_formed(s),
    ensures
        well_formed(without_connection(s, username, address)),
{
    lemma_store_kept(
        s,
        not_where(is_connection(username, address)),
        not_where(of_connection(username, address)),
        not_where(in_connection(username, address)),
    );
}

/// Deleting a mailbox with its messages keeps the store well formed.
pub proof fn lemma_without_mailbox(
    s: StoreView,
    username: Seq<char>,
    address: Seq<char>,
    path: Seq<char>,
)
    requires
        well_formed(s),
    ensures
        well_formed(without_mailbox(s, username, address, path)),
{
    let every = |c: ConnectionView| true;
    lemma_store_kept(
        s,
        every,
        not_where(is_mailbox(username, address, path)),
        not_where(in_mailbox(username, address, path)),
    );
    lemma_kept_all(s.connections, every);
}

/// Deleting a message keeps the store well formed.
pub proof fn lemma_without_message(
    s: StoreView,
    username: Seq<char>,
    address: Seq<char>,
    path: Seq<char>,
    uid: u32,
)
    requires
        well_formed(s),
    ensures
        well_formed(without_message(s, username, address, path, uid)),
{
    let every = |c: ConnectionView| true;
    let each = |m: MailboxView| true;
    lemma_store_kept(s, every, each, not_where(is_row(username, address, path, uid)));
    lemma_kept_all(s.connections, every);
    lemma_kept_all(s.mailboxes, each);
}

/// The row under which a message of a mailbox is stored at a given time.
pub open spec fn stored_row(
    username: Seq<char>,
    address: Seq<char>,
    path: Seq<char>,
    message: MessageView,
    now: u64,
) -> RowView {
    RowView { c_username: username, c_address: address, m_path: path, message, updated_at: now }
}

/// The message table after a message of a mailbox was put: its row replaced
/// if the uid is stored already, entered at the end if not.
pub open spec fn with_message(
    rows: Seq<RowView>,
    username: Seq<char>,
    address: Seq<char>,
    path: Seq<char>,
    message: MessageView,
    now: u64,
) -> Seq<RowView> {
    let at = first_where(rows, is_row(username, address, path, message.message_uid), 0);
    let row = stored_row(username, address, path, message, now);
    if at < rows.len() {
        rows.update(at, row)
    } else {
        rows.push(row)
    }
}

/// The message table after messages of a mailbox were put, one after the
/// other.
pub open spec fn with_messages(
    rows: Seq<RowView>,
    username: Seq<char>,
    address: Seq<char>,
    path: Seq<char>,
    messages: Seq<MessageView>,
    now: u64,
) -> Seq<RowView>
    decreases messages.len(),
{
    if messages.len() == 0 {
        rows
    } else {
        with_message(
            with_messages(rows, username, address, path, messages.drop_last(), now),
            username,
            address,
            path,
            messages.last(),
            now,
        )
    }
}

/// The store after messages of a mailbox were put. Without the mailbox
/// nothing changes.
pub open spec fn with_rows(
    s: StoreView,
    username: Seq<char>,
    address: Seq<char>,
    path: Seq<char>,
    messages: Seq<MessageView>,
    now: u64,
) -> StoreView {
    if any_where(s.mailboxes, is_mailbox(username, address, path)) {
        StoreView { messages: with_messages(s.messages, username, address, path, messages, now), ..s }
    } else {
        s
    }
}

/// Putting a message of a stored mailbox keeps the store well formed.
pub proof fn lemma_with_message(
    s: StoreView,
    username: Seq<char>,
    address: Seq<char>,
    path: Seq<char>,
    message: MessageView,
    now: u64,
)
    requires
        well_formed(s),
        any_where(s.mailboxes, is_mailbox(username, address, path)),
    ensures
        well_formed(
            StoreView {
                messages: with_message(s.messages, username, address, path, message, now),
                ..s
            },
        ),
{
    let wanted = is_row(username, address, path, message.message_uid);
    let at = first_where(s.messages, wanted, 0);
    let rows = with_message(s.messages, username, address, path, message, now);
    lemma_first_where(s.messages, wanted, 0);
    assert forall|i: int, j: int| 0 <= i < j < rows.len() implies !same_row()(
        #[trigger] rows[i],
        #[trigger] rows[j],
    ) by {
        if at < s.messages.len() {
            assert(!same_row()(s.messages[i], s.messages[j]));
        } else if j < s.messages.len() {
            assert(!same_row()(s.messages[i], s.messages[j]));
        } else {
            assert(!wanted(s.messages[i]));
        }
    }
    assert forall|i: int| 0 <= i < rows.len() implies any_where(
        s.mailboxes,
        is_mailbox((#[trigger] rows[i]).c_username, rows[i].c_address, rows[i].m_path),
    ) by {
        if i < s.messages.len() && i != at {
            assert(rows[i] == s.messages[i]);
        }
    }
}

/// Putting messages of a mailbox keeps the store well formed.
pub proof fn lemma_with_rows(
    s: StoreView,
    username: Seq<char>,
    address: Seq<char>,
    path: Seq<char>,
    messages: Seq<MessageView>,
    now: u64,
)
    requires
        well_formed(s),
    ensures
        well_formed(with_rows(s, username, address, path, messages, now)),
    decreases messages.len(),
{
    if any_where(s.mailboxes, is_mailbox(username, address, path)) && messages.len() > 0 {
        lemma_with_rows(s, username, address, path, messages.drop_last(), now);
        lemma_with_message(
            with_rows(s, username, address, path, messages.drop_last(), now),
            username,
            address,
            path,
            messages.last(),
            now,
        );
    }
}

/// The store after the flags of a message were set. Without the message
/// nothing changes.
pub open spec fn with_flags(
    s: StoreView,
    username: Seq<char>,
    address: Seq<char>,
    path: Seq<char>,
    uid: u32,
    flags: Seq<char>,
    now: u64,
) -> StoreView {
    let at = first_where(s.messages, is_row(username, address, path, uid), 0);
    if at < s.messages.len() {
        let row = s.messages[at];
        StoreView {
            messages: s.messages.update(
                at,
                RowView { message: MessageView { flags, ..row.message }, updated_at: now, ..row },
            ),
            ..s
        }
    } else {
        s
    }
}

/// The flag string under which the cache holds a message of a mailbox, if
/// it holds the message.
pub open spec fn stored_flags(
    s: StoreView,
    username: Seq<char>,
    address: Seq<char>,
    path: Seq<char>,
    uid: u32,
) -> Option<Seq<char>> {
    let at = first_where(s.messages, is_row(username, address, path, uid), 0);
    if at < s.messages.len() {
        Some(s.messages[at].message.flags)
    } else {
        None
    }
}

/// After the flag string of a message was set, the cache holds the message
/// under this flag string, if it holds the message at all.
pub proof fn lemma_flags_stored(
    s: StoreView,
    username: Seq<char>,
    address: Seq<char>,
    path: Seq<char>,
    uid: u32,
    flags: Seq<char>,
    now: u64,
)
    ensures
        stored_flags(
            with_flags(s, username, address, path, uid, flags, now),
            username,
            address,
            path,
            uid,
        ) == if stored_flags(s, username, address, path, uid) is Some {
            Some(flags)
        } else {
            None
        },
{
    let t = with_flags(s, username, address, path, uid, flags, now);
    let wanted = is_row(username, address, path, uid);
    let at = first_where(s.messages, wanted, 0);
    lemma_first_where(s.messages, wanted, 0);
    if at < s.messages.len() {
        assert forall|i: int| 0 <= i < s.messages.len() implies wanted(#[trigger] s.messages[i])
            == wanted(t.messages[i]) by {}
        crate::table::lemma_first_where_alike(s.messages, t.messages, wanted, 0);
    }
}

/// The store after the sequence id of a message was set. Without the
/// message nothing changes.
pub open spec fn with_sequence_id(
    s: StoreView,
    username: Seq<char>,
    address: Seq<char>,
    path: Seq<char>,
    uid: u32,
    sequence_id: u32,
    now: u64,
) -> StoreView {
    let at = first_where(s.messages, is_row(username, address, path, uid), 0);
    if at < s.messages.len() {
        let row = s.messages[at];
        StoreView {
            messages: s.messages.update(
                at,
                RowView {
                    message: MessageView { sequence_id, ..row.message },
                    updated_at: now,
                    ..row
                },
            ),
            ..s
        }
    } else {
        s
    }
}

/// Replacing a message row by one with the same key keeps the store well
/// formed.
pub proof fn lemma_row_replaced(s: StoreView, at: int, row: RowView)
    requires
        well_formed(s),
        0 <= at < s.messages.len(),
        same_row()(s.messages[at], row),
    ensures
        well_formed(StoreView { messages: s.messages.update(at, row), ..s }),
{
    let rows = s.messages.update(at, row);
    assert forall|i: int, j: int| 0 <= i < j < rows.len() implies !same_row()(
        #[trigger] rows[i],
        #[trigger] rows[j],
    ) by {
        assert(!same_row()(s.messages[i], s.messages[j]));
    }
    assert forall|i: int| 0 <= i < rows.len() implies any_where(
        s.mailboxes,
        is_mailbox((#[trigger] rows[i]).c_username, rows[i].c_address, rows[i].m_path),
    ) by {
        assert(same_row()(s.messages[i], rows[i]) || rows[i] == s.messages[i]);
    }
}

/// The condition "is a message of this mailbox with one of these uids".
pub open spec fn with_uid_among(
    username: Seq<char>,
    address: Seq<char>,
    path: Seq<char>,
    uids: Seq<u32>,
) -> spec_fn(RowView) -> bool {
    |r: RowView| in_mailbox(username, address, path)(r) && uids.contains(r.message.message_uid)
}

/// The condition "is a message of this mailbox whose flag string holds
/// `flag`", or "does not hold `flag`" where `negate` is set.
pub open spec fn with_flag(
    username: Seq<char>,
    address: Seq<char>,
    path: Seq<char>,
    flag: Seq<char>,
    negate: bool,
) -> spec_fn(RowView) -> bool {
    |r: RowView|
        in_mailbox(username, address, path)(r) && (has_infix(r.message.flags, flag) != negate)
}

/// The messages of a list of rows.
pub open spec fn row_messages(rows: Seq<RowView>) -> Seq<MessageView> {
    rows.map_values(|r: RowView| r.message)
}

/// The rows of a mailbox.
pub open spec fn mailbox_rows(
    s: StoreView,
    username: Seq<char>,
    address: Seq<char>,
    path: Seq<char>,
) -> Seq<RowView> {
    kept(s.messages, in_mailbox(username, address, path))
}

/// The dates of a list of rows.
pub open spec fn row_dates(rows: Seq<RowView>) -> Seq<Seq<char>> {
    rows.map_values(|r: RowView| r.message.date_)
}

/// The messages with ranks `start` up to, not including, `end`, where the
/// rows are ranked by date, latest first, and rows with the same date stay
/// in their order. Ranks count from zero; ranks beyond the last row are
/// left out.
pub open spec fn sorted_window(rows: Seq<RowView>, start: int, end: int) -> Seq<MessageView> {
    let order = ranked(row_dates(rows), true);
    let lo = if start < rows.len() {
        start
    } else {
        rows.len() as int
    };
    let hi = if end < rows.len() {
        end
    } else {
        rows.len() as int
    };
    if 0 <= lo < hi {
        Seq::new((hi - lo) as nat, |i: int| rows[order[lo + i]].message)
    } else {
        Seq::empty()
    }
}

/// The uid and the flag string of each row.
pub open spec fn row_flags(rows: Seq<RowView>) -> Seq<(u32, Seq<char>)> {
    rows.map_values(|r: RowView| (r.message.message_uid, r.message.flags))
}

/// The uid and the sequence id of each row.
pub open spec fn row_sequence_ids(rows: Seq<RowView>) -> Seq<(u32, u32)> {
    rows.map_values(|r: RowView| (r.message.message_uid, r.message.sequence_id))
}

/// A window whose end is not after its start holds nothing.
pub proof fn lemma_empty_window(rows: Seq<RowView>, start: int, end: int)
    requires
        end <= start,
    ensures
        sorted_window(rows, start, end).len() == 0,
{
}

/// What was put last under a uid is what is stored under it: after
/// messages of a stored mailbox were put, the row of each uid among them
/// holds the message that was put last with this uid.
pub proof fn lemma_put_then_stored(
    rows: Seq<RowView>,
    username: Seq<char>,
    address: Seq<char>,
    path: Seq<char>,
    messages: Seq<MessageView>,
    now: u64,
    at: int,
)
    requires
        all_differ(rows, same_row()),
        0 <= at < messages.len(),
        forall|k: int| at < k < messages.len() ==> messages[k].message_uid != messages[at].message_uid,
    ensures
        ({
            let after = with_messages(rows, username, address, path, messages, now);
            let slot = first_where(
                after,
                is_row(username, address, path, messages[at].message_uid),
                0,
            );
            slot < after.len() && after[slot] == stored_row(
                username,
                address,
                path,
                messages[at],
                now,
            )
        }),
    decreases messages.len(),
{
    let uid = messages[at].message_uid;
    let wanted = is_row(username, address, path, uid);
    let front = messages.drop_last();
    let before = with_messages(rows, username, address, path, front, now);
    let last = messages.last();
    let after = with_messages(rows, username, address, path, messages, now);
    let put = is_row(username, address, path, last.message_uid);
    let place = first_where(before, put, 0);
    lemma_first_where(before, put, 0);
    lemma_first_where(after, wanted, 0);
    if at == messages.len() - 1 {
        if place < before.len() {
            lemma_any_where(after, wanted, place);
            lemma_with_messages_differ(rows, username, address, path, messages, now);
        } else {
            lemma_any_where(after, wanted, before.len() as int);
            assert forall|k: int| 0 <= k < before.len() implies !wanted(#[trigger] after[k]) by {
                assert(after[k] == before[k]);
            }
        }
    } else {
        assert(front[at] == messages[at]);
        assert forall|k: int| at < k < front.len() implies front[k].message_uid
            != front[at].message_uid by {
            assert(front[k] == messages[k]);
        }
        lemma_put_then_stored(rows, username, address, path, front, now, at);
        let slot = first_where(before, wanted, 0);
        lemma_first_where(before, wanted, 0);
        assert(last.message_uid != uid);
        assert(slot != place);
        assert(after[slot] == before[slot]);
        lemma_any_where(after, wanted, slot);
        assert forall|k: int| 0 <= k < slot implies !wanted(#[trigger] after[k]) by {
            if k != place {
                assert(after[k] == before[k]);
            }
        }
    }
}

/// Reading back what was put: after messages of a stored mailbox were put,
/// a read of the mailbox by uids that names the uid of one of them returns
/// the message that was put last with this uid, and no other message with
/// this uid.
pub proof fn lemma_put_then_read(
    s: StoreView,
    username: Seq<char>,
    address: Seq<char>,
    path: Seq<char>,
    messages: Seq<MessageView>,
    uids: Seq<u32>,
    now: u64,
    at: int,
)
    requires
        well_formed(s),
        any_where(s.mailboxes, is_mailbox(username, address, path)),
        0 <= at < messages.len(),
        forall|k: int| at < k < messages.len() ==> messages[k].message_uid != messages[at].message_uid,
        uids.contains(messages[at].message_uid),
    ensures
        ({
            let after = with_rows(s, username, address, path, messages, now);
            let read = row_messages(
                kept(after.messages, with_uid_among(username, address, path, uids)),
            );
            &&& read.contains(messages[at])
            &&& forall|k: int|
                0 <= k < read.len() && (#[trigger] read[k]).message_uid == messages[at].message_uid
                    ==> read[k] == messages[at]
        }),
{
    let after = with_rows(s, username, address, path, messages, now);
    let rows = after.messages;
    let wanted = with_uid_among(username, address, path, uids);
    let some = kept(rows, wanted);
    let read = row_messages(some);
    let key = is_row(username, address, path, messages[at].message_uid);
    lemma_put_then_stored(s.messages, username, address, path, messages, now, at);
    lemma_with_messages_differ(s.messages, username, address, path, messages, now);
    lemma_kept(rows, wanted);
    let slot = first_where(rows, key, 0);
    lemma_first_where(rows, key, 0);
    assert(rows == with_messages(s.messages, username, address, path, messages, now));
    assert(slot < rows.len());
    assert(rows[slot] == stored_row(username, address, path, messages[at], now));
    assert(wanted(rows[slot]));
    assert(some.contains(rows[slot]));
    let j = choose|j: int| 0 <= j < some.len() && some[j] == rows[slot];
    assert(read[j] == messages[at]);
    assert forall|k: int|
        0 <= k < read.len() && (#[trigger] read[k]).message_uid
            == messages[at].message_uid implies read[k] == messages[at] by {
        assert(read[k] == some[k].message);
        assert(rows.contains(some[k]));
        let i = choose|i: int| 0 <= i < rows.len() && rows[i] == some[k];
        assert(key(rows[i]));
        if i != slot {
            let lo = if i < slot {
                i
            } else {
                slot
            };
            let hi = if i < slot {
                slot
            } else {
                i
            };
            assert(same_row()(rows[lo], rows[hi]));
        }
    }
}

/// The last position before `upto` at which a message with the uid stands,
/// or -1 if there is none.
pub open spec fn last_with_uid(messages: Seq<MessageView>, uid: u32, upto: int) -> int
    decreases upto,
{
    if upto <= 0 {
        -1
    } else if messages[upto - 1].message_uid == uid {
        upto - 1
    } else {
        last_with_uid(messages, uid, upto - 1)
    }
}

proof fn lemma_last_with_uid(messages: Seq<MessageView>, uid: u32, upto: int)
    requires
        0 <= upto <= messages.len(),
    ensures
        -1 <= last_with_uid(messages, uid, upto) < upto,
        last_with_uid(messages, uid, upto) >= 0 ==> messages[last_with_uid(
            messages,
            uid,
            upto,
        )].message_uid == uid,
        forall|k: int|
            last_with_uid(messages, uid, upto) < k < upto ==> (#[trigger] messages[k]).message_uid
                != uid,
    decreases upto,
{
    if upto > 0 && messages[upto - 1].message_uid != uid {
        lemma_last_with_uid(messages, uid, upto - 1);
    }
}

/// What putting messages leaves alone: no row changes its place or its key,
/// a row whose uid is not among the messages stays as it is, and the table
/// does not grow where every message was stored already.
pub proof fn lemma_with_messages_frame(
    rows: Seq<RowView>,
    username: Seq<char>,
    address: Seq<char>,
    path: Seq<char>,
    messages: Seq<MessageView>,
    now: u64,
)
    ensures
        with_messages(rows, username, address, path, messages, now).len() >= rows.len(),
        forall|i: int|
            0 <= i < rows.len() ==> same_row()(
                #[trigger] with_messages(rows, username, address, path, messages, now)[i],
                rows[i],
            ),
        forall|i: int|
            0 <= i < rows.len() && (forall|k: int|
                0 <= k < messages.len() ==> !is_row(
                    username,
                    address,
                    path,
                    (#[trigger] messages[k]).message_uid,
                )(rows[i])) ==> #[trigger] with_messages(
                rows,
                username,
                address,
                path,
                messages,
                now,
            )[i] == rows[i],
        (forall|k: int|
            0 <= k < messages.len() ==> any_where(
                rows,
                is_row(username, address, path, (#[trigger] messages[k]).message_uid),
            )) ==> with_messages(rows, username, address, path, messages, now).len()
            == rows.len(),
    decreases messages.len(),
{
    if messages.len() > 0 {
        let front = messages.drop_last();
        let last = messages.last();
        let before = with_messages(rows, username, address, path, front, now);
        let after = with_messages(rows, username, address, path, messages, now);
        let put = is_row(username, address, path, last.message_uid);
        lemma_with_messages_frame(rows, username, address, path, front, now);
        lemma_first_where(before, put, 0);
        let at = first_where(before, put, 0);
        assert forall|i: int| 0 <= i < rows.len() implies same_row()(#[trigger] after[i], rows[i]) by {
            assert(same_row()(before[i], rows[i]));
        }
        assert forall|i: int|
            0 <= i < rows.len() && (forall|k: int|
                0 <= k < messages.len() ==> !is_row(
                    username,
                    address,
                    path,
                    (#[trigger] messages[k]).message_uid,
                )(rows[i])) implies #[trigger] after[i] == rows[i] by {
            assert forall|k: int| 0 <= k < front.len() implies !is_row(
                username,
                address,
                path,
                (#[trigger] front[k]).message_uid,
            )(rows[i]) by {
                assert(front[k] == messages[k]);
            }
            assert(before[i] == rows[i]);
            assert(!is_row(username, address, path, messages[messages.len() - 1].message_uid)(
                rows[i],
            ));
        }
        if forall|k: int|
            0 <= k < messages.len() ==> any_where(
                rows,
                is_row(username, address, path, (#[trigger] messages[k]).message_uid),
            ) {
            assert forall|k: int| 0 <= k < front.len() implies any_where(
                rows,
                is_row(username, address, path, (#[trigger] front[k]).message_uid),
            ) by {
                assert(front[k] == messages[k]);
            }
            assert(any_where(
                rows,
                is_row(username, address, path, messages[messages.len() - 1].message_uid),
            ));
            lemma_first_where(rows, put, 0);
            let found = first_where(rows, put, 0);
            assert(same_row()(before[found], rows[found]));
            lemma_any_where(before, put, found);
        }
    }
}

/// After messages were put, each of them is stored.
pub proof fn lemma_with_messages_present(
    rows: Seq<RowView>,
    username: Seq<char>,
    address: Seq<char>,
    path: Seq<char>,
    messages: Seq<MessageView>,
    now: u64,
    at: int,
)
    requires
        0 <= at < messages.len(),
    ensures
        any_where(
            with_messages(rows, username, address, path, messages, now),
            is_row(username, address, path, messages[at].message_uid),
        ),
    decreases messages.len(),
{
    let front = messages.drop_last();
    let last = messages.last();
    let before = with_messages(rows, username, address, path, front, now);
    let after = with_messages(rows, username, address, path, messages, now);
    let put = is_row(username, address, path, last.message_uid);
    let wanted = is_row(username, address, path, messages[at].message_uid);
    lemma_first_where(before, put, 0);
    let place = first_where(before, put, 0);
    if at == messages.len() - 1 {
        lemma_any_where(after, wanted, place);
    } else {
        assert(front[at] == messages[at]);
        lemma_with_messages_present(rows, username, address, path, front, now, at);
        lemma_first_where(before, wanted, 0);
        let slot = first_where(before, wanted, 0);
        assert(wanted(after[slot]));
        lemma_any_where(after, wanted, slot);
    }
}

/// Putting the same messages a second time changes nothing.
pub proof fn lemma_put_twice(
    s: StoreView,
    username: Seq<char>,
    address: Seq<char>,
    path: Seq<char>,
    messages: Seq<MessageView>,
    now: u64,
)
    requires
        all_differ(s.messages, same_row()),
    ensures
        with_rows(
            with_rows(s, username, address, path, messages, now),
            username,
            address,
            path,
            messages,
            now,
        ) == with_rows(s, username, address, path, messages, now),
{
    if any_where(s.mailboxes, is_mailbox(username, address, path)) {
        let once = with_messages(s.messages, username, address, path, messages, now);
        let twice = with_messages(once, username, address, path, messages, now);
        lemma_with_messages_differ(s.messages, username, address, path, messages, now);
        lemma_with_messages_differ(once, username, address, path, messages, now);
        lemma_with_messages_frame(once, username, address, path, messages, now);
        assert forall|k: int| 0 <= k < messages.len() implies any_where(
            once,
            is_row(username, address, path, (#[trigger] messages[k]).message_uid),
        ) by {
            lemma_with_messages_present(s.messages, username, address, path, messages, now, k);
        }
        assert(twice.len() == once.len());
        assert forall|i: int| 0 <= i < once.len() implies twice[i] == once[i] by {
            let row = once[i];
            if exists|k: int|
                0 <= k < messages.len() && is_row(
                    username,
                    address,
                    path,
                    (#[trigger] messages[k]).message_uid,
                )(row) {
                let k = choose|k: int|
                    0 <= k < messages.len() && is_row(
                        username,
                        address,
                        path,
                        (#[trigger] messages[k]).message_uid,
                    )(row);
                let uid = messages[k].message_uid;
                let wanted = is_row(username, address, path, uid);
                lemma_last_with_uid(messages, uid, messages.len() as int);
                let at = last_with_uid(messages, uid, messages.len() as int);
                assert(at >= k);
                lemma_put_then_stored(s.messages, username, address, path, messages, now, at);
                lemma_put_then_stored(once, username, address, path, messages, now, at);
                lemma_first_where(once, wanted, 0);
                lemma_first_where(twice, wanted, 0);
                assert(same_row()(twice[i], once[i]));
                let first = first_where(once, wanted, 0);
                let second = first_where(twice, wanted, 0);
                if first != i {
                    let lo = if first < i {
                        first
                    } else {
                        i
                    };
                    let hi = if first < i {
                        i
                    } else {
                        first
                    };
                    assert(same_row()(once[lo], once[hi]));
                }
                if second != i {
                    let lo = if second < i {
                        second
                    } else {
                        i
                    };
                    let hi = if second < i {
                        i
                    } else {
                        second
                    };
                    assert(same_row()(twice[lo], twice[hi]));
                }
            } else {
                assert forall|k: int| 0 <= k < messages.len() implies !is_row(
                    username,
                    address,
                    path,
                    (#[trigger] messages[k]).message_uid,
                )(once[i]) by {}
            }
        }
        assert(twice =~= once);
    }
}

/// Putting messages leaves a table in which no two rows have the same key.
pub proof fn lemma_with_messages_differ(
    rows: Seq<RowView>,
    username: Seq<char>,
    address: Seq<char>,
    path: Seq<char>,
    messages: Seq<MessageView>,
    now: u64,
)
    requires
        all_differ(rows, same_row()),
    ensures
        all_differ(with_messages(rows, username, address, path, messages, now), same_row()),
    decreases messages.len(),
{
    if messages.len() > 0 {
        lemma_with_messages_differ(rows, username, address, path, messages.drop_last(), now);
        let before = with_messages(rows, username, address, path, messages.drop_last(), now);
        let wanted = is_row(username, address, path, messages.last().message_uid);
        let at = first_where(before, wanted, 0);
        let after = with_messages(rows, username, address, path, messages, now);
        lemma_first_where(before, wanted, 0);
        assert forall|i: int, j: int| 0 <= i < j < after.len() implies !same_row()(
            #[trigger] after[i],
            #[trigger] after[j],
        ) by {
            if at < before.len() {
                assert(!same_row()(before[i], before[j]));
            } else if j < before.len() {
                assert(!same_row()(before[i], before[j]));
            } else {
                assert(!wanted(before[i]));
            }
        }
    }
}

/// The store after messages of a mailbox were deleted, one after the other.
pub open spec fn without_messages(
    s: StoreView,
    username: Seq<char>,
    address: Seq<char>,
    path: Seq<char>,
    uids: Seq<u32>,
) -> StoreView
    decreases uids.len(),
{
    if uids.len() == 0 {
        s
    } else {
        without_message(
            without_messages(s, username, address, path, uids.drop_last()),
            username,
            address,
            path,
            uids.last(),
        )
    }
}

/// The store after the sequence ids of messages of a mailbox were set, one
/// after the other. Each change is a uid and its new sequence id.
pub open spec fn with_sequence_ids(
    s: StoreView,
    username: Seq<char>,
    address: Seq<char>,
    path: Seq<char>,
    changes: Seq<(u32, u32)>,
    now: u64,
) -> StoreView
    decreases changes.len(),
{
    if changes.len() == 0 {
        s
    } else {
        with_sequence_id(
            with_sequence_ids(s, username, address, path, changes.drop_last(), now),
            username,
            address,
            path,
            changes.last().0,
            changes.last().1,
            now,
        )
    }
}

/// The store after the flag strings of messages of a mailbox were set, one
/// after the other. Each change is a uid and its new flag string.
pub open spec fn with_flag_changes(
    s: StoreView,
    username: Seq<char>,
    address: Seq<char>,
    path: Seq<char>,
    changes: Seq<(u32, Seq<char>)>,
    now: u64,
) -> StoreView
    decreases changes.len(),
{
    if changes.len() == 0 {
        s
    } else {
        with_flags(
            with_flag_changes(s, username, address, path, changes.drop_last(), now),
            username,
            address,
            path,
            changes.last().0,
            changes.last().1,
            now,
        )
    }
}

/// The store after mailboxes of a connection were put, one after the other.
pub open spec fn with_mailboxes(
    s: StoreView,
    username: Seq<char>,
    address: Seq<char>,
    paths: Seq<Seq<char>>,
    now: u64,
) -> StoreView
    decreases paths.len(),
{
    if paths.len() == 0 {
        s
    } else {
        with_mailbox(
            with_mailboxes(s, username, address, paths.drop_last(), now),
            username,
            address,
            paths.last(),
            now,
        )
    }
}

/// The store after mailboxes of a connection were deleted with their
/// messages, one after the other.
pub open spec fn without_mailboxes(
    s: StoreView,
    username: Seq<char>,
    address: Seq<char>,
    paths: Seq<Seq<char>>,
) -> StoreView
    decreases paths.len(),
{
    if paths.len() == 0 {
        s
    } else {
        without_mailbox(
            without_mailboxes(s, username, address, paths.drop_last()),
            username,
            address,
            paths.last(),
        )
    }
}

/// The paths of the mailboxes of a connection, in the order in which they
/// were entered.
pub open spec fn mailbox_paths(s: StoreView, username: Seq<char>, address: Seq<char>) -> Seq<
    Seq<char>,
> {
    kept(s.mailboxes, of_connection(username, address)).map_values(|m: MailboxView| m.path)
}

/// Without the connection, putting mailboxes changes nothing.
pub proof fn lemma_without_parent(
    s: StoreView,
    username: Seq<char>,
    address: Seq<char>,
    paths: Seq<Seq<char>>,
    now: u64,
)
    requires
        !any_where(s.connections, is_connection(username, address)),
    ensures
        with_mailboxes(s, username, address, paths, now) == s,
    decreases paths.len(),
{
    if paths.len() > 0 {
        lemma_without_parent(s, username, address, paths.drop_last(), now);
    }
}

} // verus!
