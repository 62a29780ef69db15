//! The operations that a request layer calls. Each one checks the session
//! id and its other arguments, then reads the cache, changes it, or says
//! what is to be asked of the server.

use crate::envelope::Fetch;
use crate::error::{ApiError, ApiErrorView, ErrorKind};
use crate::flags::{flags_text, flags_to_string, query, query_text, Flag};
use crate::message::{message_views, Client, ClientView, Message, MessageView};
use crate::registry::{session_client, Login, Registry, SlotView};
use crate::schema::{
    lemma_flags_stored, stored_flags,
    is_mailbox, is_row, mailbox_paths, mailbox_rows, missing_parent, row_messages,
    sorted_window, with_connection, with_flag, with_flags, with_mailboxes, with_uid_among,
    without_mailboxes, without_message, StoreView,
};
use crate::store::{string_views, CacheStore};
use crate::table::{any_where, kept, lemma_kept_step};
use crate::update::{initial_update, ActionView, SyncAction, Update};
use vstd::prelude::*;
use vstd::string::StringExecFns;

verus! {

/// The error for an empty mailbox path.
pub open spec fn empty_path() -> ApiErrorView {
    ApiErrorView { kind: ErrorKind::InvalidArgument, message: "Provide a mailbox path"@ }
}

/// The error for a mailbox that the cache does not hold.
pub open spec fn no_mailbox() -> ApiErrorView {
    ApiErrorView { kind: ErrorKind::NotFound, message: "Mailbox not found"@ }
}

/// The error for a uid that the cache does not hold.
pub open spec fn no_message() -> ApiErrorView {
    ApiErrorView { kind: ErrorKind::NotFound, message: "Message not found"@ }
}

/// The error for a `STORE` that the server answered with nothing.
pub open spec fn no_answer() -> ApiErrorView {
    ApiErrorView {
        kind: ErrorKind::Protocol,
        message: "Error retrieving message while updating flags"@,
    }
}

/// The client of a session for an operation on a mailbox: the session id
/// must name a live session and the path must not be empty.
pub open spec fn session_mailbox(slots: Seq<SlotView>, session_id: usize, path: Seq<char>) -> Result<
    ClientView,
    ApiErrorView,
> {
    match session_client(slots, session_id) {
        Err(error) => Err(error),
        Ok(client) => if path.len() == 0 {
            Err(empty_path())
        } else {
            Ok(client)
        },
    }
}

/// The client of a session for a read of a mailbox: as `session_mailbox`,
/// and the cache must hold the mailbox.
pub open spec fn cached_mailbox(
    slots: Seq<SlotView>,
    s: StoreView,
    session_id: usize,
    path: Seq<char>,
) -> Result<ClientView, ApiErrorView> {
    match session_mailbox(slots, session_id, path) {
        Err(error) => Err(error),
        Ok(client) => if any_where(s.mailboxes, is_mailbox(client.username, client.address, path)) {
            Ok(client)
        } else {
            Err(no_mailbox())
        },
    }
}

/// The view of a result that holds a client.
pub open spec fn client_result(res: Result<Client, ApiError>) -> Result<ClientView, ApiErrorView> {
    match res {
        Ok(client) => Ok(client@),
        Err(error) => Err(error@),
    }
}

/// The view of a result that holds messages.
pub open spec fn messages_result(res: Result<Vec<Message>, ApiError>) -> Result<
    Seq<MessageView>,
    ApiErrorView,
> {
    match res {
        Ok(messages) => Ok(message_views(messages@)),
        Err(error) => Err(error@),
    }
}

/// The view of a result that holds texts.
pub open spec fn strings_result(res: Result<Vec<String>, ApiError>) -> Result<
    Seq<Seq<char>>,
    ApiErrorView,
> {
    match res {
        Ok(texts) => Ok(string_views(texts@)),
        Err(error) => Err(error@),
    }
}

/// The view of a result that holds a text.
pub open spec fn string_result(res: Result<String, ApiError>) -> Result<Seq<char>, ApiErrorView> {
    match res {
        Ok(text) => Ok(text@),
        Err(error) => Err(error@),
    }
}

fn check_session(registry: &Registry, session_id: usize, path: &str) -> (res: Result<
    Client,
    ApiError,
>)
    ensures
        client_result(res) == session_mailbox(registry@, session_id, path@),
{
    match registry.client(session_id) {
        Err(error) => Err(error),
        Ok(client) => {
            if path.unicode_len() == 0 {
                Err(ApiError::new(ErrorKind::InvalidArgument, "Provide a mailbox path"))
            } else {
                Ok(client)
            }
        },
    }
}

fn check_mailbox(registry: &Registry, store: &CacheStore, session_id: usize, path: &str) -> (res:
    Result<Client, ApiError>)
    ensures
        client_result(res) == cached_mailbox(registry@, store@, session_id, path@),
{
    match check_session(registry, session_id, path) {
        Err(error) => Err(error),
        Ok(client) => {
            if store.has_mailbox(&client, path) {
                Ok(client)
            } else {
                Err(ApiError::new(ErrorKind::NotFound, "Mailbox not found"))
            }
        },
    }
}

/// Whether the cache holds each of the uids in a mailbox.
pub open spec fn all_stored(
    s: StoreView,
    username: Seq<char>,
    address: Seq<char>,
    path: Seq<char>,
    uids: Seq<u32>,
) -> bool {
    forall|i: int|
        0 <= i < uids.len() ==> any_where(
            s.messages,
            is_row(username, address, path, #[trigger] uids[i]),
        )
}

/// What `fetch_by_uids` returns.
pub open spec fn by_uids(
    slots: Seq<SlotView>,
    s: StoreView,
    session_id: usize,
    path: Seq<char>,
    uids: Seq<u32>,
) -> Result<Seq<MessageView>, ApiErrorView> {
    match cached_mailbox(slots, s, session_id, path) {
        Err(error) => Err(error),
        Ok(client) => if all_stored(s, client.username, client.address, path, uids) {
            Ok(
                row_messages(
                    kept(s.messages, with_uid_among(client.username, client.address, path, uids)),
                ),
            )
        } else {
            Err(no_message())
        },
    }
}

/// The cached messages of a mailbox with the given uids, in the order of
/// the cache. A uid that the cache does not hold is an error.
pub fn fetch_by_uids(
    registry: &Registry,
    store: &CacheStore,
    session_id: usize,
    path: &str,
    uids: &Vec<u32>,
) -> (res: Result<Vec<Message>, ApiError>)
    ensures
        messages_result(res) == by_uids(registry@, store@, session_id, path@, uids@),
{
    let client = match check_mailbox(registry, store, session_id, path) {
        Err(error) => {
            return Err(error);
        },
        Ok(client) => client,
    };
    let mut i: usize = 0;
    while i < uids.len()
        invariant
            i <= uids.len(),
            cached_mailbox(registry@, store@, session_id, path@) == Ok::<ClientView, ApiErrorView>(
                client@,
            ),
            forall|k: int|
                0 <= k < i ==> any_where(
                    store@.messages,
                    is_row(client@.username, client@.address, path@, #[trigger] uids@[k]),
                ),
        decreases uids.len() - i,
    {
        if !store.has_message(&client, path, uids[i]) {
            proof {
                if all_stored(store@, client@.username, client@.address, path@, uids@) {
                    assert(any_where(
                        store@.messages,
                        is_row(client@.username, client@.address, path@, uids@[i as int]),
                    ));
                }
            }
            return Err(ApiError::new(ErrorKind::NotFound, "Message not found"));
        }
        i += 1;
    }
    Ok(store.messages_by_uids(&client, path, uids))
}

/// What `fetch_sorted` returns.
pub open spec fn sorted(
    slots: Seq<SlotView>,
    s: StoreView,
    session_id: usize,
    path: Seq<char>,
    start: u32,
    end: u32,
) -> Result<Seq<MessageView>, ApiErrorView> {
    match cached_mailbox(slots, s, session_id, path) {
        Err(error) => Err(error),
        Ok(client) => Ok(
            sorted_window(
                mailbox_rows(s, client.username, client.address, path),
                start as int,
                end as int,
            ),
        ),
    }
}

/// The cached messages of a mailbox with ranks `start` up to, not
/// including, `end`, ranked by date, latest first.
pub fn fetch_sorted(
    registry: &Registry,
    store: &CacheStore,
    session_id: usize,
    path: &str,
    start: u32,
    end: u32,
) -> (res: Result<Vec<Message>, ApiError>)
    ensures
        messages_result(res) == sorted(registry@, store@, session_id, path@, start, end),
        res is Ok && end <= start ==> res->Ok_0.len() == 0,
{
    match check_mailbox(registry, store, session_id, path) {
        Err(error) => Err(error),
        Ok(client) => Ok(store.messages_sorted(&client, path, start, end)),
    }
}

/// What `fetch_by_flag` returns.
pub open spec fn by_flag(
    slots: Seq<SlotView>,
    s: StoreView,
    session_id: usize,
    path: Seq<char>,
    flag: Seq<char>,
    negate: bool,
) -> Result<Seq<MessageView>, ApiErrorView> {
    match cached_mailbox(slots, s, session_id, path) {
        Err(error) => Err(error),
        Ok(client) => Ok(
            row_messages(
                kept(s.messages, with_flag(client.username, client.address, path, flag, negate)),
            ),
        ),
    }
}

/// The cached messages of a mailbox whose flag string holds `flag` or,
/// where `negate` is set, does not hold it.
pub fn fetch_by_flag(
    registry: &Registry,
    store: &CacheStore,
    session_id: usize,
    path: &str,
    flag: &str,
    negate: bool,
) -> (res: Result<Vec<Message>, ApiError>)
    ensures
        messages_result(res) == by_flag(registry@, store@, session_id, path@, flag@, negate),
{
    match check_mailbox(registry, store, session_id, path) {
        Err(error) => Err(error),
        Ok(client) => Ok(store.messages_by_flag(&client, path, flag, negate)),
    }
}

/// Registers a client whose server was dialled with success, stores its
/// connection and returns its session id.
pub fn login_done(registry: &mut Registry, store: &mut CacheStore, client: &Client, now: u64) -> (res:
    usize)
    requires
        old(registry).wf(),
        old(store).wf(),
    ensures
        final(registry).wf(),
        final(store).wf(),
        final(registry)@ == crate::registry::with_session(old(registry)@, client@),
        final(store)@ == with_connection(old(store)@, client@, now),
        crate::registry::login_step(final(registry)@, client@.username, client@.address)
            == Login::Existing(res),
{
    store.put_connection(client, now);
    registry.connected(client)
}

/// What an operation on the mailboxes of a session does first.
#[derive(Clone, Debug, PartialEq, Eq)]
pub enum MailboxesStep {
    /// The cache holds mailboxes of the client: these are the answer.
    Cached(Vec<String>),
    /// The cache holds none: the server is to be asked for the list.
    List(Client),
}

/// The mathematical content of a `MailboxesStep`.
pub enum MailboxesStepView {
    Cached(Seq<Seq<char>>),
    List(ClientView),
}

impl View for MailboxesStep {
    type V = MailboxesStepView;

    open spec fn view(&self) -> MailboxesStepView {
        match self {
            MailboxesStep::Cached(paths) => MailboxesStepView::Cached(string_views(paths@)),
            MailboxesStep::List(client) => MailboxesStepView::List(client@),
        }
    }
}

/// What `get_mailboxes` returns.
pub open spec fn mailboxes_step(slots: Seq<SlotView>, s: StoreView, session_id: usize) -> Result<
    MailboxesStepView,
    ApiErrorView,
> {
    match session_client(slots, session_id) {
        Err(error) => Err(error),
        Ok(client) => {
            let paths = mailbox_paths(s, client.username, client.address);
            if paths.len() > 0 {
                Ok(MailboxesStepView::Cached(paths))
            } else {
                Ok(MailboxesStepView::List(client))
            }
        },
    }
}

/// The mailboxes of a session: those of the cache, or the demand to ask the
/// server where the cache holds none.
pub fn get_mailboxes(registry: &Registry, store: &CacheStore, session_id: usize) -> (res: Result<
    MailboxesStep,
    ApiError,
>)
    ensures
        match res {
            Ok(step) => mailboxes_step(registry@, store@, session_id) == Ok::<
                MailboxesStepView,
                ApiErrorView,
            >(step@),
            Err(error) => mailboxes_step(registry@, store@, session_id) == Err::<
                MailboxesStepView,
                ApiErrorView,
            >(error@),
        },
{
    match registry.client(session_id) {
        Err(error) => Err(error),
        Ok(client) => {
            let paths = store.list_mailboxes(&client);
            if paths.len() > 0 {
                Ok(MailboxesStep::Cached(paths))
            } else {
                Ok(MailboxesStep::List(client))
            }
        },
    }
}

/// Stores the mailboxes that the server listed for a client whose cache
/// held none, and returns the mailboxes of the cache.
pub fn mailboxes_listed(store: &mut CacheStore, client: &Client, listed: &Vec<String>, now: u64) -> (res:
    Result<Vec<String>, ApiError>)
    requires
        old(store).wf(),
    ensures
        final(store).wf(),
        final(store)@ == with_mailboxes(
            old(store)@,
            client@.username,
            client@.address,
            string_views(listed@),
            now,
        ),
        strings_result(res) == if any_where(
            old(store)@.connections,
            crate::schema::is_connection(client@.username, client@.address),
        ) {
            Ok::<Seq<Seq<char>>, ApiErrorView>(
                mailbox_paths(final(store)@, client@.username, client@.address),
            )
        } else {
            Err::<Seq<Seq<char>>, ApiErrorView>(missing_parent())
        },
{
    match store.put_mailboxes(client, listed, now) {
        Err(error) => Err(error),
        Ok(()) => Ok(store.list_mailboxes(client)),
    }
}

/// The condition "is not among the listed paths".
pub open spec fn is_unlisted(listed: Seq<Seq<char>>) -> spec_fn(Seq<char>) -> bool {
    |path: Seq<char>| !listed.contains(path)
}

/// The store after the mailboxes of a connection were brought into
/// agreement with the server's list: cached mailboxes that the server does
/// not list deleted with their messages, listed mailboxes that the cache
/// does not hold entered.
pub open spec fn with_listed_mailboxes(
    s: StoreView,
    username: Seq<char>,
    address: Seq<char>,
    listed: Seq<Seq<char>>,
    now: u64,
) -> StoreView {
    with_mailboxes(
        without_mailboxes(
            s,
            username,
            address,
            kept(mailbox_paths(s, username, address), is_unlisted(listed)),
        ),
        username,
        address,
        listed,
        now,
    )
}

fn holds_text(list: &Vec<String>, text: &String) -> (res: bool)
    ensures
        res == string_views(list@).contains(text@),
{
    let mut i: usize = 0;
    while i < list.len()
        invariant
            i <= list.len(),
            forall|k: int| 0 <= k < i ==> string_views(list@)[k] != text@,
        decreases list.len() - i,
    {
        if list[i] == *text {
            assert(string_views(list@)[i as int] == text@);
            return true;
        }
        i += 1;
    }
    false
}

/// Brings the mailboxes of a client into agreement with the list of the
/// server, and returns the mailboxes of the cache.
pub fn mailboxes_updated(store: &mut CacheStore, client: &Client, listed: &Vec<String>, now: u64) -> (res:
    Result<Vec<String>, ApiError>)
    requires
        old(store).wf(),
    ensures
        final(store).wf(),
        final(store)@ == with_listed_mailboxes(
            old(store)@,
            client@.username,
            client@.address,
            string_views(listed@),
            now,
        ),
        strings_result(res) == if any_where(
            old(store)@.connections,
            crate::schema::is_connection(client@.username, client@.address),
        ) {
            Ok::<Seq<Seq<char>>, ApiErrorView>(
                mailbox_paths(final(store)@, client@.username, client@.address),
            )
        } else {
            Err::<Seq<Seq<char>>, ApiErrorView>(missing_parent())
        },
{
    let cached = store.list_mailboxes(client);
    let ghost all = string_views(cached@);
    let ghost gone = is_unlisted(string_views(listed@));
    let mut vanished: Vec<String> = Vec::new();
    let mut i: usize = 0;
    assert(all.take(0) =~= Seq::<Seq<char>>::empty());
    assert(string_views(vanished@) =~= kept(all.take(0), gone));
    while i < cached.len()
        invariant
            i <= cached.len(),
            all == string_views(cached@),
            gone == is_unlisted(string_views(listed@)),
            string_views(vanished@) == kept(all.take(i as int), gone),
        decreases cached.len() - i,
    {
        proof {
            lemma_kept_step(all, gone, i as int);
        }
        if !holds_text(listed, &cached[i]) {
            let ghost before = vanished@;
            vanished.push(cached[i].clone());
            assert(string_views(vanished@) =~= string_views(before).push(all[i as int]));
        }
        i += 1;
    }
    assert(all.take(cached.len() as int) =~= all);
    let ghost start = store@;
    store.delete_mailboxes(client, &vanished);
    proof {
        lemma_without_mailboxes_connections(
            start,
            client@.username,
            client@.address,
            string_views(vanished@),
        );
    }
    match store.put_mailboxes(client, listed, now) {
        Err(error) => Err(error),
        Ok(()) => Ok(store.list_mailboxes(client)),
    }
}

/// Deleting mailboxes leaves the connections as they are.
pub proof fn lemma_without_mailboxes_connections(
    s: StoreView,
    username: Seq<char>,
    address: Seq<char>,
    paths: Seq<Seq<char>>,
)
    ensures
        without_mailboxes(s, username, address, paths).connections == s.connections,
    decreases paths.len(),
{
    if paths.len() > 0 {
        lemma_without_mailboxes_connections(s, username, address, paths.drop_last());
    }
}

/// Begins an update of a mailbox of a session: checks the session and the
/// path and hands out the client, the state of the update and the first
/// thing to ask of the server.
pub fn update_mailbox(registry: &Registry, session_id: usize, path: &str, quick: bool) -> (res:
    Result<(Client, Update, SyncAction), ApiError>)
    ensures
        match res {
            Ok(begun) => session_mailbox(registry@, session_id, path@) == Ok::<
                ClientView,
                ApiErrorView,
            >(begun.0@) && begun.1@ == initial_update(quick) && begun.2@ == (
            ActionView::FetchUids { start: 0xffff_fffeu32, end: 0xffff_ffffu32 }),
            Err(error) => session_mailbox(registry@, session_id, path@) == Err::<
                ClientView,
                ApiErrorView,
            >(error@),
        },
{
    match check_session(registry, session_id, path) {
        Err(error) => Err(error),
        Ok(client) => {
            let (update, action) = Update::begin(quick);
            Ok((client, update, action))
        },
    }
}

/// A `UID STORE` to send to the server.
#[derive(Clone, Debug, PartialEq, Eq)]
pub struct StoreCommand {
    pub client: Client,
    pub path: String,
    pub uid: u32,
    /// The item list: `+FLAGS (..)` or `-FLAGS (..)`.
    pub query: String,
}

/// Prepares a change of flags: checks the session and the path and builds
/// the `UID STORE` to send.
pub fn modify_flags(
    registry: &Registry,
    session_id: usize,
    path: &str,
    uid: u32,
    flags: &str,
    add: bool,
) -> (res: Result<StoreCommand, ApiError>)
    ensures
        match res {
            Ok(command) => session_mailbox(registry@, session_id, path@) == Ok::<
                ClientView,
                ApiErrorView,
            >(command.client@) && command.path@ == path@ && command.uid == uid && command.query@
                == query_text(flags@, add),
            Err(error) => session_mailbox(registry@, session_id, path@) == Err::<
                ClientView,
                ApiErrorView,
            >(error@),
        },
{
    match check_session(registry, session_id, path) {
        Err(error) => Err(error),
        Ok(client) => Ok(
            StoreCommand { client, path: String::from_str(path), uid, query: query(flags, add) },
        ),
    }
}

/// Writes the flags that the server reported for a message into the cache,
/// as the canonical flag string, and returns this string.
pub fn modify_flags_db(
    store: &mut CacheStore,
    client: &Client,
    path: &str,
    uid: u32,
    flags: &[Flag],
    now: u64,
) -> (res: String)
    requires
        old(store).wf(),
    ensures
        final(store).wf(),
        res@ == flags_text(flags@),
        final(store)@ == with_flags(
            old(store)@,
            client@.username,
            client@.address,
            path@,
            uid,
            flags_text(flags@),
            now,
        ),
        stored_flags(final(store)@, client@.username, client@.address, path@, uid) == if stored_flags(
            old(store)@,
            client@.username,
            client@.address,
            path@,
            uid,
        ) is Some {
            Some(flags_text(flags@))
        } else {
            None
        },
{
    let text = flags_to_string(flags);
    proof {
        lemma_flags_stored(
            store@,
            client@.username,
            client@.address,
            path@,
            uid,
            flags_text(flags@),
            now,
        );
    }
    store.update_flags(client, path, uid, text.as_str(), now);
    text
}

/// Completes a change of flags with the answer of the server to the `UID
/// STORE`: the flags of its first line are written into the cache as the
/// canonical flag string, which is returned. An empty answer is an error
/// and changes nothing.
pub fn modify_flags_done(
    store: &mut CacheStore,
    client: &Client,
    path: &str,
    uid: u32,
    fetches: &Vec<Fetch>,
    now: u64,
) -> (res: Result<String, ApiError>)
    requires
        old(store).wf(),
    ensures
        final(store).wf(),
        fetches@.len() == 0 ==> string_result(res) == Err::<Seq<char>, ApiErrorView>(no_answer())
            && final(store)@ == old(store)@,
        fetches@.len() > 0 ==> string_result(res) == Ok::<Seq<char>, ApiErrorView>(
            flags_text(fetches@[0].flags@),
        ) && final(store)@ == with_flags(
            old(store)@,
            client@.username,
            client@.address,
            path@,
            uid,
            flags_text(fetches@[0].flags@),
            now,
        ),
        fetches@.len() > 0 && stored_flags(
            old(store)@,
            client@.username,
            client@.address,
            path@,
            uid,
        ) is Some ==> stored_flags(final(store)@, client@.username, client@.address, path@, uid)
            == Some(flags_text(fetches@[0].flags@)),
{
    if fetches.len() == 0 {
        return Err(
            ApiError::new(ErrorKind::Protocol, "Error retrieving message while updating flags"),
        );
    }
    Ok(modify_flags_db(store, client, path, uid, fetches[0].flags.as_slice(), now))
}

/// A `UID MOVE` to send to the server.
#[derive(Clone, Debug, PartialEq, Eq)]
pub struct MoveCommand {
    pub client: Client,
    pub path: String,
    pub uid: u32,
    pub destination: String,
}

/// What `move_message` checks: the session, and that neither path is empty.
pub open spec fn move_check(
    slots: Seq<SlotView>,
    session_id: usize,
    path: Seq<char>,
    destination: Seq<char>,
) -> Result<ClientView, ApiErrorView> {
    match session_mailbox(slots, session_id, path) {
        Err(error) => Err(error),
        Ok(client) => if destination.len() == 0 {
            Err(empty_path())
        } else {
            Ok(client)
        },
    }
}

/// Prepares the move of a message to another mailbox: checks the session
/// and the two paths and builds the `UID MOVE` to send.
pub fn move_message(
    registry: &Registry,
    session_id: usize,
    path: &str,
    uid: u32,
    destination: &str,
) -> (res: Result<MoveCommand, ApiError>)
    ensures
        match res {
            Ok(command) => move_check(registry@, session_id, path@, destination@) == Ok::<
                ClientView,
                ApiErrorView,
            >(command.client@) && command.path@ == path@ && command.uid == uid
                && command.destination@ == destination@,
            Err(error) => move_check(registry@, session_id, path@, destination@) == Err::<
                ClientView,
                ApiErrorView,
            >(error@),
        },
{
    match check_session(registry, session_id, path) {
        Err(error) => Err(error),
        Ok(client) => {
            if destination.unicode_len() == 0 {
                Err(ApiError::new(ErrorKind::InvalidArgument, "Provide a mailbox path"))
            } else {
                Ok(
                    MoveCommand {
                        client,
                        path: String::from_str(path),
                        uid,
                        destination: String::from_str(destination),
                    },
                )
            }
        },
    }
}

/// How a message is moved at the server.
#[derive(Clone, Copy, Debug, PartialEq, Eq, Structural)]
pub enum MovePlan {
    /// With one `UID MOVE`.
    Move,
    /// With a `UID COPY`, a `UID STORE` that marks the message as deleted,
    /// and an `EXPUNGE`.
    CopyThenExpunge,
}

/// How a message is moved at a server that does, or does not, advertise
/// `MOVE`.
pub open spec fn plan_of(move_advertised: bool) -> MovePlan {
    if move_advertised {
        MovePlan::Move
    } else {
        MovePlan::CopyThenExpunge
    }
}

/// Decides how a message is moved: with `UID MOVE` where the server
/// advertises it, by copying, marking and expunging where it does not.
pub fn move_plan(move_advertised: bool) -> (res: MovePlan)
    ensures
        res == plan_of(move_advertised),
{
    if move_advertised {
        MovePlan::Move
    } else {
        MovePlan::CopyThenExpunge
    }
}

/// Completes a move that the server carried out: the message leaves the
/// cache of the mailbox it was moved from.
pub fn message_moved(store: &mut CacheStore, client: &Client, path: &str, uid: u32)
    requires
        old(store).wf(),
    ensures
        final(store).wf(),
        final(store)@ == without_message(
            old(store)@,
            client@.username,
            client@.address,
            path@,
            uid,
        ),
{
    store.delete_message(client, path, uid);
}

} // verus!
