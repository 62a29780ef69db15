//! The request layer: what each route does with its query string. A
//! handler reads its parameters, checks them, and either answers at once
//! or says what is to be done at the server before the answer can be
//! given.

use crate::display::{
    changes_text, changes_to_display, failure, list_text, message_texts, message_vec_to_display,
    quoted, quoted_texts, session_texts, sessions_to_display, string_vec_to_display, success,
    Reply, ReplyView,
};
use crate::error::{ApiError, ApiErrorView};
use crate::facade::{
    by_flag, by_uids, fetch_by_flag, fetch_by_uids, fetch_sorted, mailboxes_step, move_check,
    session_mailbox, sorted, MailboxesStep, MailboxesStepView, MoveCommand, StoreCommand,
};
use crate::flags::query_text;
use crate::message::{Client, ClientView};
use crate::number::{bounded_decimal, decimal_text, parse_decimal, push_decimal};
use crate::params::{
    decoded_pairs, get_bool, get_u16, get_u32, get_usize, invalid_bool, invalid_number, lookup,
    parse_params, raw_pairs, Params,
};
use crate::registry::{ live_sessions, login_step, session_client, Login, Registry, SlotView, };
use crate::schema::{StoreView};
use crate::store::{string_views, CacheStore};
use crate::text::{chars_to_string, push_str, split, split_on, str_chars, texts};
use crate::update::{initial_update, ActionView, MailboxChanges, SyncAction, Update, UpdateView};
use vstd::prelude::*;
use vstd::string::StringExecFns;

verus! {

/// What a handler hands back: an answer, or what is to be done at the
/// server first.
#[derive(Clone, Debug, PartialEq, Eq)]
pub enum Step {
    /// The answer.
    Reply(Reply),
    /// Dial the server of this client and log in.
    Connect(Client),
    /// Close the session with this id, which belonged to this client.
    Close(usize, Client),
    /// Ask the server for the list of mailboxes of this client.
    List(Client),
    /// Run an update of this mailbox of this client, from this state and
    /// with this first action.
    Begin(Client, String, Update, SyncAction),
    /// Send this `UID STORE`.
    Store(StoreCommand),
    /// Send this `UID MOVE`.
    Move(MoveCommand),
}

/// The mathematical content of a `Step`.
pub enum StepView {
    Reply(ReplyView),
    Connect(ClientView),
    Close(usize, ClientView),
    List(ClientView),
    Begin(ClientView, Seq<char>, UpdateView, ActionView),
    Store { client: ClientView, path: Seq<char>, uid: u32, query: Seq<char> },
    Move { client: ClientView, path: Seq<char>, uid: u32, destination: Seq<char> },
}

impl View for Step {
    type V = StepView;

    open spec fn view(&self) -> StepView {
        match self {
            Step::Reply(reply) => StepView::Reply(reply@),
            Step::Connect(client) => StepView::Connect(client@),
            Step::Close(id, client) => StepView::Close(*id, client@),
            Step::List(client) => StepView::List(client@),
            Step::Begin(client, path, update, action) => StepView::Begin(
                client@,
                path@,
                update@,
                action@,
            ),
            Step::Store(command) => StepView::Store {
                client: command.client@,
                path: command.path@,
                uid: command.uid,
                query: command.query@,
            },
            Step::Move(command) => StepView::Move {
                client: command.client@,
                path: command.path@,
                uid: command.uid,
                destination: command.destination@,
            },
        }
    }
}

/// The parameters of a query string.
pub open spec fn params_of(uri: Seq<char>) -> Seq<(Seq<char>, Seq<char>)> {
    decoded_pairs(raw_pairs(uri))
}

/// A parameter read as a number of at most `max`.
pub open spec fn number_of(text: Option<Seq<char>>, max: nat) -> Result<Option<nat>, ApiErrorView> {
    match text {
        None => Ok(None),
        Some(t) => match bounded_decimal(t, max) {
            Some(v) => Ok(Some(v)),
            None => Err(invalid_number()),
        },
    }
}

/// A parameter read as `true` or `false`.
pub open spec fn bool_of(text: Option<Seq<char>>) -> Result<Option<bool>, ApiErrorView> {
    match text {
        None => Ok(None),
        Some(t) => if t == "true"@ {
            Ok(Some(true))
        } else if t == "false"@ {
            Ok(Some(false))
        } else {
            Err(invalid_bool())
        },
    }
}

/// The answer to a failed operation: its message.
pub open spec fn error_reply(error: ApiErrorView) -> ReplyView {
    failure(error.message)
}

/// The answer to a failed operation.
pub fn error(failed: &ApiError) -> (res: Reply)
    ensures
        res@ == error_reply(failed@),
{
    Reply { success: false, message: failed.message.clone(), data: None }
}

/// The data of an answer to a login: the session id.
pub open spec fn session_data(session_id: usize) -> Seq<char> {
    "{ \"session_id\": "@ + decimal_text(session_id as nat) + "}"@
}

fn session_data_string(session_id: usize) -> (res: String)
    ensures
        res@ == session_data(session_id),
{
    let mut out = str_chars("{ \"session_id\": ");
    push_decimal(&mut out, session_id as u64);
    push_str(&mut out, "}");
    chars_to_string(&out)
}

/// What a login does.
pub open spec fn login_of(params: Seq<(Seq<char>, Seq<char>)>, slots: Seq<SlotView>) -> StepView {
    match number_of(lookup(params, "port"@), u16::MAX as nat) {
        Err(e) => StepView::Reply(error_reply(e)),
        Ok(port) => match (
            lookup(params, "username"@),
            lookup(params, "password"@),
            lookup(params, "address"@),
            port,
        ) {
            (Some(username), Some(password), Some(address), Some(port)) => match login_step(
                slots,
                username,
                address,
            ) {
                Login::Existing(id) => StepView::Reply(
                    success("Allready connected to IMAP server"@, Some(session_data(id))),
                ),
                Login::Connect => StepView::Connect(
                    ClientView { username, password, address, port: port as u16 },
                ),
            },
            _ => StepView::Reply(failure("Provide all GET parameters"@)),
        },
    }
}

/// Handles a login: answers with the session id where the client has a
/// live session, and demands a connection where it has none.
pub fn login(uri: &str, registry: &Registry) -> (res: Step)
    ensures
        res@ == login_of(params_of(uri@), registry@),
{
    let params = parse_params(String::from_str(uri));
    let port = match get_u16(params.get("port")) {
        Ok(port) => port,
        Err(e) => {
            return Step::Reply(error(&e));
        },
    };
    match (params.get("username"), params.get("password"), params.get("address"), port) {
        (Some(username), Some(password), Some(address), Some(port)) => {
            let client = Client {
                username: username.clone(),
                password: password.clone(),
                address: address.clone(),
                port,
            };
            match registry.login(&client) {
                Login::Existing(id) => Step::Reply(
                    Reply::with_data("Allready connected to IMAP server", session_data_string(id)),
                ),
                Login::Connect => Step::Connect(client),
            }
        },
        _ => Step::Reply(Reply::failed("Provide all GET parameters")),
    }
}

/// The answer to a login that connected.
pub fn connected(session_id: usize) -> (res: Reply)
    ensures
        res@ == success("Connected to IMAP server"@, Some(session_data(session_id))),
{
    Reply::with_data("Connected to IMAP server", session_data_string(session_id))
}

/// The session that a request names: the id of its `session_id`
/// parameter, which must be a number, be there, and name a live session.
/// `missing` is the message for a request without the parameter.
pub open spec fn session_of(
    params: Seq<(Seq<char>, Seq<char>)>,
    slots: Seq<SlotView>,
    missing: Seq<char>,
) -> Result<(usize, ClientView), ReplyView> {
    match number_of(lookup(params, "session_id"@), usize::MAX as nat) {
        Err(e) => Err(error_reply(e)),
        Ok(None) => Err(failure(missing)),
        Ok(Some(id)) => match session_client(slots, id as usize) {
            Err(e) => Err(error_reply(e)),
            Ok(client) => Ok((id as usize, client)),
        },
    }
}

fn session(params: &Params, registry: &Registry, missing: &str) -> (res: Result<
    (usize, Client),
    Reply,
>)
    ensures
        match res {
            Ok(found) => session_of(params@, registry@, missing@) == Ok::<
                (usize, ClientView),
                ReplyView,
            >((found.0, found.1@)),
            Err(reply) => session_of(params@, registry@, missing@) == Err::<
                (usize, ClientView),
                ReplyView,
            >(reply@),
        },
{
    match get_usize(params.get("session_id")) {
        Err(e) => Err(error(&e)),
        Ok(None) => Err(Reply::failed(missing)),
        Ok(Some(id)) => match registry.client(id) {
            Err(e) => Err(error(&e)),
            Ok(client) => Ok((id, client)),
        },
    }
}

/// What a logout does.
pub open spec fn logout_of(params: Seq<(Seq<char>, Seq<char>)>, slots: Seq<SlotView>) -> StepView {
    match session_of(params, slots, "Provide session_id GET parameter"@) {
        Err(reply) => StepView::Reply(reply),
        Ok(found) => StepView::Close(found.0, found.1),
    }
}

/// Handles a logout: vacates the slot of the session and demands that the
/// session be closed.
pub fn logout(uri: &str, registry: &mut Registry) -> (res: Step)
    requires
        old(registry).wf(),
    ensures
        final(registry).wf(),
        res@ == logout_of(params_of(uri@), old(registry)@),
        match res@ {
            StepView::Close(id, client) => final(registry)@ == old(registry)@.update(
                id as int,
                SlotView { client, live: false },
            ),
            _ => final(registry)@ == old(registry)@,
        },
{
    let params = parse_params(String::from_str(uri));
    match session(&params, registry, "Provide session_id GET parameter") {
        Err(reply) => Step::Reply(reply),
        Ok(found) => match registry.logout(found.0) {
            Ok(client) => Step::Close(found.0, client),
            Err(e) => Step::Reply(error(&e)),
        },
    }
}

/// The answer to a logout whose session was closed.
pub fn logged_out(session_id: usize) -> (res: Reply)
    ensures
        res@ == success("Logged out"@, Some(decimal_text(session_id as nat))),
{
    let mut out: Vec<char> = Vec::new();
    push_decimal(&mut out, session_id as u64);
    assert(out@ =~= decimal_text(session_id as nat));
    Reply::with_data("Logged out", chars_to_string(&out))
}

/// Lists the live sessions.
pub fn get_sessions(registry: &Registry) -> (res: Reply)
    ensures
        res@ == success(
            "Sessions retrieved"@,
            Some(list_text(session_texts(live_sessions(registry@, registry@.len() as int)))),
        ),
{
    Reply::with_data("Sessions retrieved", sessions_to_display(&registry.sessions()))
}

/// The answer that lists mailboxes.
pub open spec fn mailboxes_reply(message: Seq<char>, paths: Seq<Seq<char>>) -> ReplyView {
    success(message, Some(list_text(quoted_texts(paths))))
}

/// What a request for the mailboxes does.
pub open spec fn mailboxes_of(
    params: Seq<(Seq<char>, Seq<char>)>,
    slots: Seq<SlotView>,
    s: StoreView,
) -> StepView {
    match session_of(params, slots, "Provide session_id GET parameter"@) {
        Err(reply) => StepView::Reply(reply),
        Ok(found) => match mailboxes_step(slots, s, found.0) {
            Ok(MailboxesStepView::Cached(paths)) => StepView::Reply(
                mailboxes_reply("Mailboxes retrieved"@, paths),
            ),
            Ok(MailboxesStepView::List(client)) => StepView::List(client),
            Err(e) => StepView::Reply(error_reply(e)),
        },
    }
}

/// Handles a request for the mailboxes of a session: answers from the
/// cache, or demands the list of the server where the cache holds none.
pub fn get_mailboxes(uri: &str, registry: &Registry, store: &CacheStore) -> (res: Step)
    ensures
        res@ == mailboxes_of(params_of(uri@), registry@, store@),
{
    let params = parse_params(String::from_str(uri));
    match session(&params, registry, "Provide session_id GET parameter") {
        Err(reply) => Step::Reply(reply),
        Ok(found) => match crate::facade::get_mailboxes(registry, store, found.0) {
            Ok(MailboxesStep::Cached(paths)) => Step::Reply(
                Reply::with_data("Mailboxes retrieved", string_vec_to_display(&paths)),
            ),
            Ok(MailboxesStep::List(client)) => Step::List(client),
            Err(e) => Step::Reply(error(&e)),
        },
    }
}

/// The answer with the mailboxes of the cache after the server's list was
/// stored. `updated` says whether the list was asked for in order to bring
/// the cache up to date.
pub fn mailboxes_retrieved(paths: &Vec<String>, updated: bool) -> (res: Reply)
    ensures
        res@ == mailboxes_reply(
            if updated {
                "Mailboxes updated"@
            } else {
                "Mailboxes retrieved"@
            },
            string_views(paths@),
        ),
{
    if updated {
        Reply::with_data("Mailboxes updated", string_vec_to_display(paths))
    } else {
        Reply::with_data("Mailboxes retrieved", string_vec_to_display(paths))
    }
}

/// What a request to update the mailboxes does.
pub open spec fn update_mailboxes_of(
    params: Seq<(Seq<char>, Seq<char>)>,
    slots: Seq<SlotView>,
) -> StepView {
    match session_of(params, slots, "Provide session_id GET parameter"@) {
        Err(reply) => StepView::Reply(reply),
        Ok(found) => StepView::List(found.1),
    }
}

/// Handles a request to update the mailboxes of a session: demands the
/// list of the server.
pub fn update_mailboxes(uri: &str, registry: &Registry) -> (res: Step)
    ensures
        res@ == update_mailboxes_of(params_of(uri@), registry@),
{
    let params = parse_params(String::from_str(uri));
    match session(&params, registry, "Provide session_id GET parameter") {
        Err(reply) => Step::Reply(reply),
        Ok(found) => Step::List(found.1),
    }
}

/// The uids of a comma-separated list: every item must be a number that is
/// a uid.
pub open spec fn uid_list(items: Seq<Seq<char>>) -> Option<Seq<u32>>
    decreases items.len(),
{
    if items.len() == 0 {
        Some(Seq::empty())
    } else {
        match (uid_list(items.drop_last()), bounded_decimal(items.last(), u32::MAX as nat)) {
            (Some(before), Some(uid)) => Some(before.push(uid as u32)),
            _ => None,
        }
    }
}

/// Reads a comma-separated list of uids.
pub fn parse_uids(text: &str) -> (res: Option<Vec<u32>>)
    ensures
        match res {
            Some(uids) => uid_list(split_on(text@, ',')) == Some(uids@),
            None => uid_list(split_on(text@, ',')) is None,
        },
{
    let items = split(&str_chars(text), ',');
    let ghost all = texts(items@);
    let mut out: Vec<u32> = Vec::new();
    let mut i: usize = 0;
    assert(all.take(0) =~= Seq::<Seq<char>>::empty());
    while i < items.len()
        invariant
            i <= items.len(),
            all == texts(items@),
            all == split_on(text@, ','),
            uid_list(all.take(i as int)) == Some(out@),
        decreases items.len() - i,
    {
        proof {
            assert(all.take(i + 1).drop_last() =~= all.take(i as int));
            assert(all.take(i + 1).last() == items@[i as int]@);
        }
        match parse_decimal(&items[i], u32::MAX as u64) {
            Some(uid) => {
                out.push(uid as u32);
            },
            None => {
                proof {
                    lemma_uid_list_fails(all, i + 1);
                }
                return None;
            },
        }
        i += 1;
    }
    assert(all.take(items.len() as int) =~= all);
    Some(out)
}

proof fn lemma_uid_list_fails(items: Seq<Seq<char>>, upto: int)
    requires
        0 <= upto <= items.len(),
        uid_list(items.take(upto)) is None,
    ensures
        uid_list(items) is None,
    decreases items.len() - upto,
{
    if upto < items.len() {
        assert(items.take(upto + 1).drop_last() =~= items.take(upto));
        lemma_uid_list_fails(items, upto + 1);
    } else {
        assert(items.take(upto) =~= items);
    }
}

/// The answer that lists messages, or the answer to the failure.
pub open spec fn messages_reply(
    found: Result<Seq<crate::message::MessageView>, ApiErrorView>,
) -> ReplyView {
    match found {
        Ok(messages) => success("Messages retrieved"@, Some(list_text(message_texts(messages)))),
        Err(e) => error_reply(e),
    }
}

fn messages_answer(found: Result<Vec<crate::message::Message>, ApiError>) -> (res: Reply)
    ensures
        res@ == messages_reply(crate::facade::messages_result(found)),
{
    match found {
        Ok(messages) => Reply::with_data("Messages retrieved", message_vec_to_display(&messages)),
        Err(e) => error(&e),
    }
}

/// What a request for messages by uid is answered with.
pub open spec fn messages_with_uids_of(
    params: Seq<(Seq<char>, Seq<char>)>,
    slots: Seq<SlotView>,
    s: StoreView,
) -> ReplyView {
    match number_of(lookup(params, "session_id"@), usize::MAX as nat) {
        Err(e) => error_reply(e),
        Ok(id) => match (id, lookup(params, "mailbox_path"@), lookup(params, "message_uids"@)) {
            (Some(id), Some(path), Some(listed)) => match uid_list(split_on(listed, ',')) {
                None => error_reply(invalid_number()),
                Some(uids) => messages_reply(by_uids(slots, s, id as usize, path, uids)),
            },
            _ => failure("Provide session_id, mailbox_path and message_uids GET parameters"@),
        },
    }
}

/// Handles a request for the cached messages with given uids.
pub fn get_messages_with_uids(uri: &str, registry: &Registry, store: &CacheStore) -> (res: Reply)
    ensures
        res@ == messages_with_uids_of(params_of(uri@), registry@, store@),
{
    let params = parse_params(String::from_str(uri));
    let id = match get_usize(params.get("session_id")) {
        Ok(id) => id,
        Err(e) => {
            return error(&e);
        },
    };
    match (id, params.get("mailbox_path"), params.get("message_uids")) {
        (Some(id), Some(path), Some(listed)) => match parse_uids(listed.as_str()) {
            None => Reply::failed("Invalid number parameter"),
            Some(uids) => messages_answer(
                fetch_by_uids(registry, store, id, path.as_str(), &uids),
            ),
        },
        _ => Reply::failed("Provide session_id, mailbox_path and message_uids GET parameters"),
    }
}

/// What a request for messages by date is answered with.
pub open spec fn messages_sorted_of(
    params: Seq<(Seq<char>, Seq<char>)>,
    slots: Seq<SlotView>,
    s: StoreView,
) -> ReplyView {
    match number_of(lookup(params, "session_id"@), usize::MAX as nat) {
        Err(e) => error_reply(e),
        Ok(id) => match number_of(lookup(params, "start"@), u32::MAX as nat) {
            Err(e) => error_reply(e),
            Ok(start) => match number_of(lookup(params, "end"@), u32::MAX as nat) {
                Err(e) => error_reply(e),
                Ok(end) => match (id, lookup(params, "mailbox_path"@), start, end) {
                    (Some(id), Some(path), Some(start), Some(end)) => messages_reply(
                        sorted(slots, s, id as usize, path, start as u32, end as u32),
                    ),
                    _ => failure(
                        "Provide session_id, mailbox_path, start, and end GET parameters"@,
                    ),
                },
            },
        },
    }
}

/// Handles a request for the cached messages of a mailbox by date, latest
/// first, from rank `start` up to, not including, rank `end`.
pub fn get_messages_sorted(uri: &str, registry: &Registry, store: &CacheStore) -> (res: Reply)
    ensures
        res@ == messages_sorted_of(params_of(uri@), registry@, store@),
{
    let params = parse_params(String::from_str(uri));
    let id = match get_usize(params.get("session_id")) {
        Ok(id) => id,
        Err(e) => {
            return error(&e);
        },
    };
    let start = match get_u32(params.get("start")) {
        Ok(start) => start,
        Err(e) => {
            return error(&e);
        },
    };
    let end = match get_u32(params.get("end")) {
        Ok(end) => end,
        Err(e) => {
            return error(&e);
        },
    };
    match (id, params.get("mailbox_path"), start, end) {
        (Some(id), Some(path), Some(start), Some(end)) => messages_answer(
            fetch_sorted(registry, store, id, path.as_str(), start, end),
        ),
        _ => Reply::failed("Provide session_id, mailbox_path, start, and end GET parameters"),
    }
}

/// What a request for messages by flag is answered with.
pub open spec fn messages_with_flag_of(
    params: Seq<(Seq<char>, Seq<char>)>,
    slots: Seq<SlotView>,
    s: StoreView,
) -> ReplyView {
    match number_of(lookup(params, "session_id"@), usize::MAX as nat) {
        Err(e) => error_reply(e),
        Ok(id) => match bool_of(lookup(params, "not_flag"@)) {
            Err(e) => error_reply(e),
            Ok(negate) => match (
                id,
                lookup(params, "mailbox_path"@),
                lookup(params, "flag"@),
                negate,
            ) {
                (Some(id), Some(path), Some(flag), Some(negate)) => messages_reply(
                    by_flag(slots, s, id as usize, path, flag, negate),
                ),
                _ => failure(
                    "Provide session_id, mailbox_path, flag, and not_flag GET parameters"@,
                ),
            },
        },
    }
}

/// Handles a request for the cached messages of a mailbox that carry, or
/// do not carry, a flag.
pub fn get_messages_with_flag(uri: &str, registry: &Registry, store: &CacheStore) -> (res: Reply)
    ensures
        res@ == messages_with_flag_of(params_of(uri@), registry@, store@),
{
    let params = parse_params(String::from_str(uri));
    let id = match get_usize(params.get("session_id")) {
        Ok(id) => id,
        Err(e) => {
            return error(&e);
        },
    };
    let negate = match get_bool(params.get("not_flag")) {
        Ok(negate) => negate,
        Err(e) => {
            return error(&e);
        },
    };
    match (id, params.get("mailbox_path"), params.get("flag"), negate) {
        (Some(id), Some(path), Some(flag), Some(negate)) => messages_answer(
            fetch_by_flag(registry, store, id, path.as_str(), flag.as_str(), negate),
        ),
        _ => Reply::failed("Provide session_id, mailbox_path, flag, and not_flag GET parameters"),
    }
}

/// What a request to update a mailbox does.
pub open spec fn update_mailbox_of(
    params: Seq<(Seq<char>, Seq<char>)>,
    slots: Seq<SlotView>,
) -> StepView {
    match number_of(lookup(params, "session_id"@), usize::MAX as nat) {
        Err(e) => StepView::Reply(error_reply(e)),
        Ok(id) => match bool_of(lookup(params, "quick"@)) {
            Err(e) => StepView::Reply(error_reply(e)),
            Ok(quick) => match (id, lookup(params, "mailbox_path"@)) {
                (Some(id), Some(path)) => match session_mailbox(slots, id as usize, path) {
                    Err(e) => StepView::Reply(error_reply(e)),
                    Ok(client) => StepView::Begin(
                        client,
                        path,
                        initial_update(
                            match quick {
                                Some(quick) => quick,
                                None => false,
                            },
                        ),
                        ActionView::FetchUids { start: 0xffff_fffeu32, end: 0xffff_ffffu32 },
                    ),
                },
                _ => StepView::Reply(
                    failure("Provide session_id and mailbox_path GET parameters"@),
                ),
            },
        },
    }
}

/// Handles a request to update a mailbox: demands that the update be run.
/// Without the parameter `quick` the update is a full one.
pub fn update_mailbox(uri: &str, registry: &Registry) -> (res: Step)
    ensures
        res@ == update_mailbox_of(params_of(uri@), registry@),
{
    let params = parse_params(String::from_str(uri));
    let id = match get_usize(params.get("session_id")) {
        Ok(id) => id,
        Err(e) => {
            return Step::Reply(error(&e));
        },
    };
    let quick = match get_bool(params.get("quick")) {
        Ok(quick) => quick,
        Err(e) => {
            return Step::Reply(error(&e));
        },
    };
    match (id, params.get("mailbox_path")) {
        (Some(id), Some(path)) => {
            let quick = match quick {
                Some(quick) => quick,
                None => false,
            };
            match crate::facade::update_mailbox(registry, id, path.as_str(), quick) {
                Err(e) => Step::Reply(error(&e)),
                Ok(begun) => Step::Begin(begun.0, path.clone(), begun.1, begun.2),
            }
        },
        _ => Step::Reply(Reply::failed("Provide session_id and mailbox_path GET parameters")),
    }
}

/// The answer to an update of a mailbox that ran to its end.
pub fn mailbox_updated(changes: &MailboxChanges) -> (res: Reply)
    ensures
        res@ == success(
            "Mailbox updated"@,
            Some(changes_text(changes.new@, changes.removed@, changes.changed@)),
        ),
{
    Reply::with_data(
        "Mailbox updated",
        changes_to_display(&changes.new, &changes.removed, &changes.changed),
    )
}

/// What a request to change flags does.
pub open spec fn modify_flags_of(
    params: Seq<(Seq<char>, Seq<char>)>,
    slots: Seq<SlotView>,
) -> StepView {
    match number_of(lookup(params, "session_id"@), usize::MAX as nat) {
        Err(e) => StepView::Reply(error_reply(e)),
        Ok(id) => match number_of(lookup(params, "message_uid"@), u32::MAX as nat) {
            Err(e) => StepView::Reply(error_reply(e)),
            Ok(uid) => match bool_of(lookup(params, "add"@)) {
                Err(e) => StepView::Reply(error_reply(e)),
                Ok(add) => match (
                    id,
                    lookup(params, "mailbox_path"@),
                    uid,
                    lookup(params, "flags"@),
                    add,
                ) {
                    (Some(id), Some(path), Some(uid), Some(flags), Some(add)) => match session_mailbox(
                        slots,
                        id as usize,
                        path,
                    ) {
                        Err(e) => StepView::Reply(error_reply(e)),
                        Ok(client) => StepView::Store {
                            client,
                            path,
                            uid: uid as u32,
                            query: query_text(flags, add),
                        },
                    },
                    _ => StepView::Reply(
                        failure(
                            "Provide session_id, mailbox_path, message_uid, flags, and add GET parameters"@,
                        ),
                    ),
                },
            },
        },
    }
}

/// Handles a request to add flags to a message or to remove flags from
/// it: demands that the `UID STORE` be sent.
pub fn modify_flags(uri: &str, registry: &Registry) -> (res: Step)
    ensures
        res@ == modify_flags_of(params_of(uri@), registry@),
{
    let params = parse_params(String::from_str(uri));
    let id = match get_usize(params.get("session_id")) {
        Ok(id) => id,
        Err(e) => {
            return Step::Reply(error(&e));
        },
    };
    let uid = match get_u32(params.get("message_uid")) {
        Ok(uid) => uid,
        Err(e) => {
            return Step::Reply(error(&e));
        },
    };
    let add = match get_bool(params.get("add")) {
        Ok(add) => add,
        Err(e) => {
            return Step::Reply(error(&e));
        },
    };
    match (id, params.get("mailbox_path"), uid, params.get("flags"), add) {
        (Some(id), Some(path), Some(uid), Some(flags), Some(add)) => {
            match crate::facade::modify_flags(
                registry,
                id,
                path.as_str(),
                uid,
                flags.as_str(),
                add,
            ) {
                Err(e) => Step::Reply(error(&e)),
                Ok(command) => Step::Store(command),
            }
        },
        _ => Step::Reply(
            Reply::failed(
                "Provide session_id, mailbox_path, message_uid, flags, and add GET parameters",
            ),
        ),
    }
}

/// The answer to a change of flags: the flag string that the cache holds
/// now.
pub fn flags_updated(flags: &str) -> (res: Reply)
    ensures
        res@ == success("Flags successfully updated"@, Some(quoted(flags@))),
{
    let mut out = str_chars("\"");
    push_str(&mut out, flags);
    push_str(&mut out, "\"");
    Reply::with_data("Flags successfully updated", chars_to_string(&out))
}

/// What a request to move a message does.
pub open spec fn move_message_of(
    params: Seq<(Seq<char>, Seq<char>)>,
    slots: Seq<SlotView>,
) -> StepView {
    match number_of(lookup(params, "session_id"@), usize::MAX as nat) {
        Err(e) => StepView::Reply(error_reply(e)),
        Ok(id) => match number_of(lookup(params, "message_uid"@), u32::MAX as nat) {
            Err(e) => StepView::Reply(error_reply(e)),
            Ok(uid) => match (
                id,
                lookup(params, "mailbox_path"@),
                uid,
                lookup(params, "mailbox_path_dest"@),
            ) {
                (Some(id), Some(path), Some(uid), Some(destination)) => match move_check(
                    slots,
                    id as usize,
                    path,
                    destination,
                ) {
                    Err(e) => StepView::Reply(error_reply(e)),
                    Ok(client) => StepView::Move { client, path, uid: uid as u32, destination },
                },
                _ => StepView::Reply(
                    failure(
                        "Provide session_id, mailbox_path, message_uid, and mailbox_path_dest GET parameters"@,
                    ),
                ),
            },
        },
    }
}

/// Handles a request to move a message to another mailbox: demands that
/// the `UID MOVE` be sent.
pub fn move_message(uri: &str, registry: &Registry) -> (res: Step)
    ensures
        res@ == move_message_of(params_of(uri@), registry@),
{
    let params = parse_params(String::from_str(uri));
    let id = match get_usize(params.get("session_id")) {
        Ok(id) => id,
        Err(e) => {
            return Step::Reply(error(&e));
        },
    };
    let uid = match get_u32(params.get("message_uid")) {
        Ok(uid) => uid,
        Err(e) => {
            return Step::Reply(error(&e));
        },
    };
    match (id, params.get("mailbox_path"), uid, params.get("mailbox_path_dest")) {
        (Some(id), Some(path), Some(uid), Some(destination)) => {
            match crate::facade::move_message(
                registry,
                id,
                path.as_str(),
                uid,
                destination.as_str(),
            ) {
                Err(e) => Step::Reply(error(&e)),
                Ok(command) => Step::Move(command),
            }
        },
        _ => Step::Reply(
            Reply::failed(
                "Provide session_id, mailbox_path, message_uid, and mailbox_path_dest GET parameters",
            ),
        ),
    }
}

/// The answer to a move that the server carried out.
pub fn message_moved() -> (res: Reply)
    ensures
        res@ == success("Message successfully moved"@, None),
{
    Reply::done("Message successfully moved")
}

} // verus!
