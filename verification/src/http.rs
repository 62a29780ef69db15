//! The front door: which route a request names, what its query string is,
//! and the response that carries an answer.

use crate::display::{failure, Reply};
use crate::handlers::{
    get_mailboxes, get_messages_sorted, get_messages_with_flag, get_messages_with_uids,
    get_sessions, login, login_of, logout, logout_of, mailboxes_of, messages_sorted_of,
    messages_with_flag_of, messages_with_uids_of, modify_flags, modify_flags_of, move_message,
    move_message_of, params_of, update_mailbox, update_mailbox_of, update_mailboxes,
    update_mailboxes_of, Step, StepView,
};
use crate::number::{decimal_text, push_decimal};
use crate::registry::{live_sessions, Registry, SlotView};
use crate::schema::{StoreView};
use crate::store::{CacheStore};
use crate::text::{
    before_text, chars_to_string, find_text, push_str, split, split_on, str_chars, texts,
};
use vstd::prelude::*;
use vstd::string::StringExecFns;

verus! {

/// The routes of the request layer.
#[derive(Clone, Copy, Debug, PartialEq, Eq, Structural)]
pub enum Route {
    Login,
    Logout,
    Sessions,
    Mailboxes,
    UpdateMailboxes,
    MessagesWithUids,
    MessagesSorted,
    MessagesWithFlag,
    UpdateMailbox,
    ModifyFlags,
    MoveMessage,
    NotFound,
}

/// The route that a path names.
pub open spec fn route_of(path: Seq<char>) -> Route {
    if path == "/login"@ {
        Route::Login
    } else if path == "/logout"@ {
        Route::Logout
    } else if path == "/sessions"@ {
        Route::Sessions
    } else if path == "/mailboxes"@ {
        Route::Mailboxes
    } else if path == "/update_mailboxes"@ {
        Route::UpdateMailboxes
    } else if path == "/messages_with_uids"@ {
        Route::MessagesWithUids
    } else if path == "/messages_sorted"@ {
        Route::MessagesSorted
    } else if path == "/messages_with_flag"@ {
        Route::MessagesWithFlag
    } else if path == "/update_mailbox"@ {
        Route::UpdateMailbox
    } else if path == "/modify_flags"@ {
        Route::ModifyFlags
    } else if path == "/move_message"@ {
        Route::MoveMessage
    } else {
        Route::NotFound
    }
}

fn is(path: &String, name: &str) -> (res: bool)
    ensures
        res == (path@ == name@),
{
    let name = String::from_str(name);
    *path == name
}

/// The route that a path names.
pub fn route(path: &str) -> (res: Route)
    ensures
        res == route_of(path@),
{
    let path = String::from_str(path);
    if is(&path, "/login") {
        Route::Login
    } else if is(&path, "/logout") {
        Route::Logout
    } else if is(&path, "/sessions") {
        Route::Sessions
    } else if is(&path, "/mailboxes") {
        Route::Mailboxes
    } else if is(&path, "/update_mailboxes") {
        Route::UpdateMailboxes
    } else if is(&path, "/messages_with_uids") {
        Route::MessagesWithUids
    } else if is(&path, "/messages_sorted") {
        Route::MessagesSorted
    } else if is(&path, "/messages_with_flag") {
        Route::MessagesWithFlag
    } else if is(&path, "/update_mailbox") {
        Route::UpdateMailbox
    } else if is(&path, "/modify_flags") {
        Route::ModifyFlags
    } else if is(&path, "/move_message") {
        Route::MoveMessage
    } else {
        Route::NotFound
    }
}

/// The second of the pieces, or the empty text where there is none.
pub open spec fn second(pieces: Seq<Seq<char>>) -> Seq<char> {
    if pieces.len() > 1 {
        pieces[1]
    } else {
        Seq::<char>::empty()
    }
}

/// The target of a request: the second word of its first line, which ends
/// at the first carriage return that a line feed follows.
pub open spec fn target_of(request: Seq<char>) -> Seq<char> {
    second(split_on(before_text(request, "\r\n"@), ' '))
}

/// The path of a request: its target up to the first question mark.
pub open spec fn path_of(request: Seq<char>) -> Seq<char> {
    split_on(target_of(request), '?')[0]
}

/// The query string of a request: what stands between the first and the
/// second question mark of its target.
pub open spec fn query_of(request: Seq<char>) -> Seq<char> {
    second(split_on(target_of(request), '?'))
}

/// Reads the path and the query string out of a request.
pub fn request_target(request: &str) -> (res: (String, String))
    ensures
        res.0@ == path_of(request@),
        res.1@ == query_of(request@),
{
    let chars = str_chars(request);
    let end = find_text(&chars, &str_chars("\r\n"), 0);
    let first = crate::text::slice_chars(&chars, 0, end);
    let words = split(&first, ' ');
    let target: Vec<char> = if words.len() > 1 {
        crate::text::copy_chars(&words[1])
    } else {
        Vec::new()
    };
    assert(target@ == second(texts(words@)));
    let halves = split(&target, '?');
    let query: Vec<char> = if halves.len() > 1 {
        crate::text::copy_chars(&halves[1])
    } else {
        Vec::new()
    };
    assert(query@ == second(texts(halves@)));
    assert(halves@[0]@ == texts(halves@)[0]);
    (chars_to_string(&halves[0]), chars_to_string(&query))
}

/// The response that carries an answer: a status line, the length of the
/// answer in bytes, an empty line and the answer.
pub open spec fn response_text(data: &str) -> Seq<char> {
    "HTTP/1.1 200 OK\r\nContent-Length: "@ + decimal_text(data.len() as nat) + "\r\n\r\n"@
        + data@
}

/// Builds the response that carries an answer.
pub fn http_response(data: &str) -> (res: String)
    ensures
        res@ == response_text(data),
{
    let mut out = str_chars("HTTP/1.1 200 OK\r\nContent-Length: ");
    push_decimal(&mut out, data.len() as u64);
    push_str(&mut out, "\r\n\r\n");
    push_str(&mut out, data);
    chars_to_string(&out)
}

/// What a request does.
pub open spec fn request_step(
    path: Seq<char>,
    query: Seq<char>,
    slots: Seq<SlotView>,
    s: StoreView,
) -> StepView {
    let params = params_of(query);
    match route_of(path) {
        Route::Login => login_of(params, slots),
        Route::Logout => logout_of(params, slots),
        Route::Sessions => StepView::Reply(
            crate::display::success(
                "Sessions retrieved"@,
                Some(
                    crate::display::list_text(
                        crate::display::session_texts(live_sessions(slots, slots.len() as int)),
                    ),
                ),
            ),
        ),
        Route::Mailboxes => mailboxes_of(params, slots, s),
        Route::UpdateMailboxes => update_mailboxes_of(params, slots),
        Route::MessagesWithUids => StepView::Reply(messages_with_uids_of(params, slots, s)),
        Route::MessagesSorted => StepView::Reply(messages_sorted_of(params, slots, s)),
        Route::MessagesWithFlag => StepView::Reply(messages_with_flag_of(params, slots, s)),
        Route::UpdateMailbox => update_mailbox_of(params, slots),
        Route::ModifyFlags => modify_flags_of(params, slots),
        Route::MoveMessage => move_message_of(params, slots),
        Route::NotFound => StepView::Reply(failure("Not Found"@)),
    }
}

/// Handles a request: finds its route and lets the handler of the route
/// decide. An unknown route is answered with a failure.
pub fn handle_request(path: &str, query: &str, registry: &mut Registry, store: &CacheStore) -> (res:
    Step)
    requires
        old(registry).wf(),
    ensures
        final(registry).wf(),
        res@ == request_step(path@, query@, old(registry)@, store@),
        res@ is Close || final(registry)@ == old(registry)@,
{
    match route(path) {
        Route::Login => login(query, registry),
        Route::Logout => logout(query, registry),
        Route::Sessions => Step::Reply(get_sessions(registry)),
        Route::Mailboxes => get_mailboxes(query, registry, store),
        Route::UpdateMailboxes => update_mailboxes(query, registry),
        Route::MessagesWithUids => Step::Reply(get_messages_with_uids(query, registry, store)),
        Route::MessagesSorted => Step::Reply(get_messages_sorted(query, registry, store)),
        Route::MessagesWithFlag => Step::Reply(get_messages_with_flag(query, registry, store)),
        Route::UpdateMailbox => update_mailbox(query, registry),
        Route::ModifyFlags => modify_flags(query, registry),
        Route::MoveMessage => move_message(query, registry),
        Route::NotFound => Step::Reply(Reply::failed("Not Found")),
    }
}

} // verus!
