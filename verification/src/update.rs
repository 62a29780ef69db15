//! The mailbox update as a state machine. The caller talks to the server;
//! the machine says what to ask for next, takes each answer, changes the
//! cache accordingly and, at the end, reports which uids are new, which
//! changed their flags and which were removed.

use crate::error::{ApiError, ApiErrorView, ErrorKind};
use crate::flags::{flags_text, flags_to_string, Flag};
use crate::message::{message_views, Client, Message, MessageView};
use crate::schema::{
    is_mailbox, mailbox_rows, missing_parent, row_flags, row_sequence_ids, with_flag_changes,
    with_rows, with_sequence_ids, without_messages, StoreView,
};
use crate::store::{flag_views, CacheStore};
use crate::sync::{
    drifted, flag_changes, highest, highest_of, moved_uids, new_uids, next_window, removed_uids,
    tail_agrees, tail_matches, window, window_after, window_changes, window_from,
};
use crate::table::any_where;
use vstd::prelude::*;

verus! {

/// What the machine waits for.
#[derive(Clone, Copy, Debug, PartialEq, Eq, Structural)]
pub enum Phase {
    /// The answer to the probe for the highest sequence id.
    Probing,
    /// The uids of the current window.
    Scanning,
    /// The new messages of the current window.
    Inserting,
    /// The flags of all messages.
    Flagging,
    /// Nothing: the update is over.
    Finished,
}

/// The outcome of an update: the uids that are new in the cache, those
/// whose flags changed, and those that were removed, each in the order of
/// discovery.
#[derive(Clone, Debug, PartialEq, Eq)]
pub struct MailboxChanges {
    pub new: Vec<u32>,
    pub changed: Vec<u32>,
    pub removed: Vec<u32>,
}

/// What the caller is to do next.
#[derive(Clone, Debug, PartialEq, Eq)]
pub enum SyncAction {
    /// Fetch the uids of the sequence ids `start` to `end`.
    FetchUids { start: u32, end: u32 },
    /// Fetch the messages with these uids in full.
    FetchMessages { uids: Vec<u32> },
    /// Fetch the flags of all messages.
    FetchFlags,
    /// Nothing more: the update is over, with this outcome.
    Finished(MailboxChanges),
}

/// The mathematical content of a `SyncAction`.
pub enum ActionView {
    FetchUids { start: u32, end: u32 },
    FetchMessages { uids: Seq<u32> },
    FetchFlags,
    Finished { new: Seq<u32>, changed: Seq<u32>, removed: Seq<u32> },
}

impl View for SyncAction {
    type V = ActionView;

    open spec fn view(&self) -> ActionView {
        match self {
            SyncAction::FetchUids { start, end } => ActionView::FetchUids {
                start: *start,
                end: *end,
            },
            SyncAction::FetchMessages { uids } => ActionView::FetchMessages { uids: uids@ },
            SyncAction::FetchFlags => ActionView::FetchFlags,
            SyncAction::Finished(changes) => ActionView::Finished {
                new: changes.new@,
                changed: changes.changed@,
                removed: changes.removed@,
            },
        }
    }
}

/// An answer of the server.
#[derive(Clone, Debug, PartialEq, Eq)]
pub enum SyncEvent {
    /// Uid and sequence id of each message that a fetch of uids listed.
    Uids(Vec<(u32, u32)>),
    /// The messages that a fetch in full returned.
    Messages(Vec<Message>),
    /// Uid and flags of each message that a fetch of flags listed.
    Flags(Vec<(u32, Vec<Flag>)>),
}

/// The mathematical content of a `SyncEvent`. Flags stand as the canonical
/// flag string.
pub enum EventView {
    Uids(Seq<(u32, u32)>),
    Messages(Seq<MessageView>),
    Flags(Seq<(u32, Seq<char>)>),
}

/// The canonical flag strings of a list of uids with their flags.
pub open spec fn canonical_pairs(listed: Seq<(u32, Vec<Flag>)>) -> Seq<(u32, Seq<char>)> {
    Seq::new(listed.len(), |i: int| (listed[i].0, flags_text(listed[i].1@)))
}

impl View for SyncEvent {
    type V = EventView;

    open spec fn view(&self) -> EventView {
        match self {
            SyncEvent::Uids(pairs) => EventView::Uids(pairs@),
            SyncEvent::Messages(messages) => EventView::Messages(message_views(messages@)),
            SyncEvent::Flags(listed) => EventView::Flags(canonical_pairs(listed@)),
        }
    }
}

/// The state of an update.
#[derive(Clone, Debug, PartialEq, Eq)]
pub struct Update {
    pub phase: Phase,
    /// Whether the flags are left alone.
    pub quick: bool,
    pub highest_seq: u32,
    /// The first sequence id of the current window.
    pub start: u32,
    /// The last sequence id of the current window.
    pub end: u32,
    /// Sequence ids to set once the new messages of the window are stored.
    pub pending: Vec<(u32, u32)>,
    pub new_uids: Vec<u32>,
    pub removed_uids: Vec<u32>,
}

/// The mathematical content of an `Update`.
pub struct UpdateView {
    pub phase: Phase,
    pub quick: bool,
    pub highest_seq: u32,
    pub start: u32,
    pub end: u32,
    pub pending: Seq<(u32, u32)>,
    pub new_uids: Seq<u32>,
    pub removed_uids: Seq<u32>,
}

impl View for Update {
    type V = UpdateView;

    open spec fn view(&self) -> UpdateView {
        UpdateView {
            phase: self.phase,
            quick: self.quick,
            highest_seq: self.highest_seq,
            start: self.start,
            end: self.end,
            pending: self.pending@,
            new_uids: self.new_uids@,
            removed_uids: self.removed_uids@,
        }
    }
}

/// What a step leaves behind: the state, the cache and either the next
/// action or an error.
pub struct Outcome {
    pub update: UpdateView,
    pub store: StoreView,
    pub result: Result<ActionView, ApiErrorView>,
}

/// The state in which an update begins.
pub open spec fn initial_update(quick: bool) -> UpdateView {
    UpdateView {
        phase: Phase::Probing,
        quick,
        highest_seq: 0,
        start: 0,
        end: 0,
        pending: Seq::empty(),
        new_uids: Seq::empty(),
        removed_uids: Seq::empty(),
    }
}

/// The error for an answer that the machine did not wait for.
pub open spec fn unexpected_answer() -> ApiErrorView {
    ApiErrorView { kind: ErrorKind::Protocol, message: "Unexpected answer"@ }
}

/// Uid and sequence id of each cached message of a mailbox.
pub open spec fn local_pairs(
    s: StoreView,
    username: Seq<char>,
    address: Seq<char>,
    path: Seq<char>,
) -> Seq<(u32, u32)> {
    row_sequence_ids(mailbox_rows(s, username, address, path))
}

/// Uid and flag string of each cached message of a mailbox.
pub open spec fn local_flags(
    s: StoreView,
    username: Seq<char>,
    address: Seq<char>,
    path: Seq<char>,
) -> Seq<(u32, Seq<char>)> {
    row_flags(mailbox_rows(s, username, address, path))
}

/// The end of the update without a look at the flags.
pub open spec fn finish(u: UpdateView, changed: Seq<u32>) -> (UpdateView, ActionView) {
    (
        UpdateView { phase: Phase::Finished, ..u },
        ActionView::Finished { new: u.new_uids, changed, removed: u.removed_uids },
    )
}

/// What follows the last window: the end, for a quick update; the fetch of
/// the flags otherwise.
pub open spec fn after_scan(u: UpdateView) -> (UpdateView, ActionView) {
    if u.quick {
        finish(u, Seq::empty())
    } else {
        (UpdateView { phase: Phase::Flagging, ..u }, ActionView::FetchFlags)
    }
}

/// The move to a window, or to what follows the last window where there is
/// no window.
pub open spec fn to_window(u: UpdateView, next: Option<(u32, u32)>) -> (UpdateView, ActionView) {
    match next {
        Some(w) => (
            UpdateView { phase: Phase::Scanning, start: w.0, end: w.1, ..u },
            ActionView::FetchUids { start: w.0, end: w.1 },
        ),
        None => after_scan(u),
    }
}

/// The step on the answer to the probe. An empty answer means an empty
/// mailbox: the update ends with nothing to report. Where the cache agrees
/// with the server about the highest sequence id the windows are skipped.
pub open spec fn probe_step(
    u: UpdateView,
    s: StoreView,
    username: Seq<char>,
    address: Seq<char>,
    path: Seq<char>,
    probe: Seq<(u32, u32)>,
) -> Outcome {
    let next = match highest_of(probe) {
        None => finish(u, Seq::empty()),
        Some(top) => {
            let known = UpdateView { highest_seq: top.0, ..u };
            if tail_agrees(local_pairs(s, username, address, path), top.0, top.1) {
                after_scan(known)
            } else {
                to_window(known, window_from(1, top.0))
            }
        },
    };
    Outcome { update: next.0, store: s, result: Ok(next.1) }
}

/// The step on the uids of a window. The removed messages are deleted. If
/// there are new messages they are asked for, and the changed sequence ids
/// wait until these are stored; if not, the sequence ids are set, and the
/// scan goes on with the next window, or ends if no sequence id changed
/// either.
pub open spec fn window_step(
    u: UpdateView,
    s: StoreView,
    username: Seq<char>,
    address: Seq<char>,
    path: Seq<char>,
    remote: Seq<(u32, u32)>,
    now: u64,
) -> Outcome {
    let local = local_pairs(s, username, address, path);
    let removed = removed_uids(local, remote, u.start, u.end);
    let new = new_uids(local, remote);
    let moved = moved_uids(local, remote);
    let swept = without_messages(s, username, address, path, removed);
    let noted = UpdateView {
        new_uids: u.new_uids + new,
        removed_uids: u.removed_uids + removed,
        ..u
    };
    if new.len() > 0 {
        Outcome {
            update: UpdateView { phase: Phase::Inserting, pending: moved, ..noted },
            store: swept,
            result: Ok(ActionView::FetchMessages { uids: new }),
        }
    } else {
        let next = if moved.len() == 0 {
            after_scan(noted)
        } else {
            to_window(noted, window_after(u.end, u.highest_seq))
        };
        Outcome {
            update: next.0,
            store: with_sequence_ids(swept, username, address, path, moved, now),
            result: Ok(next.1),
        }
    }
}

/// The step on the new messages of a window: they are stored, the waiting
/// sequence ids are set, and the scan goes on with the next window. Without
/// the mailbox in the cache the step fails and changes nothing.
pub open spec fn insert_step(
    u: UpdateView,
    s: StoreView,
    username: Seq<char>,
    address: Seq<char>,
    path: Seq<char>,
    messages: Seq<MessageView>,
    now: u64,
) -> Outcome {
    if any_where(s.mailboxes, is_mailbox(username, address, path)) {
        let next = to_window(
            UpdateView { pending: Seq::empty(), ..u },
            window_after(u.end, u.highest_seq),
        );
        Outcome {
            update: next.0,
            store: with_sequence_ids(
                with_rows(s, username, address, path, messages, now),
                username,
                address,
                path,
                u.pending,
                now,
            ),
            result: Ok(next.1),
        }
    } else {
        Outcome { update: u, store: s, result: Err(missing_parent()) }
    }
}

/// The step on the flags of all messages: every cached message that the
/// server lists with another flag string gets the server's, and the update
/// ends.
pub open spec fn flag_step(
    u: UpdateView,
    s: StoreView,
    username: Seq<char>,
    address: Seq<char>,
    path: Seq<char>,
    listed: Seq<(u32, Seq<char>)>,
    now: u64,
) -> Outcome {
    let changes = drifted(local_flags(s, username, address, path), listed);
    let next = finish(u, changes.map_values(|pair: (u32, Seq<char>)| pair.0));
    Outcome {
        update: next.0,
        store: with_flag_changes(s, username, address, path, changes, now),
        result: Ok(next.1),
    }
}

/// The step of the machine on an answer.
pub open spec fn step(
    u: UpdateView,
    s: StoreView,
    username: Seq<char>,
    address: Seq<char>,
    path: Seq<char>,
    event: EventView,
    now: u64,
) -> Outcome {
    match (u.phase, event) {
        (Phase::Probing, EventView::Uids(probe)) => probe_step(
            u,
            s,
            username,
            address,
            path,
            probe,
        ),
        (Phase::Scanning, EventView::Uids(remote)) => window_step(
            u,
            s,
            username,
            address,
            path,
            remote,
            now,
        ),
        (Phase::Inserting, EventView::Messages(messages)) => insert_step(
            u,
            s,
            username,
            address,
            path,
            messages,
            now,
        ),
        (Phase::Flagging, EventView::Flags(listed)) => flag_step(
            u,
            s,
            username,
            address,
            path,
            listed,
            now,
        ),
        _ => Outcome { update: u, store: s, result: Err(unexpected_answer()) },
    }
}

/// An update of an empty mailbox ends at once: the answer to the probe is
/// empty, the machine reports no new, changed or removed uid, and the
/// cache stays as it is.
pub proof fn lemma_empty_mailbox(
    quick: bool,
    s: StoreView,
    username: Seq<char>,
    address: Seq<char>,
    path: Seq<char>,
    now: u64,
)
    ensures
        step(
            initial_update(quick),
            s,
            username,
            address,
            path,
            EventView::Uids(Seq::empty()),
            now,
        ) == (Outcome {
            update: UpdateView { phase: Phase::Finished, ..initial_update(quick) },
            store: s,
            result: Ok(
                ActionView::Finished {
                    new: Seq::empty(),
                    changed: Seq::empty(),
                    removed: Seq::empty(),
                },
            ),
        }),
{
}

/// A run of the machine: the state and the cache after the given answers
/// were taken in turn, and what each step resulted in.
pub open spec fn run(
    u: UpdateView,
    s: StoreView,
    username: Seq<char>,
    address: Seq<char>,
    path: Seq<char>,
    events: Seq<EventView>,
    now: u64,
) -> (UpdateView, StoreView, Seq<Result<ActionView, ApiErrorView>>)
    decreases events.len(),
{
    if events.len() == 0 {
        (u, s, Seq::empty())
    } else {
        let before = run(u, s, username, address, path, events.drop_last(), now);
        let last = step(before.0, before.1, username, address, path, events.last(), now);
        (last.update, last.store, before.2.push(last.result))
    }
}

/// An update that is driven again after a drop of the connection: where
/// the drop came before the cache was changed, the second run is the run
/// that would have taken place without the drop. The step on the answer to
/// the probe changes nothing in the cache, so this holds of every drop up
/// to the first answer to a fetch of a window; and the first transport
/// failure of an operation is answered with a reconnect. After a window
/// was applied the cache is another one, and so may the second run be.
pub proof fn lemma_driven_again(
    quick: bool,
    s: StoreView,
    username: Seq<char>,
    address: Seq<char>,
    path: Seq<char>,
    probe: Seq<(u32, u32)>,
    events: Seq<EventView>,
    now: u64,
    failure: crate::retry::ImapFailure,
)
    requires
        crate::retry::is_transport(failure),
    ensures
        crate::retry::recovery(failure, false) == crate::retry::Recovery::Reconnect,
        step(initial_update(quick), s, username, address, path, EventView::Uids(probe), now).store
            == s,
        run(
            initial_update(quick),
            step(
                initial_update(quick),
                s,
                username,
                address,
                path,
                EventView::Uids(probe),
                now,
            ).store,
            username,
            address,
            path,
            events,
            now,
        ) == run(initial_update(quick), s, username, address, path, events, now),
{
}

/// The view of a result of a step.
pub open spec fn result_view(res: Result<SyncAction, ApiError>) -> Result<ActionView, ApiErrorView> {
    match res {
        Ok(action) => Ok(action@),
        Err(error) => Err(error@),
    }
}

fn copy_uids(uids: &Vec<u32>) -> (res: Vec<u32>)
    ensures
        res@ == uids@,
{
    let mut out: Vec<u32> = Vec::new();
    let mut i: usize = 0;
    while i < uids.len()
        invariant
            i <= uids.len(),
            out@ == uids@.take(i as int),
        decreases uids.len() - i,
    {
        out.push(uids[i]);
        i += 1;
        assert(out@ =~= uids@.take(i as int));
    }
    assert(uids@.take(uids.len() as int) =~= uids@);
    out
}

fn extend_uids(out: &mut Vec<u32>, more: &Vec<u32>)
    ensures
        final(out)@ == old(out)@ + more@,
{
    let mut i: usize = 0;
    assert(out@ =~= old(out)@ + more@.take(0));
    while i < more.len()
        invariant
            i <= more.len(),
            out@ == old(out)@ + more@.take(i as int),
        decreases more.len() - i,
    {
        out.push(more[i]);
        i += 1;
        assert(out@ =~= old(out)@ + more@.take(i as int));
    }
    assert(more@.take(more.len() as int) =~= more@);
}

impl Update {
    /// Begins an update: the machine waits for the answer to the probe, and
    /// the caller is to fetch the uids of the two highest sequence ids
    /// there are.
    pub fn begin(quick: bool) -> (res: (Update, SyncAction))
        ensures
            res.0@ == initial_update(quick),
            res.1@ == (ActionView::FetchUids { start: 0xffff_fffeu32, end: 0xffff_ffffu32 }),
    {
        let range = crate::sync::probe_range();
        (
            Update {
                phase: Phase::Probing,
                quick,
                highest_seq: 0,
                start: 0,
                end: 0,
                pending: Vec::new(),
                new_uids: Vec::new(),
                removed_uids: Vec::new(),
            },
            SyncAction::FetchUids { start: range.0, end: range.1 },
        )
    }

    fn finish(&mut self, changed: Vec<u32>) -> (res: SyncAction)
        ensures
            (final(self)@, res@) == finish(old(self)@, changed@),
    {
        self.phase = Phase::Finished;
        SyncAction::Finished(
            MailboxChanges {
                new: copy_uids(&self.new_uids),
                changed,
                removed: copy_uids(&self.removed_uids),
            },
        )
    }

    fn after_scan(&mut self) -> (res: SyncAction)
        ensures
            (final(self)@, res@) == after_scan(old(self)@),
    {
        if self.quick {
            self.finish(Vec::new())
        } else {
            self.phase = Phase::Flagging;
            SyncAction::FetchFlags
        }
    }

    fn to_window(&mut self, next: Option<(u32, u32)>) -> (res: SyncAction)
        ensures
            (final(self)@, res@) == to_window(old(self)@, next),
    {
        match next {
            Some(w) => {
                self.phase = Phase::Scanning;
                self.start = w.0;
                self.end = w.1;
                SyncAction::FetchUids { start: w.0, end: w.1 }
            },
            None => self.after_scan(),
        }
    }

    fn on_probe(&mut self, store: &CacheStore, client: &Client, path: &str, probe: &Vec<(u32, u32)>)
        -> (res: SyncAction)
        ensures
            final(self)@ == probe_step(
                old(self)@,
                store@,
                client@.username,
                client@.address,
                path@,
                probe@,
            ).update,
            Ok::<ActionView, ApiErrorView>(res@) == probe_step(
                old(self)@,
                store@,
                client@.username,
                client@.address,
                path@,
                probe@,
            ).result,
    {
        match highest(probe) {
            None => self.finish(Vec::new()),
            Some(top) => {
                self.highest_seq = top.0;
                let local = store.sequence_ids(client, path);
                if tail_matches(&local, top.0, top.1) {
                    self.after_scan()
                } else {
                    self.to_window(window(1, top.0))
                }
            },
        }
    }

    fn on_window(
        &mut self,
        store: &mut CacheStore,
        client: &Client,
        path: &str,
        remote: &Vec<(u32, u32)>,
        now: u64,
    ) -> (res: SyncAction)
        requires
            old(store).wf(),
        ensures
            final(store).wf(),
            (Outcome {
                update: final(self)@,
                store: final(store)@,
                result: Ok::<ActionView, ApiErrorView>(res@),
            }) == window_step(
                old(self)@,
                old(store)@,
                client@.username,
                client@.address,
                path@,
                remote@,
                now,
            ),
    {
        let local = store.sequence_ids(client, path);
        let changes = window_changes(&local, remote, self.start, self.end);
        store.delete_messages(client, path, &changes.removed);
        extend_uids(&mut self.new_uids, &changes.new);
        extend_uids(&mut self.removed_uids, &changes.removed);
        if changes.new.len() > 0 {
            self.phase = Phase::Inserting;
            self.pending = changes.changed;
            SyncAction::FetchMessages { uids: changes.new }
        } else {
            store.update_sequence_ids(client, path, &changes.changed, now);
            if changes.changed.len() == 0 {
                self.after_scan()
            } else {
                let next = next_window(self.end, self.highest_seq);
                self.to_window(next)
            }
        }
    }

    fn on_messages(
        &mut self,
        store: &mut CacheStore,
        client: &Client,
        path: &str,
        messages: &Vec<Message>,
        now: u64,
    ) -> (res: Result<SyncAction, ApiError>)
        requires
            old(store).wf(),
        ensures
            final(store).wf(),
            (Outcome {
                update: final(self)@,
                store: final(store)@,
                result: result_view(res),
            }) == insert_step(
                old(self)@,
                old(store)@,
                client@.username,
                client@.address,
                path@,
                message_views(messages@),
                now,
            ),
    {
        match store.put_messages(client, path, messages, now) {
            Err(error) => Err(error),
            Ok(()) => {
                store.update_sequence_ids(client, path, &self.pending, now);
                self.pending = Vec::new();
                let next = next_window(self.end, self.highest_seq);
                Ok(self.to_window(next))
            },
        }
    }

    fn on_flags(
        &mut self,
        store: &mut CacheStore,
        client: &Client,
        path: &str,
        listed: &Vec<(u32, Vec<Flag>)>,
        now: u64,
    ) -> (res: SyncAction)
        requires
            old(store).wf(),
        ensures
            final(store).wf(),
            (Outcome {
                update: final(self)@,
                store: final(store)@,
                result: Ok::<ActionView, ApiErrorView>(res@),
            }) == flag_step(
                old(self)@,
                old(store)@,
                client@.username,
                client@.address,
                path@,
                canonical_pairs(listed@),
                now,
            ),
    {
        let mut remote: Vec<(u32, String)> = Vec::new();
        let mut i: usize = 0;
        assert(flag_views(remote@) =~= canonical_pairs(listed@).take(0));
        while i < listed.len()
            invariant
                i <= listed.len(),
                flag_views(remote@) == canonical_pairs(listed@).take(i as int),
            decreases listed.len() - i,
        {
            let text = flags_to_string(listed[i].1.as_slice());
            let ghost before = remote@;
            assert(text@ == flags_text(listed@[i as int].1@));
            remote.push((listed[i].0, text));
            assert(flag_views(remote@) =~= flag_views(before).push(
                (listed@[i as int].0, flags_text(listed@[i as int].1@)),
            ));
            assert(canonical_pairs(listed@).take(i + 1) =~= canonical_pairs(listed@).take(
                i as int,
            ).push((listed@[i as int].0, flags_text(listed@[i as int].1@))));
            i += 1;
        }
        assert(canonical_pairs(listed@).take(listed.len() as int) =~= canonical_pairs(listed@));
        let local = store.flags_snapshot(client, path);
        let changes = flag_changes(&local, &remote);
        store.update_flag_strings(client, path, &changes, now);
        let ghost uid = |pair: (u32, Seq<char>)| pair.0;
        let mut changed: Vec<u32> = Vec::new();
        let mut k: usize = 0;
        while k < changes.len()
            invariant
                k <= changes.len(),
                uid == |pair: (u32, Seq<char>)| pair.0,
                changed@ == flag_views(changes@).map_values(uid).take(k as int),
            decreases changes.len() - k,
        {
            changed.push(changes[k].0);
            k += 1;
            assert(changed@ =~= flag_views(changes@).map_values(uid).take(k as int));
        }
        assert(flag_views(changes@).map_values(uid).take(changes.len() as int) =~= flag_views(
            changes@,
        ).map_values(uid));
        self.finish(changed)
    }

    /// Takes an answer of the server: changes the cache as the answer
    /// demands and says what to do next. An answer that the machine did not
    /// wait for is an error and changes nothing.
    pub fn advance(
        &mut self,
        store: &mut CacheStore,
        client: &Client,
        path: &str,
        event: &SyncEvent,
        now: u64,
    ) -> (res: Result<SyncAction, ApiError>)
        requires
            old(store).wf(),
        ensures
            final(store).wf(),
            (Outcome {
                update: final(self)@,
                store: final(store)@,
                result: result_view(res),
            }) == step(
                old(self)@,
                old(store)@,
                client@.username,
                client@.address,
                path@,
                event@,
                now,
            ),
    {
        match event {
            SyncEvent::Uids(pairs) => {
                match self.phase {
                    Phase::Probing => Ok(self.on_probe(store, client, path, pairs)),
                    Phase::Scanning => Ok(self.on_window(store, client, path, pairs, now)),
                    _ => Err(ApiError::new(ErrorKind::Protocol, "Unexpected answer")),
                }
            },
            SyncEvent::Messages(messages) => {
                match self.phase {
                    Phase::Inserting => self.on_messages(store, client, path, messages, now),
                    _ => Err(ApiError::new(ErrorKind::Protocol, "Unexpected answer")),
                }
            },
            SyncEvent::Flags(listed) => {
                match self.phase {
                    Phase::Flagging => Ok(self.on_flags(store, client, path, listed, now)),
                    _ => Err(ApiError::new(ErrorKind::Protocol, "Unexpected answer")),
                }
            },
        }
    }
}

} // verus!
