//! What an update of a mailbox achieves, stated of the cache: after a
//! window was processed, the cached messages whose sequence id lies in the
//! window are exactly the messages that the server lists for the window,
//! each under the server's sequence id.

use crate::message::{MessageView, RowView};
use crate::schema::{
    in_mailbox, is_mailbox, is_row, not_where, same_row, well_formed, with_message,
    with_messages, with_rows, with_sequence_id, with_sequence_ids, without_message,
    without_messages, StoreView,
};
use crate::sync::{
    has_uid, is_moved, is_new, is_removed, lists, moved_uids, new_uids, removed_uids,
    sequence_id_of, uids_of,
};
use crate::table::{
    all_differ, any_where, first_where, kept, lemma_any_where, lemma_first_where,
    lemma_first_where_alike, lemma_kept, lemma_kept_differ,
};
use crate::update::{insert_step, local_pairs, window_step, UpdateView};
use vstd::prelude::*;

verus! {

/// The sequence id under which the cache holds a message of a mailbox, if
/// it holds the message.
pub open spec fn stored_sequence_id(
    s: StoreView,
    username: Seq<char>,
    address: Seq<char>,
    path: Seq<char>,
    uid: u32,
) -> Option<u32> {
    let at = first_where(s.messages, is_row(username, address, path, uid), 0);
    if at < s.messages.len() {
        Some(s.messages[at].message.sequence_id)
    } else {
        None
    }
}

/// In a table without two rows of the same key, a row with a given key is
/// the first row with this key.
pub proof fn lemma_row_is_first(
    rows: Seq<RowView>,
    username: Seq<char>,
    address: Seq<char>,
    path: Seq<char>,
    uid: u32,
    at: int,
)
    requires
        all_differ(rows, same_row()),
        0 <= at < rows.len(),
        is_row(username, address, path, uid)(rows[at]),
    ensures
        first_where(rows, is_row(username, address, path, uid), 0) == at,
{
    let wanted = is_row(username, address, path, uid);
    lemma_first_where(rows, wanted, 0);
    lemma_any_where(rows, wanted, at);
    let first = first_where(rows, wanted, 0);
    if first < at {
        assert(same_row()(rows[first], rows[at]));
    }
}

/// The uids and sequence ids that the cache lists for a mailbox are those
/// of its stored messages, and no uid is listed twice.
pub proof fn lemma_local_pairs(
    s: StoreView,
    username: Seq<char>,
    address: Seq<char>,
    path: Seq<char>,
    uid: u32,
)
    requires
        all_differ(s.messages, same_row()),
    ensures
        lists(local_pairs(s, username, address, path), uid) <==> stored_sequence_id(
            s,
            username,
            address,
            path,
            uid,
        ) is Some,
        lists(local_pairs(s, username, address, path), uid) ==> stored_sequence_id(
            s,
            username,
            address,
            path,
            uid,
        ) == Some(sequence_id_of(local_pairs(s, username, address, path), uid)),
        forall|i: int|
            0 <= i < local_pairs(s, username, address, path).len() && (#[trigger] local_pairs(
                s,
                username,
                address,
                path,
            )[i]).0 == uid ==> i == first_where(
                local_pairs(s, username, address, path),
                has_uid(uid),
                0,
            ),
{
    let inside = in_mailbox(username, address, path);
    let rows = kept(s.messages, inside);
    let pairs = local_pairs(s, username, address, path);
    let wanted = is_row(username, address, path, uid);
    lemma_kept(s.messages, inside);
    lemma_kept_differ(s.messages, inside, same_row());
    lemma_first_where(pairs, has_uid(uid), 0);
    lemma_first_where(s.messages, wanted, 0);
    assert(pairs.len() == rows.len());
    assert forall|i: int| 0 <= i < pairs.len() implies (#[trigger] pairs[i])
        == (rows[i].message.message_uid, rows[i].message.sequence_id) by {}
    let first = first_where(pairs, has_uid(uid), 0);
    if first < pairs.len() {
        assert(pairs[first].0 == uid);
        assert(s.messages.contains(rows[first]));
        let j = choose|j: int| 0 <= j < s.messages.len() && s.messages[j] == rows[first];
        assert(wanted(s.messages[j]));
        lemma_row_is_first(s.messages, username, address, path, uid, j);
    }
    let at = first_where(s.messages, wanted, 0);
    if at < s.messages.len() {
        assert(inside(s.messages[at]));
        assert(rows.contains(s.messages[at]));
        let k = choose|k: int| 0 <= k < rows.len() && rows[k] == s.messages[at];
        assert(pairs[k].0 == uid);
        lemma_any_where(pairs, has_uid(uid), k);
    }
    assert forall|i: int| 0 <= i < pairs.len() && (#[trigger] pairs[i]).0 == uid implies i
        == first by {
        if i != first {
            assert(pairs[first].0 == uid);
            let lo = if i < first {
                i
            } else {
                first
            };
            let hi = if i < first {
                first
            } else {
                i
            };
            assert(wanted(rows[lo]) && wanted(rows[hi]));
            assert(same_row()(rows[lo], rows[hi]));
        }
    }
}

/// Deleting a message leaves the other messages of the mailbox as they
/// are.
pub proof fn lemma_stored_without_message(
    s: StoreView,
    username: Seq<char>,
    address: Seq<char>,
    path: Seq<char>,
    gone: u32,
    uid: u32,
)
    requires
        all_differ(s.messages, same_row()),
    ensures
        all_differ(without_message(s, username, address, path, gone).messages, same_row()),
        stored_sequence_id(
            without_message(s, username, address, path, gone),
            username,
            address,
            path,
            uid,
        ) == if uid == gone {
            None
        } else {
            stored_sequence_id(s, username, address, path, uid)
        },
{
    let stays = not_where(is_row(username, address, path, gone));
    let after = kept(s.messages, stays);
    let wanted = is_row(username, address, path, uid);
    lemma_kept(s.messages, stays);
    lemma_kept_differ(s.messages, stays, same_row());
    lemma_first_where(after, wanted, 0);
    lemma_first_where(s.messages, wanted, 0);
    let first = first_where(after, wanted, 0);
    let at = first_where(s.messages, wanted, 0);
    if first < after.len() {
        assert(stays(after[first]));
        assert(s.messages.contains(after[first]));
        let j = choose|j: int| 0 <= j < s.messages.len() && s.messages[j] == after[first];
        lemma_row_is_first(s.messages, username, address, path, uid, j);
    } else if uid != gone && at < s.messages.len() {
        assert(stays(s.messages[at]));
        assert(after.contains(s.messages[at]));
        let k = choose|k: int| 0 <= k < after.len() && after[k] == s.messages[at];
        lemma_any_where(after, wanted, k);
    }
}

/// Deleting messages leaves the other messages of the mailbox as they are.
pub proof fn lemma_stored_without_messages(
    s: StoreView,
    username: Seq<char>,
    address: Seq<char>,
    path: Seq<char>,
    gone: Seq<u32>,
    uid: u32,
)
    requires
        all_differ(s.messages, same_row()),
    ensures
        all_differ(without_messages(s, username, address, path, gone).messages, same_row()),
        without_messages(s, username, address, path, gone).mailboxes == s.mailboxes,
        stored_sequence_id(
            without_messages(s, username, address, path, gone),
            username,
            address,
            path,
            uid,
        ) == if gone.contains(uid) {
            None
        } else {
            stored_sequence_id(s, username, address, path, uid)
        },
    decreases gone.len(),
{
    if gone.len() > 0 {
        let front = gone.drop_last();
        lemma_stored_without_messages(s, username, address, path, front, uid);
        let before = without_messages(s, username, address, path, front);
        lemma_stored_without_message(before, username, address, path, gone.last(), uid);
        if gone.contains(uid) {
            let i = choose|i: int| 0 <= i < gone.len() && gone[i] == uid;
            if i < gone.len() - 1 {
                assert(front[i] == uid);
            }
        } else {
            if front.contains(uid) {
                let i = choose|i: int| 0 <= i < front.len() && front[i] == uid;
                assert(gone[i] == uid);
            }
            assert(gone[gone.len() - 1] != uid);
        }
    }
}

/// Setting the sequence id of a message sets it where the message is
/// stored and leaves the other messages of the mailbox as they are.
pub proof fn lemma_stored_with_sequence_id(
    s: StoreView,
    username: Seq<char>,
    address: Seq<char>,
    path: Seq<char>,
    moved: u32,
    sequence_id: u32,
    now: u64,
    uid: u32,
)
    requires
        all_differ(s.messages, same_row()),
    ensures
        all_differ(
            with_sequence_id(s, username, address, path, moved, sequence_id, now).messages,
            same_row(),
        ),
        with_sequence_id(s, username, address, path, moved, sequence_id, now).mailboxes
            == s.mailboxes,
        stored_sequence_id(
            with_sequence_id(s, username, address, path, moved, sequence_id, now),
            username,
            address,
            path,
            uid,
        ) == if uid == moved && stored_sequence_id(s, username, address, path, uid) is Some {
            Some(sequence_id)
        } else {
            stored_sequence_id(s, username, address, path, uid)
        },
{
    let t = with_sequence_id(s, username, address, path, moved, sequence_id, now);
    let wanted = is_row(username, address, path, uid);
    let target = is_row(username, address, path, moved);
    let at = first_where(s.messages, target, 0);
    lemma_first_where(s.messages, target, 0);
    lemma_first_where(s.messages, wanted, 0);
    if at < s.messages.len() {
        assert forall|i: int| 0 <= i < s.messages.len() implies wanted(#[trigger] s.messages[i])
            == wanted(t.messages[i]) by {}
        lemma_first_where_alike(s.messages, t.messages, wanted, 0);
        assert forall|i: int, j: int| 0 <= i < j < t.messages.len() implies !same_row()(
            #[trigger] t.messages[i],
            #[trigger] t.messages[j],
        ) by {
            assert(!same_row()(s.messages[i], s.messages[j]));
        }
        let first = first_where(s.messages, wanted, 0);
        if first < s.messages.len() && uid != moved {
            assert(first != at);
        }
        if first < s.messages.len() && uid == moved {
            assert(first == at);
        }
    }
}

/// Whether no uid occurs twice among the changes.
pub open spec fn distinct_uids(pairs: Seq<(u32, u32)>) -> bool {
    forall|i: int, j: int|
        0 <= i < j < pairs.len() ==> (#[trigger] pairs[i]).0 != (#[trigger] pairs[j]).0
}

/// Setting sequence ids, each uid at most once, sets them where the
/// messages are stored and leaves the other messages of the mailbox as
/// they are.
pub proof fn lemma_stored_with_sequence_ids(
    s: StoreView,
    username: Seq<char>,
    address: Seq<char>,
    path: Seq<char>,
    changes: Seq<(u32, u32)>,
    now: u64,
    uid: u32,
)
    requires
        all_differ(s.messages, same_row()),
        distinct_uids(changes),
    ensures
        all_differ(
            with_sequence_ids(s, username, address, path, changes, now).messages,
            same_row(),
        ),
        with_sequence_ids(s, username, address, path, changes, now).mailboxes == s.mailboxes,
        stored_sequence_id(
            with_sequence_ids(s, username, address, path, changes, now),
            username,
            address,
            path,
            uid,
        ) == if lists(changes, uid) && stored_sequence_id(s, username, address, path, uid)
            is Some {
            Some(sequence_id_of(changes, uid))
        } else {
            stored_sequence_id(s, username, address, path, uid)
        },
    decreases changes.len(),
{
    lemma_first_where(changes, has_uid(uid), 0);
    if changes.len() > 0 {
        let front = changes.drop_last();
        let last = changes.last();
        assert forall|i: int, j: int| 0 <= i < j < front.len() implies (#[trigger] front[i]).0 != (
        #[trigger] front[j]).0 by {
            assert(changes[i].0 != changes[j].0);
        }
        lemma_stored_with_sequence_ids(s, username, address, path, front, now, uid);
        let before = with_sequence_ids(s, username, address, path, front, now);
        lemma_stored_with_sequence_id(before, username, address, path, last.0, last.1, now, uid);
        lemma_first_where(front, has_uid(uid), 0);
        let at = first_where(changes, has_uid(uid), 0);
        let in_front = first_where(front, has_uid(uid), 0);
        if in_front < front.len() {
            assert(changes[in_front] == front[in_front]);
            lemma_any_where(changes, has_uid(uid), in_front);
            assert(changes[in_front].0 != changes[changes.len() - 1].0);
            if at < in_front {
                assert(front[at] == changes[at]);
            }
        } else if last.0 == uid {
            lemma_any_where(changes, has_uid(uid), changes.len() - 1);
            if at < changes.len() - 1 {
                assert(front[at] == changes[at]);
            }
        } else {
            if at < changes.len() {
                if at < changes.len() - 1 {
                    assert(front[at] == changes[at]);
                }
            }
        }
    }
}

/// Putting a message stores it under its sequence id and leaves the other
/// messages of the mailbox as they are.
pub proof fn lemma_stored_with_message(
    s: StoreView,
    username: Seq<char>,
    address: Seq<char>,
    path: Seq<char>,
    message: MessageView,
    now: u64,
    uid: u32,
)
    requires
        all_differ(s.messages, same_row()),
    ensures
        all_differ(with_message(s.messages, username, address, path, message, now), same_row()),
        stored_sequence_id(
            StoreView {
                messages: with_message(s.messages, username, address, path, message, now),
                ..s
            },
            username,
            address,
            path,
            uid,
        ) == if uid == message.message_uid {
            Some(message.sequence_id)
        } else {
            stored_sequence_id(s, username, address, path, uid)
        },
{
    let rows = s.messages;
    let after = with_message(rows, username, address, path, message, now);
    let wanted = is_row(username, address, path, uid);
    let target = is_row(username, address, path, message.message_uid);
    let at = first_where(rows, target, 0);
    lemma_first_where(rows, target, 0);
    lemma_first_where(rows, wanted, 0);
    lemma_first_where(after, wanted, 0);
    assert forall|i: int, j: int| 0 <= i < j < after.len() implies !same_row()(
        #[trigger] after[i],
        #[trigger] after[j],
    ) by {
        if at < rows.len() {
            assert(!same_row()(rows[i], rows[j]));
        } else if j < rows.len() {
            assert(!same_row()(rows[i], rows[j]));
        } else {
            assert(!target(rows[i]));
        }
    }
    if at < rows.len() {
        assert forall|i: int| 0 <= i < rows.len() implies wanted(#[trigger] rows[i]) == wanted(
            after[i],
        ) by {}
        lemma_first_where_alike(rows, after, wanted, 0);
        let first = first_where(rows, wanted, 0);
        if first < rows.len() && uid != message.message_uid {
            assert(first != at);
        }
        if uid == message.message_uid {
            assert(first == at);
        }
    } else {
        let first = first_where(after, wanted, 0);
        if uid == message.message_uid {
            lemma_any_where(after, wanted, rows.len() as int);
            if first < rows.len() {
                assert(after[first] == rows[first]);
            }
        } else {
            let before = first_where(rows, wanted, 0);
            if before < rows.len() {
                assert(after[before] == rows[before]);
                lemma_any_where(after, wanted, before);
                if first < before {
                    assert(after[first] == rows[first]);
                }
            } else if first < after.len() {
                if first < rows.len() {
                    assert(after[first] == rows[first]);
                }
            }
        }
    }
}

/// Uid and sequence id of each message of a list.
pub open spec fn message_pairs(messages: Seq<MessageView>) -> Seq<(u32, u32)> {
    messages.map_values(|m: MessageView| (m.message_uid, m.sequence_id))
}

/// Putting messages, each uid at most once, stores each under its sequence
/// id and leaves the other messages of the mailbox as they are.
pub proof fn lemma_stored_with_messages(
    s: StoreView,
    username: Seq<char>,
    address: Seq<char>,
    path: Seq<char>,
    messages: Seq<MessageView>,
    now: u64,
    uid: u32,
)
    requires
        all_differ(s.messages, same_row()),
        distinct_uids(message_pairs(messages)),
    ensures
        all_differ(with_messages(s.messages, username, address, path, messages, now), same_row()),
        stored_sequence_id(
            StoreView {
                messages: with_messages(s.messages, username, address, path, messages, now),
                ..s
            },
            username,
            address,
            path,
            uid,
        ) == if lists(message_pairs(messages), uid) {
            Some(sequence_id_of(message_pairs(messages), uid))
        } else {
            stored_sequence_id(s, username, address, path, uid)
        },
    decreases messages.len(),
{
    let pairs = message_pairs(messages);
    lemma_first_where(pairs, has_uid(uid), 0);
    if messages.len() > 0 {
        let front = messages.drop_last();
        let last = messages.last();
        let front_pairs = message_pairs(front);
        assert(front_pairs =~= pairs.drop_last());
        assert forall|i: int, j: int| 0 <= i < j < front_pairs.len() implies (
        #[trigger] front_pairs[i]).0 != (#[trigger] front_pairs[j]).0 by {
            assert(pairs[i].0 != pairs[j].0);
        }
        lemma_stored_with_messages(s, username, address, path, front, now, uid);
        let before = StoreView {
            messages: with_messages(s.messages, username, address, path, front, now),
            ..s
        };
        lemma_stored_with_message(before, username, address, path, last, now, uid);
        lemma_first_where(front_pairs, has_uid(uid), 0);
        let at = first_where(pairs, has_uid(uid), 0);
        let in_front = first_where(front_pairs, has_uid(uid), 0);
        assert(pairs[pairs.len() - 1] == (last.message_uid, last.sequence_id));
        if in_front < front_pairs.len() {
            assert(pairs[in_front] == front_pairs[in_front]);
            lemma_any_where(pairs, has_uid(uid), in_front);
            assert(pairs[in_front].0 != pairs[pairs.len() - 1].0);
            if at < in_front {
                assert(front_pairs[at] == pairs[at]);
            }
        } else if last.message_uid == uid {
            lemma_any_where(pairs, has_uid(uid), pairs.len() - 1);
            if at < pairs.len() - 1 {
                assert(front_pairs[at] == pairs[at]);
            }
        } else {
            if at < pairs.len() - 1 {
                assert(front_pairs[at] == pairs[at]);
            }
        }
    }
}

/// Of a list in which no uid occurs twice, the pairs that meet a condition
/// list a uid if and only if the list lists it with a pair that meets the
/// condition; and no uid occurs twice among them.
pub proof fn lemma_kept_pairs(pairs: Seq<(u32, u32)>, wanted: spec_fn((u32, u32)) -> bool, uid: u32)
    requires
        distinct_uids(pairs),
    ensures
        distinct_uids(kept(pairs, wanted)),
        lists(kept(pairs, wanted), uid) <==> lists(pairs, uid) && wanted(
            (uid, sequence_id_of(pairs, uid)),
        ),
        lists(kept(pairs, wanted), uid) ==> sequence_id_of(kept(pairs, wanted), uid)
            == sequence_id_of(pairs, uid),
        uids_of(kept(pairs, wanted)).contains(uid) <==> lists(kept(pairs, wanted), uid),
{
    let some = kept(pairs, wanted);
    let same = |x: (u32, u32), y: (u32, u32)| x.0 == y.0;
    assert(all_differ(pairs, same)) by {
        assert forall|i: int, j: int| 0 <= i < j < pairs.len() implies !same(
            #[trigger] pairs[i],
            #[trigger] pairs[j],
        ) by {}
    }
    lemma_kept_differ(pairs, wanted, same);
    assert forall|i: int, j: int| 0 <= i < j < some.len() implies (#[trigger] some[i]).0 != (
    #[trigger] some[j]).0 by {
        assert(!same(some[i], some[j]));
    }
    lemma_kept(pairs, wanted);
    lemma_first_where(pairs, has_uid(uid), 0);
    lemma_first_where(some, has_uid(uid), 0);
    let at = first_where(pairs, has_uid(uid), 0);
    let first = first_where(some, has_uid(uid), 0);
    if first < some.len() {
        assert(pairs.contains(some[first]));
        let j = choose|j: int| 0 <= j < pairs.len() && pairs[j] == some[first];
        lemma_any_where(pairs, has_uid(uid), j);
        if at != j {
            let lo = if at < j {
                at
            } else {
                j
            };
            let hi = if at < j {
                j
            } else {
                at
            };
            assert(pairs[lo].0 != pairs[hi].0);
        }
        assert(uids_of(some)[first] == uid);
    }
    if at < pairs.len() && wanted(pairs[at]) {
        assert(some.contains(pairs[at]));
        let k = choose|k: int| 0 <= k < some.len() && some[k] == pairs[at];
        lemma_any_where(some, has_uid(uid), k);
    }
    if uids_of(some).contains(uid) {
        let k = choose|k: int| 0 <= k < uids_of(some).len() && uids_of(some)[k] == uid;
        assert(some[k].0 == uid);
        lemma_any_where(some, has_uid(uid), k);
    }
}

/// The cached uids and sequence ids of a mailbox list no uid twice.
pub proof fn lemma_local_distinct(
    s: StoreView,
    username: Seq<char>,
    address: Seq<char>,
    path: Seq<char>,
)
    requires
        all_differ(s.messages, same_row()),
    ensures
        distinct_uids(local_pairs(s, username, address, path)),
{
    let pairs = local_pairs(s, username, address, path);
    assert forall|i: int, j: int| 0 <= i < j < pairs.len() implies (#[trigger] pairs[i]).0 != (
    #[trigger] pairs[j]).0 by {
        if pairs[i].0 == pairs[j].0 {
            lemma_local_pairs(s, username, address, path, pairs[i].0);
        }
    }
}

/// Which uids the list of changed sequence ids lists, and with which
/// sequence id.
pub proof fn lemma_moved(local: Seq<(u32, u32)>, remote: Seq<(u32, u32)>, uid: u32)
    requires
        distinct_uids(local),
    ensures
        distinct_uids(moved_uids(local, remote)),
        lists(moved_uids(local, remote), uid) <==> lists(local, uid) && lists(remote, uid)
            && sequence_id_of(remote, uid) != sequence_id_of(local, uid),
        lists(moved_uids(local, remote), uid) ==> sequence_id_of(moved_uids(local, remote), uid)
            == sequence_id_of(remote, uid),
{
    let some = kept(local, is_moved(remote));
    let moved = moved_uids(local, remote);
    lemma_kept_pairs(local, is_moved(remote), uid);
    assert(moved.len() == some.len());
    assert forall|i: int| 0 <= i < some.len() implies has_uid(uid)(#[trigger] some[i]) == has_uid(
        uid,
    )(moved[i]) by {}
    lemma_first_where_alike(some, moved, has_uid(uid), 0);
    lemma_first_where(some, has_uid(uid), 0);
    assert forall|i: int, j: int| 0 <= i < j < moved.len() implies (#[trigger] moved[i]).0 != (
    #[trigger] moved[j]).0 by {
        assert(some[i].0 != some[j].0);
    }
}

/// The cache after a window was processed: the removed messages deleted,
/// the new messages, if there are any, stored, and the changed sequence
/// ids set, in this order.
pub open spec fn window_store(
    s: StoreView,
    username: Seq<char>,
    address: Seq<char>,
    path: Seq<char>,
    remote: Seq<(u32, u32)>,
    start: u32,
    end: u32,
    messages: Seq<MessageView>,
    now: u64,
) -> StoreView {
    let local = local_pairs(s, username, address, path);
    let swept = without_messages(
        s,
        username,
        address,
        path,
        removed_uids(local, remote, start, end),
    );
    let filled = if new_uids(local, remote).len() > 0 {
        with_rows(swept, username, address, path, messages, now)
    } else {
        swept
    };
    with_sequence_ids(filled, username, address, path, moved_uids(local, remote), now)
}

/// The steps of the machine on a window leave the cache as `window_store`
/// says: the step on the uids of the window alone where nothing is new, and
/// followed by the step on the new messages where something is. After them
/// the machine waits for the uids of the next window unless the window was
/// the last one or showed nothing new and no changed sequence id.
pub proof fn lemma_steps_store(
    u: UpdateView,
    s: StoreView,
    username: Seq<char>,
    address: Seq<char>,
    path: Seq<char>,
    remote: Seq<(u32, u32)>,
    messages: Seq<MessageView>,
    now: u64,
)
    requires
        all_differ(s.messages, same_row()),
        any_where(s.mailboxes, is_mailbox(username, address, path)),
    ensures
        ({
            let first = window_step(u, s, username, address, path, remote, now);
            let new = new_uids(local_pairs(s, username, address, path), remote);
            let after = if new.len() > 0 {
                insert_step(first.update, first.store, username, address, path, messages, now).store
            } else {
                first.store
            };
            let last = if new.len() > 0 {
                insert_step(first.update, first.store, username, address, path, messages, now).update
            } else {
                first.update
            };
            let quiet = new.len() == 0 && moved_uids(
                local_pairs(s, username, address, path),
                remote,
            ).len() == 0;
            &&& after == window_store(
                s,
                username,
                address,
                path,
                remote,
                u.start,
                u.end,
                messages,
                now,
            )
            &&& last.phase == crate::update::Phase::Scanning <==> u.end < u.highest_seq && !quiet
            &&& last.phase == crate::update::Phase::Scanning ==> last.start == u.end + 1
                && crate::sync::window_from(last.start, u.highest_seq) == Some(
                (last.start, last.end),
            ) && last.highest_seq == u.highest_seq
        }),
{
    let local = local_pairs(s, username, address, path);
    lemma_stored_without_messages(
        s,
        username,
        address,
        path,
        removed_uids(local, remote, u.start, u.end),
        0,
    );
}

/// What the cache holds after a window was processed. `remote` is what the
/// server lists for the window, no uid twice and every sequence id inside
/// the window; `messages` are the new messages, fetched as the step on the
/// window demanded: each of the demanded uids once, under the sequence id
/// that the server listed.
///
/// A uid that the server lists is cached under the server's sequence id. A
/// uid that the server does not list is cached only if it was cached with a
/// sequence id outside the window, and then as it was. So the cached uids
/// with a sequence id inside the window are exactly the listed uids.
pub proof fn lemma_window_reconciled(
    s: StoreView,
    username: Seq<char>,
    address: Seq<char>,
    path: Seq<char>,
    remote: Seq<(u32, u32)>,
    start: u32,
    end: u32,
    messages: Seq<MessageView>,
    now: u64,
    uid: u32,
)
    requires
        all_differ(s.messages, same_row()),
        any_where(s.mailboxes, is_mailbox(username, address, path)),
        distinct_uids(remote),
        forall|i: int| 0 <= i < remote.len() ==> start <= (#[trigger] remote[i]).1 <= end,
        distinct_uids(message_pairs(messages)),
        forall|n: u32|
            lists(message_pairs(messages), n) <==> new_uids(
                local_pairs(s, username, address, path),
                remote,
            ).contains(n),
        forall|n: u32|
            lists(message_pairs(messages), n) ==> sequence_id_of(message_pairs(messages), n)
                == sequence_id_of(remote, n),
    ensures
        ({
            let after = window_store(
                s,
                username,
                address,
                path,
                remote,
                start,
                end,
                messages,
                now,
            );
            let was = stored_sequence_id(s, username, address, path, uid);
            let is = stored_sequence_id(after, username, address, path, uid);
            &&& all_differ(after.messages, same_row())
            &&& after.mailboxes == s.mailboxes
            &&& lists(remote, uid) ==> is == Some(sequence_id_of(remote, uid))
            &&& !lists(remote, uid) ==> is == (if was is Some && !(start <= was->Some_0 <= end) {
                was
            } else {
                None
            })
            &&& (is is Some && start <= is->Some_0 <= end) <==> lists(remote, uid)
        }),
{
    let local = local_pairs(s, username, address, path);
    let removed = removed_uids(local, remote, start, end);
    let new = new_uids(local, remote);
    let moved = moved_uids(local, remote);
    let swept = without_messages(s, username, address, path, removed);
    lemma_local_distinct(s, username, address, path);
    lemma_local_pairs(s, username, address, path, uid);
    lemma_kept_pairs(local, is_removed(remote, start, end), uid);
    lemma_kept_pairs(remote, is_new(local), uid);
    lemma_moved(local, remote, uid);
    lemma_stored_without_messages(s, username, address, path, removed, uid);
    lemma_first_where(remote, has_uid(uid), 0);
    if lists(remote, uid) {
        let at = first_where(remote, has_uid(uid), 0);
        assert(start <= remote[at].1 <= end);
    }
    if new.len() > 0 {
        let stored = StoreView {
            messages: with_messages(swept.messages, username, address, path, messages, now),
            ..swept
        };
        assert(with_rows(swept, username, address, path, messages, now) == stored);
        lemma_stored_with_messages(swept, username, address, path, messages, now, uid);
        lemma_stored_with_sequence_ids(stored, username, address, path, moved, now, uid);
    } else {
        lemma_stored_with_sequence_ids(swept, username, address, path, moved, now, uid);
        if lists(remote, uid) && !lists(local, uid) {
            assert(new.contains(uid));
        }
    }
}

/// The condition "has a sequence id from `start` to `end`".
pub open spec fn in_window(start: u32, end: u32) -> spec_fn((u32, u32)) -> bool {
    |pair: (u32, u32)| start <= pair.1 <= end
}

/// The scan of the windows from `start` on, as the machine runs it: each
/// window is processed, and the scan goes on with the next window unless
/// the window showed nothing new and no changed sequence id, or was the
/// last one. The result is the cache after the scan and the end of the last
/// window that was processed. `remote` is the server's view of the whole
/// mailbox, of which each window shows its part; `fetched` is the message
/// that the server returns for a uid.
pub open spec fn scanned(
    s: StoreView,
    username: Seq<char>,
    address: Seq<char>,
    path: Seq<char>,
    remote: Seq<(u32, u32)>,
    fetched: spec_fn(u32) -> MessageView,
    start: u32,
    highest_seq: u32,
    now: u64,
) -> (StoreView, u32)
    decreases highest_seq - start,
{
    match crate::sync::window_from(start, highest_seq) {
        None => (s, (start - 1) as u32),
        Some(w) => {
            let listed = kept(remote, in_window(w.0, w.1));
            let local = local_pairs(s, username, address, path);
            let new = new_uids(local, listed);
            let after = window_store(
                s,
                username,
                address,
                path,
                listed,
                w.0,
                w.1,
                new.map_values(fetched),
                now,
            );
            let quiet = new.len() == 0 && moved_uids(local, listed).len() == 0;
            if w.1 < highest_seq && !quiet {
                scanned(
                    after,
                    username,
                    address,
                    path,
                    remote,
                    fetched,
                    (w.1 + 1) as u32,
                    highest_seq,
                    now,
                )
            } else {
                (after, w.1)
            }
        },
    }
}

/// Whether the cache agrees with the server on every sequence id below
/// `start`: the cached uids with such a sequence id are the uids that the
/// server lists with such a sequence id, each under the server's sequence
/// id.
pub open spec fn agrees_below(
    s: StoreView,
    username: Seq<char>,
    address: Seq<char>,
    path: Seq<char>,
    remote: Seq<(u32, u32)>,
    start: int,
) -> bool {
    forall|uid: u32|
        {
            let is = #[trigger] stored_sequence_id(s, username, address, path, uid);
            &&& (is is Some && 1 <= is->Some_0 < start) <==> (lists(remote, uid) && sequence_id_of(
                remote,
                uid,
            ) < start)
            &&& lists(remote, uid) && sequence_id_of(remote, uid) < start ==> is == Some(
                sequence_id_of(remote, uid),
            )
        }
}

proof fn lemma_fetched(
    local: Seq<(u32, u32)>,
    listed: Seq<(u32, u32)>,
    fetched: spec_fn(u32) -> MessageView,
)
    requires
        distinct_uids(listed),
        forall|n: u32|
            lists(listed, n) ==> (#[trigger] fetched(n)).message_uid == n && fetched(
                n,
            ).sequence_id == sequence_id_of(listed, n),
    ensures
        distinct_uids(message_pairs(new_uids(local, listed).map_values(fetched))),
        forall|n: u32|
            lists(message_pairs(new_uids(local, listed).map_values(fetched)), n) <==> new_uids(
                local,
                listed,
            ).contains(n),
        forall|n: u32|
            lists(message_pairs(new_uids(local, listed).map_values(fetched)), n)
                ==> sequence_id_of(message_pairs(new_uids(local, listed).map_values(fetched)), n)
                == sequence_id_of(listed, n),
{
    let some = kept(listed, is_new(local));
    let new = new_uids(local, listed);
    let pairs = message_pairs(new.map_values(fetched));
    lemma_kept_pairs(listed, is_new(local), 0);
    lemma_kept(listed, is_new(local));
    assert(pairs.len() == new.len());
    assert forall|i: int| 0 <= i < pairs.len() implies (#[trigger] pairs[i]).0 == new[i]
        && pairs[i].1 == sequence_id_of(listed, new[i]) && new[i] == some[i].0 by {
        assert(new[i] == some[i].0);
        assert(listed.contains(some[i]));
        let k = choose|k: int| 0 <= k < listed.len() && listed[k] == some[i];
        lemma_any_where(listed, has_uid(new[i]), k);
    }
    assert forall|i: int, j: int| 0 <= i < j < pairs.len() implies (#[trigger] pairs[i]).0 != (
    #[trigger] pairs[j]).0 by {
        assert(some[i].0 != some[j].0);
    }
    assert forall|n: u32|
        (lists(pairs, n) <==> new.contains(n)) && (lists(pairs, n) ==> sequence_id_of(pairs, n)
            == sequence_id_of(listed, n)) by {
        lemma_first_where(pairs, has_uid(n), 0);
        if new.contains(n) {
            let k = choose|k: int| 0 <= k < new.len() && new[k] == n;
            assert(pairs[k].0 == n);
            lemma_any_where(pairs, has_uid(n), k);
        }
        if lists(pairs, n) {
            let at = first_where(pairs, has_uid(n), 0);
            assert(new[at] == n);
        }
    }
}

/// Processing a window extends the agreement of cache and server from the
/// sequence ids below the window to those up to its end.
pub proof fn lemma_window_extends(
    s: StoreView,
    username: Seq<char>,
    address: Seq<char>,
    path: Seq<char>,
    remote: Seq<(u32, u32)>,
    fetched: spec_fn(u32) -> MessageView,
    start: u32,
    end: u32,
    now: u64,
)
    requires
        all_differ(s.messages, same_row()),
        any_where(s.mailboxes, is_mailbox(username, address, path)),
        distinct_uids(remote),
        1 <= start <= end,
        forall|n: u32|
            (#[trigger] fetched(n)).message_uid == n && fetched(n).sequence_id == sequence_id_of(
                remote,
                n,
            ),
        agrees_below(s, username, address, path, remote, start as int),
    ensures
        ({
            let listed = kept(remote, in_window(start, end));
            let after = window_store(
                s,
                username,
                address,
                path,
                listed,
                start,
                end,
                new_uids(local_pairs(s, username, address, path), listed).map_values(fetched),
                now,
            );
            &&& all_differ(after.messages, same_row())
            &&& after.mailboxes == s.mailboxes
            &&& agrees_below(after, username, address, path, remote, end + 1)
        }),
{
    let listed = kept(remote, in_window(start, end));
    let local = local_pairs(s, username, address, path);
    let messages = new_uids(local, listed).map_values(fetched);
    let after = window_store(s, username, address, path, listed, start, end, messages, now);
    lemma_kept(remote, in_window(start, end));
    lemma_kept_pairs(remote, in_window(start, end), 0);
    assert forall|n: u32| lists(listed, n) implies (#[trigger] fetched(n)).message_uid == n
        && fetched(n).sequence_id == sequence_id_of(listed, n) by {
        lemma_kept_pairs(remote, in_window(start, end), n);
    }
    lemma_fetched(local, listed, fetched);
    assert forall|i: int| 0 <= i < listed.len() implies start <= (#[trigger] listed[i]).1
        <= end by {}
    lemma_window_reconciled(s, username, address, path, listed, start, end, messages, now, 0);
    assert forall|uid: u32|
        {
            let is = #[trigger] stored_sequence_id(after, username, address, path, uid);
            &&& (is is Some && 1 <= is->Some_0 < end + 1) <==> (lists(remote, uid)
                && sequence_id_of(remote, uid) < end + 1)
            &&& lists(remote, uid) && sequence_id_of(remote, uid) < end + 1 ==> is == Some(
                sequence_id_of(remote, uid),
            )
        } by {
        lemma_window_reconciled(s, username, address, path, listed, start, end, messages, now, uid);
        lemma_kept_pairs(remote, in_window(start, end), uid);
        lemma_first_where(remote, has_uid(uid), 0);
    }
}

/// After a scan, the cache agrees with the server on the scanned range:
/// the cached uids of the mailbox with a sequence id from one to the end of
/// the last window that was processed are exactly the uids that the server
/// lists with such a sequence id, each under the server's sequence id.
/// `remote` is the server's view of the mailbox: no uid twice, every
/// sequence id from one to the highest; `fetched` returns for each uid a
/// message with this uid and the server's sequence id.
pub proof fn lemma_scan_reconciled(
    s: StoreView,
    username: Seq<char>,
    address: Seq<char>,
    path: Seq<char>,
    remote: Seq<(u32, u32)>,
    fetched: spec_fn(u32) -> MessageView,
    start: u32,
    highest_seq: u32,
    now: u64,
)
    requires
        all_differ(s.messages, same_row()),
        any_where(s.mailboxes, is_mailbox(username, address, path)),
        distinct_uids(remote),
        1 <= start,
        forall|n: u32|
            (#[trigger] fetched(n)).message_uid == n && fetched(n).sequence_id == sequence_id_of(
                remote,
                n,
            ),
        agrees_below(s, username, address, path, remote, start as int),
    ensures
        ({
            let end = scanned(
                s,
                username,
                address,
                path,
                remote,
                fetched,
                start,
                highest_seq,
                now,
            );
            &&& start - 1 <= end.1
            &&& start <= highest_seq ==> start <= end.1 <= highest_seq
            &&& agrees_below(end.0, username, address, path, remote, end.1 + 1)
        }),
    decreases highest_seq - start,
{
    if start <= highest_seq {
        let w = crate::sync::window_from(start, highest_seq)->Some_0;
        lemma_window_extends(s, username, address, path, remote, fetched, w.0, w.1, now);
        let listed = kept(remote, in_window(w.0, w.1));
        let local = local_pairs(s, username, address, path);
        let new = new_uids(local, listed);
        let quiet = new.len() == 0 && moved_uids(local, listed).len() == 0;
        if w.1 < highest_seq && !quiet {
            let after = window_store(
                s,
                username,
                address,
                path,
                listed,
                w.0,
                w.1,
                new.map_values(fetched),
                now,
            );
            lemma_scan_reconciled(
                after,
                username,
                address,
                path,
                remote,
                fetched,
                (w.1 + 1) as u32,
                highest_seq,
                now,
            );
        }
    }
}

/// The law of the update, from the first window on: whatever the cache
/// held, after the scan the cached uids of the mailbox with a sequence id
/// in the scanned range are exactly the uids that the server lists in this
/// range, each under the server's sequence id. Where the scan reached the
/// highest sequence id, these are all the uids that the server lists.
pub proof fn lemma_update_reconciled(
    s: StoreView,
    username: Seq<char>,
    address: Seq<char>,
    path: Seq<char>,
    remote: Seq<(u32, u32)>,
    fetched: spec_fn(u32) -> MessageView,
    highest_seq: u32,
    now: u64,
    uid: u32,
)
    requires
        well_formed(s),
        any_where(s.mailboxes, is_mailbox(username, address, path)),
        distinct_uids(remote),
        forall|i: int| 0 <= i < remote.len() ==> 1 <= (#[trigger] remote[i]).1 <= highest_seq,
        forall|n: u32|
            (#[trigger] fetched(n)).message_uid == n && fetched(n).sequence_id == sequence_id_of(
                remote,
                n,
            ),
    ensures
        ({
            let end = scanned(s, username, address, path, remote, fetched, 1, highest_seq, now);
            let is = stored_sequence_id(end.0, username, address, path, uid);
            &&& (is is Some && 1 <= is->Some_0 <= end.1) <==> (lists(remote, uid)
                && sequence_id_of(remote, uid) <= end.1)
            &&& lists(remote, uid) && sequence_id_of(remote, uid) <= end.1 ==> is == Some(
                sequence_id_of(remote, uid),
            )
            &&& end.1 == highest_seq ==> ((is is Some && 1 <= is->Some_0 <= highest_seq)
                <==> lists(remote, uid))
        }),
{
    assert(agrees_below(s, username, address, path, remote, 1)) by {
        assert forall|n: u32|
            {
                let is = #[trigger] stored_sequence_id(s, username, address, path, n);
                &&& (is is Some && 1 <= is->Some_0 < 1) <==> (lists(remote, n) && sequence_id_of(
                    remote,
                    n,
                ) < 1)
                &&& lists(remote, n) && sequence_id_of(remote, n) < 1 ==> is == Some(
                    sequence_id_of(remote, n),
                )
            } by {
            lemma_first_where(remote, has_uid(n), 0);
        }
    }
    lemma_scan_reconciled(s, username, address, path, remote, fetched, 1, highest_seq, now);
    let end = scanned(s, username, address, path, remote, fetched, 1, highest_seq, now);
    let is = stored_sequence_id(end.0, username, address, path, uid);
    lemma_first_where(remote, has_uid(uid), 0);
}

/// Whether no uid occurs twice in a list of uids with their flag strings.
pub open spec fn distinct_flag_uids(pairs: Seq<(u32, Seq<char>)>) -> bool {
    forall|i: int, j: int|
        0 <= i < j < pairs.len() ==> (#[trigger] pairs[i]).0 != (#[trigger] pairs[j]).0
}

/// The flag changes of an update name no uid twice.
pub proof fn lemma_flag_changes_distinct(
    s: StoreView,
    username: Seq<char>,
    address: Seq<char>,
    path: Seq<char>,
    listed: Seq<(u32, Seq<char>)>,
)
    requires
        all_differ(s.messages, same_row()),
    ensures
        distinct_flag_uids(crate::update::local_flags(s, username, address, path)),
        distinct_flag_uids(
            crate::sync::drifted(crate::update::local_flags(s, username, address, path), listed),
        ),
{
    let inside = in_mailbox(username, address, path);
    let rows = kept(s.messages, inside);
    let local = crate::update::local_flags(s, username, address, path);
    lemma_kept(s.messages, inside);
    lemma_kept_differ(s.messages, inside, same_row());
    assert forall|i: int, j: int| 0 <= i < j < local.len() implies (#[trigger] local[i]).0 != (
    #[trigger] local[j]).0 by {
        assert(!same_row()(rows[i], rows[j]));
        assert(inside(rows[i]) && inside(rows[j]));
    }
    let same = |x: (u32, Seq<char>), y: (u32, Seq<char>)| x.0 == y.0;
    let wanted = crate::sync::is_drifted(listed);
    assert(all_differ(local, same)) by {
        assert forall|i: int, j: int| 0 <= i < j < local.len() implies !same(
            #[trigger] local[i],
            #[trigger] local[j],
        ) by {}
    }
    lemma_kept_differ(local, wanted, same);
    let some = kept(local, wanted);
    let changes = crate::sync::drifted(local, listed);
    assert forall|i: int, j: int| 0 <= i < j < changes.len() implies (#[trigger] changes[i]).0
        != (#[trigger] changes[j]).0 by {
        assert(!same(some[i], some[j]));
    }
}

} // verus!
