//! The decisions of the mailbox update: which part of the server's view to
//! ask for, and how what the server reports differs from what the cache
//! holds.
//!
//! The server's view of a mailbox is a list of pairs of a uid and a
//! sequence id. The uid identifies a message for good; the sequence id is
//! its position in the mailbox now, counted from one.

use crate::store::{flag_views};
use crate::table::{any_where, first_where, kept, lemma_kept_step};
use vstd::prelude::*;

verus! {

/// The number of sequence ids that one window covers.
pub const WINDOW: u32 = 20;

/// The range to ask for in order to learn the highest sequence id: the two
/// highest numbers there are, which the server reads as the end of the
/// mailbox.
pub fn probe_range() -> (res: (u32, u32))
    ensures
        res == (0xffff_fffeu32, 0xffff_ffffu32),
{
    (u32::MAX - 1, u32::MAX)
}

/// The window that begins at `start`: it ends twenty sequence ids later or
/// at the highest sequence id, whichever comes first. There is none where
/// `start` is zero or beyond the highest sequence id.
pub open spec fn window_from(start: u32, highest_seq: u32) -> Option<(u32, u32)> {
    if 1 <= start <= highest_seq {
        Some(
            (
                start,
                if start + WINDOW - 1 < highest_seq {
                    (start + WINDOW - 1) as u32
                } else {
                    highest_seq
                },
            ),
        )
    } else {
        None
    }
}

/// The window that begins at `start`, clamped to the highest sequence id.
pub fn window(start: u32, highest_seq: u32) -> (res: Option<(u32, u32)>)
    ensures
        res == window_from(start, highest_seq),
        res matches Some(w) ==> w.0 == start && start <= w.1 <= highest_seq && w.1 - start
            < WINDOW && (w.1 == highest_seq || w.1 - start == WINDOW - 1),
{
    if start == 0 || start > highest_seq {
        return None;
    }
    let end = if highest_seq - start >= WINDOW {
        start + (WINDOW - 1)
    } else {
        highest_seq
    };
    Some((start, end))
}

/// A window of twenty sequence ids that would reach beyond the highest
/// sequence id ends at the highest sequence id.
pub proof fn lemma_window_clamped(start: u32, highest_seq: u32)
    requires
        1 <= start <= highest_seq,
        highest_seq < start + WINDOW - 1,
    ensures
        window_from(start, highest_seq) == Some((start, highest_seq)),
{
}

/// A window that does not reach the highest sequence id covers twenty
/// sequence ids.
pub proof fn lemma_window_full(start: u32, highest_seq: u32)
    requires
        1 <= start,
        start + WINDOW - 1 <= highest_seq,
    ensures
        window_from(start, highest_seq) == Some((start, (start + WINDOW - 1) as u32)),
{
}

/// The window that follows the one that ends at `end`, if the mailbox goes
/// on after it.
pub open spec fn window_after(end: u32, highest_seq: u32) -> Option<(u32, u32)> {
    if end < highest_seq {
        window_from((end + 1) as u32, highest_seq)
    } else {
        None
    }
}

/// The window that follows the one that ends at `end`.
pub fn next_window(end: u32, highest_seq: u32) -> (res: Option<(u32, u32)>)
    ensures
        res == window_after(end, highest_seq),
{
    if end < highest_seq {
        window(end + 1, highest_seq)
    } else {
        None
    }
}

/// The condition "has this uid".
pub open spec fn has_uid(uid: u32) -> spec_fn((u32, u32)) -> bool {
    |pair: (u32, u32)| pair.0 == uid
}

/// Whether a list of pairs of uid and sequence id lists this uid.
pub open spec fn lists(pairs: Seq<(u32, u32)>, uid: u32) -> bool {
    any_where(pairs, has_uid(uid))
}

/// The sequence id that a list gives for a uid: that of the first pair
/// with the uid.
pub open spec fn sequence_id_of(pairs: Seq<(u32, u32)>, uid: u32) -> u32 {
    pairs[first_where(pairs, has_uid(uid), 0)].1
}

/// The highest sequence id and its uid, as the answer to the probe gives
/// them: those of its first pair. An empty answer gives nothing.
pub open spec fn highest_of(probe: Seq<(u32, u32)>) -> Option<(u32, u32)> {
    if probe.len() == 0 {
        None
    } else {
        Some((probe[0].1, probe[0].0))
    }
}

/// Reads the highest sequence id and its uid out of the answer to the
/// probe.
pub fn highest(probe: &Vec<(u32, u32)>) -> (res: Option<(u32, u32)>)
    ensures
        res == highest_of(probe@),
{
    if probe.len() == 0 {
        None
    } else {
        Some((probe[0].1, probe[0].0))
    }
}

fn position(pairs: &Vec<(u32, u32)>, uid: u32) -> (res: usize)
    ensures
        res == first_where(pairs@, has_uid(uid), 0),
        res <= pairs.len(),
{
    let mut i: usize = 0;
    while i < pairs.len()
        invariant
            i <= pairs.len(),
            first_where(pairs@, has_uid(uid), 0) == first_where(pairs@, has_uid(uid), i as int),
        decreases pairs.len() - i,
    {
        if pairs[i].0 == uid {
            return i;
        }
        i += 1;
    }
    i
}

/// Whether the end of the cached mailbox agrees with the server: the cache
/// holds the uid of the highest sequence id under this sequence id.
pub open spec fn tail_agrees(local: Seq<(u32, u32)>, highest_seq: u32, highest_uid: u32) -> bool {
    lists(local, highest_uid) && sequence_id_of(local, highest_uid) == highest_seq
}

/// Whether the end of the cached mailbox agrees with the server.
pub fn tail_matches(local: &Vec<(u32, u32)>, highest_seq: u32, highest_uid: u32) -> (res: bool)
    ensures
        res == tail_agrees(local@, highest_seq, highest_uid),
{
    let at = position(local, highest_uid);
    at < local.len() && local[at].1 == highest_seq
}

/// How a window of the server's view differs from the cache.
#[derive(Clone, Debug, PartialEq, Eq)]
pub struct WindowChanges {
    /// Cached messages whose sequence id changed, with the new sequence id.
    pub changed: Vec<(u32, u32)>,
    /// Uids that the server lists and the cache does not hold.
    pub new: Vec<u32>,
    /// Cached uids inside the window that the server does not list.
    pub removed: Vec<u32>,
}

/// The condition "is cached inside the window and not listed by the
/// server".
pub open spec fn is_removed(remote: Seq<(u32, u32)>, start: u32, end: u32) -> spec_fn(
    (u32, u32),
) -> bool {
    |pair: (u32, u32)| start <= pair.1 <= end && !lists(remote, pair.0)
}

/// The condition "is listed by the server and not cached".
pub open spec fn is_new(local: Seq<(u32, u32)>) -> spec_fn((u32, u32)) -> bool {
    |pair: (u32, u32)| !lists(local, pair.0)
}

/// The condition "is cached and listed by the server under another
/// sequence id".
pub open spec fn is_moved(remote: Seq<(u32, u32)>) -> spec_fn((u32, u32)) -> bool {
    |pair: (u32, u32)| lists(remote, pair.0) && sequence_id_of(remote, pair.0) != pair.1
}

/// The uids of a list of pairs.
pub open spec fn uids_of(pairs: Seq<(u32, u32)>) -> Seq<u32> {
    pairs.map_values(|pair: (u32, u32)| pair.0)
}

/// The cached uids inside the window that the server does not list, in the
/// order of the cache.
pub open spec fn removed_uids(
    local: Seq<(u32, u32)>,
    remote: Seq<(u32, u32)>,
    start: u32,
    end: u32,
) -> Seq<u32> {
    uids_of(kept(local, is_removed(remote, start, end)))
}

/// The uids that the server lists and the cache does not hold, in the order
/// of the server's answer.
pub open spec fn new_uids(local: Seq<(u32, u32)>, remote: Seq<(u32, u32)>) -> Seq<u32> {
    uids_of(kept(remote, is_new(local)))
}

/// The cached uids that the server lists under another sequence id, each
/// with the server's sequence id, in the order of the cache.
pub open spec fn moved_uids(local: Seq<(u32, u32)>, remote: Seq<(u32, u32)>) -> Seq<(u32, u32)> {
    kept(local, is_moved(remote)).map_values(
        |pair: (u32, u32)| (pair.0, sequence_id_of(remote, pair.0)),
    )
}

/// Compares a window of the server's view with the cache. `local` holds
/// uid and sequence id of every cached message of the mailbox, `remote`
/// what the server lists for the sequence ids `start` to `end`.
pub fn window_changes(
    local: &Vec<(u32, u32)>,
    remote: &Vec<(u32, u32)>,
    start: u32,
    end: u32,
) -> (res: WindowChanges)
    ensures
        res.changed@ == moved_uids(local@, remote@),
        res.new@ == new_uids(local@, remote@),
        res.removed@ == removed_uids(local@, remote@, start, end),
{
    let mut changed: Vec<(u32, u32)> = Vec::new();
    let mut removed: Vec<u32> = Vec::new();
    let ghost gone = is_removed(remote@, start, end);
    let ghost moved = is_moved(remote@);
    let ghost renumber = |pair: (u32, u32)| (pair.0, sequence_id_of(remote@, pair.0));
    let ghost uid = |pair: (u32, u32)| pair.0;
    let mut i: usize = 0;
    assert(local@.take(0) =~= Seq::<(u32, u32)>::empty());
    assert(changed@ =~= kept(local@.take(0), moved).map_values(renumber));
    assert(removed@ =~= kept(local@.take(0), gone).map_values(uid));
    while i < local.len()
        invariant
            i <= local.len(),
            gone == is_removed(remote@, start, end),
            moved == is_moved(remote@),
            renumber == |pair: (u32, u32)| (pair.0, sequence_id_of(remote@, pair.0)),
            uid == |pair: (u32, u32)| pair.0,
            changed@ == kept(local@.take(i as int), moved).map_values(renumber),
            removed@ == kept(local@.take(i as int), gone).map_values(uid),
        decreases local.len() - i,
    {
        proof {
            lemma_kept_step(local@, moved, i as int);
            lemma_kept_step(local@, gone, i as int);
        }
        let pair = local[i];
        let at = position(remote, pair.0);
        if at < remote.len() {
            if remote[at].1 != pair.1 {
                changed.push((pair.0, remote[at].1));
                assert(changed@ =~= kept(local@.take(i as int), moved).push(pair).map_values(
                    renumber,
                ));
            }
        } else if start <= pair.1 && pair.1 <= end {
            removed.push(pair.0);
            assert(removed@ =~= kept(local@.take(i as int), gone).push(pair).map_values(uid));
        }
        i += 1;
    }
    assert(local@.take(local.len() as int) =~= local@);
    let mut new: Vec<u32> = Vec::new();
    let ghost fresh = is_new(local@);
    let mut j: usize = 0;
    assert(remote@.take(0) =~= Seq::<(u32, u32)>::empty());
    assert(new@ =~= kept(remote@.take(0), fresh).map_values(uid));
    while j < remote.len()
        invariant
            j <= remote.len(),
            fresh == is_new(local@),
            uid == |pair: (u32, u32)| pair.0,
            new@ == kept(remote@.take(j as int), fresh).map_values(uid),
        decreases remote.len() - j,
    {
        proof {
            lemma_kept_step(remote@, fresh, j as int);
        }
        let pair = remote[j];
        if position(local, pair.0) == local.len() {
            new.push(pair.0);
            assert(new@ =~= kept(remote@.take(j as int), fresh).push(pair).map_values(uid));
        }
        j += 1;
    }
    assert(remote@.take(remote.len() as int) =~= remote@);
    WindowChanges { changed, new, removed }
}

/// The condition "has this uid", of a pair of uid and flag string.
pub open spec fn flagged_uid(uid: u32) -> spec_fn((u32, Seq<char>)) -> bool {
    |pair: (u32, Seq<char>)| pair.0 == uid
}

/// The flag string that a list gives for a uid: that of the first pair with
/// the uid.
pub open spec fn flags_of(pairs: Seq<(u32, Seq<char>)>, uid: u32) -> Seq<char> {
    pairs[first_where(pairs, flagged_uid(uid), 0)].1
}

/// The condition "is listed by the server with another flag string".
pub open spec fn is_drifted(remote: Seq<(u32, Seq<char>)>) -> spec_fn((u32, Seq<char>)) -> bool {
    |pair: (u32, Seq<char>)|
        any_where(remote, flagged_uid(pair.0)) && flags_of(remote, pair.0) != pair.1
}

/// The cached uids that the server lists with another flag string, each
/// with the server's flag string, in the order of the cache.
pub open spec fn drifted(local: Seq<(u32, Seq<char>)>, remote: Seq<(u32, Seq<char>)>) -> Seq<
    (u32, Seq<char>),
> {
    kept(local, is_drifted(remote)).map_values(
        |pair: (u32, Seq<char>)| (pair.0, flags_of(remote, pair.0)),
    )
}

fn flag_position(pairs: &Vec<(u32, String)>, uid: u32) -> (res: usize)
    ensures
        res == first_where(flag_views(pairs@), flagged_uid(uid), 0),
        res <= pairs.len(),
{
    let mut i: usize = 0;
    while i < pairs.len()
        invariant
            i <= pairs.len(),
            first_where(flag_views(pairs@), flagged_uid(uid), 0) == first_where(
                flag_views(pairs@),
                flagged_uid(uid),
                i as int,
            ),
        decreases pairs.len() - i,
    {
        if pairs[i].0 == uid {
            return i;
        }
        i += 1;
    }
    i
}

/// Compares the flag strings that the server reports with those of the
/// cache: for every cached uid that the server lists with another flag
/// string, the uid and the server's flag string.
pub fn flag_changes(local: &Vec<(u32, String)>, remote: &Vec<(u32, String)>) -> (res: Vec<
    (u32, String),
>)
    ensures
        flag_views(res@) == drifted(flag_views(local@), flag_views(remote@)),
{
    let ghost cached = flag_views(local@);
    let ghost listed = flag_views(remote@);
    let ghost wanted = is_drifted(listed);
    let ghost renew = |pair: (u32, Seq<char>)| (pair.0, flags_of(listed, pair.0));
    let mut out: Vec<(u32, String)> = Vec::new();
    let mut i: usize = 0;
    assert(cached.take(0) =~= Seq::<(u32, Seq<char>)>::empty());
    assert(flag_views(out@) =~= kept(cached.take(0), wanted).map_values(renew));
    while i < local.len()
        invariant
            i <= local.len(),
            cached == flag_views(local@),
            listed == flag_views(remote@),
            wanted == is_drifted(listed),
            renew == |pair: (u32, Seq<char>)| (pair.0, flags_of(listed, pair.0)),
            flag_views(out@) == kept(cached.take(i as int), wanted).map_values(renew),
        decreases local.len() - i,
    {
        proof {
            lemma_kept_step(cached, wanted, i as int);
        }
        let at = flag_position(remote, local[i].0);
        if at < remote.len() && remote[at].1 != local[i].1 {
            let ghost before = out@;
            out.push((local[i].0, remote[at].1.clone()));
            assert(flag_views(out@) =~= flag_views(before).push(renew(cached[i as int])));
            assert(kept(cached.take(i as int), wanted).push(cached[i as int]).map_values(renew)
                =~= kept(cached.take(i as int), wanted).map_values(renew).push(
                renew(cached[i as int]),
            ));
        }
        i += 1;
    }
    assert(cached.take(local.len() as int) =~= cached);
    out
}

} // verus!
