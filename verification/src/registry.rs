//! The session registry: which clients were registered in this process,
//! under which session id, and whether each one has a live session.
//!
//! A session id is the position at which a client was first registered. It
//! stays with the client: logging out vacates the slot, and the next login
//! of the same user at the same address fills it again.

use crate::error::{ApiError, ApiErrorView, ErrorKind};
use crate::message::{Client, ClientView};
use crate::table::{all_differ, first_where, lemma_any_where, lemma_first_where};
use vstd::prelude::*;
use vstd::string::StringExecFns;

verus! {

/// One slot of the registry.
pub struct Slot {
    client: Client,
    live: bool,
}

/// The mathematical content of a slot.
pub struct SlotView {
    pub client: ClientView,
    pub live: bool,
}

/// The registry of sessions.
pub struct Registry {
    slots: Vec<Slot>,
}

impl View for Registry {
    type V = Seq<SlotView>;

    closed spec fn view(&self) -> Seq<SlotView> {
        Seq::new(self.slots@.len(), |i: int| SlotView { client: self.slots@[i].client@, live: self.slots@[i].live })
    }
}

/// The condition "is the slot of this user at this address".
pub open spec fn is_slot(username: Seq<char>, address: Seq<char>) -> spec_fn(SlotView) -> bool {
    |slot: SlotView| slot.client.username == username && slot.client.address == address
}

/// The relation "two slots belong to the same user at the same address".
pub open spec fn same_slot() -> spec_fn(SlotView, SlotView) -> bool {
    |x: SlotView, y: SlotView|
        x.client.username == y.client.username && x.client.address == y.client.address
}

/// The invariant of the registry: no user at an address has two slots.
pub open spec fn distinct_slots(slots: Seq<SlotView>) -> bool {
    all_differ(slots, same_slot())
}

/// What a login has to do.
#[derive(Clone, Copy, Debug, PartialEq, Eq, Structural)]
pub enum Login {
    /// The client has a live session under this id: nothing is dialled.
    Existing(usize),
    /// There is no live session: the server is to be dialled.
    Connect,
}

/// What a login of a user at an address has to do.
pub open spec fn login_step(slots: Seq<SlotView>, username: Seq<char>, address: Seq<char>) -> Login {
    let at = first_where(slots, is_slot(username, address), 0);
    if at < slots.len() && slots[at].live {
        Login::Existing(at as usize)
    } else {
        Login::Connect
    }
}

/// The registry after a client was connected: its slot filled again if it
/// has one, a new slot at the end if not.
pub open spec fn with_session(slots: Seq<SlotView>, client: ClientView) -> Seq<SlotView> {
    let at = first_where(slots, is_slot(client.username, client.address), 0);
    let slot = SlotView { client, live: true };
    if at < slots.len() {
        slots.update(at, slot)
    } else {
        slots.push(slot)
    }
}

/// The error for a session id that names no slot.
pub open spec fn invalid_session() -> ApiErrorView {
    ApiErrorView { kind: ErrorKind::InvalidArgument, message: "Invalid session_id"@ }
}

/// The error for a session id whose slot is vacant.
pub open spec fn not_connected() -> ApiErrorView {
    ApiErrorView { kind: ErrorKind::NotConnected, message: "Session is not connected"@ }
}

/// The client of a session id, or the error that the id deserves.
pub open spec fn session_client(slots: Seq<SlotView>, session_id: usize) -> Result<
    ClientView,
    ApiErrorView,
> {
    if session_id >= slots.len() {
        Err(invalid_session())
    } else if !slots[session_id as int].live {
        Err(not_connected())
    } else {
        Ok(slots[session_id as int].client)
    }
}

/// The live sessions among the first `n` slots: session id and client.
pub open spec fn live_sessions(slots: Seq<SlotView>, n: int) -> Seq<(usize, ClientView)>
    decreases n,
{
    if n <= 0 {
        Seq::empty()
    } else {
        let before = live_sessions(slots, n - 1);
        if slots[n - 1].live {
            before.push(((n - 1) as usize, slots[n - 1].client))
        } else {
            before
        }
    }
}

/// The views of a list of session ids with their clients.
pub open spec fn session_views(v: Seq<(usize, Client)>) -> Seq<(usize, ClientView)> {
    Seq::new(v.len(), |i: int| (v[i].0, v[i].1@))
}

/// Connecting a client keeps the slots distinct.
pub proof fn lemma_with_session(slots: Seq<SlotView>, client: ClientView)
    requires
        distinct_slots(slots),
    ensures
        distinct_slots(with_session(slots, client)),
        first_where(with_session(slots, client), is_slot(client.username, client.address), 0)
            == first_where(slots, is_slot(client.username, client.address), 0),
{
    let wanted = is_slot(client.username, client.address);
    let at = first_where(slots, wanted, 0);
    let after = with_session(slots, client);
    lemma_first_where(slots, wanted, 0);
    assert forall|i: int, j: int| 0 <= i < j < after.len() implies !same_slot()(
        #[trigger] after[i],
        #[trigger] after[j],
    ) by {
        if at < slots.len() {
            assert(!same_slot()(slots[i], slots[j]));
        } else if j < slots.len() {
            assert(!same_slot()(slots[i], slots[j]));
        } else {
            assert(!wanted(slots[i]));
        }
    }
    lemma_first_where(after, wanted, 0);
    lemma_any_where(after, wanted, at);
    if first_where(after, wanted, 0) < at {
        assert(!wanted(slots[first_where(after, wanted, 0)]));
    }
}

/// A second login of the same user at the same address finds the session
/// of the first one, whatever password and port it comes with: it gets the
/// same session id and nothing is dialled.
pub proof fn lemma_login_again(slots: Seq<SlotView>, first: ClientView, second: ClientView)
    requires
        distinct_slots(slots),
        first.username == second.username,
        first.address == second.address,
    ensures
        login_step(with_session(slots, first), second.username, second.address)
            == Login::Existing(
            first_where(slots, is_slot(first.username, first.address), 0) as usize,
        ),
{
    lemma_with_session(slots, first);
    lemma_first_where(slots, is_slot(first.username, first.address), 0);
}

impl Registry {
    /// Whether the invariant of the registry holds.
    pub open spec fn wf(&self) -> bool {
        distinct_slots(self@)
    }

    /// An empty registry.
    pub fn new() -> (res: Registry)
        ensures
            res.wf(),
            res@.len() == 0,
    {
        Registry { slots: Vec::new() }
    }

    /// The number of slots.
    pub fn len(&self) -> (res: usize)
        ensures
            res == self@.len(),
    {
        self.slots.len()
    }

    fn position(&self, username: &String, address: &String) -> (res: usize)
        ensures
            res == first_where(self@, is_slot(username@, address@), 0),
            res <= self.slots.len(),
            self.slots.len() == self@.len(),
    {
        let mut i: usize = 0;
        while i < self.slots.len()
            invariant
                i <= self.slots.len(),
                first_where(self@, is_slot(username@, address@), 0) == first_where(
                    self@,
                    is_slot(username@, address@),
                    i as int,
                ),
            decreases self.slots.len() - i,
        {
            if self.slots[i].client.username == *username && self.slots[i].client.address
                == *address {
                return i;
            }
            i += 1;
        }
        i
    }

    /// The session id of a user at an address, if one was registered.
    pub fn find(&self, username: &str, address: &str) -> (res: Option<usize>)
        ensures
            match res {
                Some(id) => id < self@.len() && id == first_where(
                    self@,
                    is_slot(username@, address@),
                    0,
                ),
                None => first_where(self@, is_slot(username@, address@), 0) == self@.len(),
            },
    {
        let username = String::from_str(username);
        let address = String::from_str(address);
        let at = self.position(&username, &address);
        if at < self.slots.len() {
            Some(at)
        } else {
            None
        }
    }

    /// What a login of this client has to do: nothing, where the client has
    /// a live session; dial, where it has none.
    pub fn login(&self, client: &Client) -> (res: Login)
        ensures
            res == login_step(self@, client@.username, client@.address),
    {
        let at = self.position(&client.username, &client.address);
        if at < self.slots.len() && self.slots[at].live {
            Login::Existing(at)
        } else {
            Login::Connect
        }
    }

    /// Registers a client whose server was dialled with success and returns
    /// its session id.
    pub fn connected(&mut self, client: &Client) -> (res: usize)
        requires
            old(self).wf(),
        ensures
            final(self).wf(),
            final(self)@ == with_session(old(self)@, client@),
            res == first_where(old(self)@, is_slot(client@.username, client@.address), 0),
            login_step(final(self)@, client@.username, client@.address) == Login::Existing(res),
    {
        let at = self.position(&client.username, &client.address);
        proof {
            lemma_with_session(self@, client@);
            lemma_first_where(self@, is_slot(client@.username, client@.address), 0);
        }
        let slot = Slot { client: client.copy(), live: true };
        if at < self.slots.len() {
            self.slots[at] = slot;
        } else {
            self.slots.push(slot);
        }
        assert(self@ =~= with_session(old(self)@, client@));
        at
    }

    /// The client of a session id. An id that names no slot is an invalid
    /// argument; a vacant slot is not connected.
    pub fn client(&self, session_id: usize) -> (res: Result<Client, ApiError>)
        ensures
            match res {
                Ok(client) => session_client(self@, session_id) == Ok::<ClientView, ApiErrorView>(
                    client@,
                ),
                Err(error) => session_client(self@, session_id) == Err::<ClientView, ApiErrorView>(
                    error@,
                ),
            },
    {
        if session_id >= self.slots.len() {
            Err(ApiError::new(ErrorKind::InvalidArgument, "Invalid session_id"))
        } else if !self.slots[session_id].live {
            Err(ApiError::new(ErrorKind::NotConnected, "Session is not connected"))
        } else {
            Ok(self.slots[session_id].client.copy())
        }
    }

    /// Vacates the slot of a session id and hands out its client, so that
    /// the session can be closed. The registry changes only where the
    /// result is `Ok`.
    pub fn logout(&mut self, session_id: usize) -> (res: Result<Client, ApiError>)
        requires
            old(self).wf(),
        ensures
            final(self).wf(),
            match res {
                Ok(client) => session_client(old(self)@, session_id) == Ok::<
                    ClientView,
                    ApiErrorView,
                >(client@) && final(self)@ == old(self)@.update(
                    session_id as int,
                    SlotView { client: client@, live: false },
                ),
                Err(error) => session_client(old(self)@, session_id) == Err::<
                    ClientView,
                    ApiErrorView,
                >(error@) && final(self)@ == old(self)@,
            },
    {
        match self.client(session_id) {
            Err(error) => Err(error),
            Ok(client) => {
                let ghost before = self@;
                self.slots[session_id].live = false;
                assert(self@ =~= before.update(
                    session_id as int,
                    SlotView { client: client@, live: false },
                ));
                assert forall|i: int, j: int| 0 <= i < j < self@.len() implies !same_slot()(
                    #[trigger] self@[i],
                    #[trigger] self@[j],
                ) by {
                    assert(!same_slot()(before[i], before[j]));
                }
                Ok(client)
            },
        }
    }

    /// The live sessions: session id and client, by session id.
    pub fn sessions(&self) -> (res: Vec<(usize, Client)>)
        ensures
            session_views(res@) == live_sessions(self@, self@.len() as int),
    {
        let mut out: Vec<(usize, Client)> = Vec::new();
        let mut i: usize = 0;
        assert(session_views(out@) =~= live_sessions(self@, 0));
        while i < self.slots.len()
            invariant
                i <= self.slots.len(),
                self.slots.len() == self@.len(),
                session_views(out@) == live_sessions(self@, i as int),
            decreases self.slots.len() - i,
        {
            if self.slots[i].live {
                let ghost before = out@;
                out.push((i, self.slots[i].client.copy()));
                assert(session_views(out@) =~= session_views(before).push((i, self@[i as int].client)));
            }
            i += 1;
        }
        out
    }
}

} // verus!
