//! The UDP side of the forwarder: the table of client sessions, the rules
//! by which a session is refreshed, ended and swept, and the steps of the
//! task that relays a target's replies.
//!
//! A client may have one session after another. The table numbers the
//! sessions that it opens, and whoever acts for a session (its relay task,
//! the sender of a datagram through its socket) names it by that number,
//! so that the end of one session never touches a later one of the same
//! client.

use vstd::prelude::*;
use crate::addr::SocketAddress;
use crate::config::{UdpRule, UdpRuleView};

verus! {

/// Seconds between two sweeps of a rule's session table.
pub const SWEEP_INTERVAL_SECS: u64 = 30;

/// Seconds that a relay waits for a reply before it looks whether its
/// session is still there.
pub const RELAY_WAIT_SECS: u64 = 60;

/// Nanoseconds in a second.
pub const NANOS_PER_SEC: u128 = 1_000_000_000;

/// How long a session has been idle at `now`, in nanoseconds: nothing
/// where its last activity is not before `now`.
pub open spec fn idle_for(last_activity: u128, now: u128) -> nat {
    if now >= last_activity {
        (now - last_activity) as nat
    } else {
        0
    }
}

/// Whether a session last active at `last_activity` has at `now` been idle
/// for more than `timeout_secs` seconds.
pub open spec fn is_expired(last_activity: u128, now: u128, timeout_secs: u64) -> bool {
    idle_for(last_activity, now) > timeout_secs as nat * NANOS_PER_SEC as nat
}

/// Whether a session last active at `last_activity` has at `now` been idle
/// for more than `timeout_secs` seconds. Times are in nanoseconds.
pub fn expired(last_activity: u128, now: u128, timeout_secs: u64) -> (r: bool)
    ensures
        r == is_expired(last_activity, now, timeout_secs),
{
    let limit: u128 = timeout_secs as u128 * NANOS_PER_SEC;
    now >= last_activity && now - last_activity > limit
}

/// One client's conversation with the target: the number that tells it
/// from every other session that its table opens, the socket that talks to
/// the target on the client's behalf, and the time, in nanoseconds, at
/// which a datagram last went either way.
#[derive(Debug)]
pub struct UdpSession<S> {
    pub id: u64,
    pub target_socket: S,
    pub last_activity: u128,
}

/// A client's address together with its session.
#[derive(Debug)]
struct SessionEntry<S> {
    client: SocketAddress,
    session: UdpSession<S>,
}

/// The sessions of one rule, by client address. No client has two. The
/// table numbers the sessions that it opens, one after the other, so that
/// no two of them ever have the same number.
#[derive(Debug)]
pub struct SessionTable<S> {
    entries: Vec<SessionEntry<S>>,
    next_id: u64,
}

/// Whether no two entries are for the same client.
spec fn clients_distinct<S>(entries: Seq<SessionEntry<S>>) -> bool {
    forall|i: int, j: int|
        0 <= i < j < entries.len() ==> (#[trigger] entries[i]).client != (
        #[trigger] entries[j]).client
}

/// Whether `entries` holds an entry for `client` at place `i`.
spec fn entry_at<S>(entries: Seq<SessionEntry<S>>, client: SocketAddress, i: int) -> bool {
    0 <= i < entries.len() && entries[i].client == client
}

/// The sessions of a list of entries, by client.
spec fn sessions_of<S>(entries: Seq<SessionEntry<S>>) -> Map<
    SocketAddress,
    UdpSession<S>,
> {
    Map::new(
        |client: SocketAddress| exists|i: int| entry_at(entries, client, i),
        |client: SocketAddress| entries[choose|i: int| entry_at(entries, client, i)].session,
    )
}

/// With distinct clients, the entry at place `i` is the session of its
/// client.
proof fn lemma_session_at<S>(entries: Seq<SessionEntry<S>>, i: int)
    requires
        clients_distinct(entries),
        0 <= i < entries.len(),
    ensures
        sessions_of(entries).contains_key(entries[i].client),
        sessions_of(entries)[entries[i].client] == entries[i].session,
{
    let client = entries[i].client;
    assert(entry_at(entries, client, i));
}

/// An entry for a new client, put at the end, adds its session.
proof fn lemma_sessions_push<S>(entries: Seq<SessionEntry<S>>, entry: SessionEntry<S>)
    requires
        clients_distinct(entries),
        !sessions_of(entries).contains_key(entry.client),
    ensures
        clients_distinct(entries.push(entry)),
        sessions_of(entries.push(entry)) == sessions_of(entries).insert(
            entry.client,
            entry.session,
        ),
{
    let after = entries.push(entry);
    assert forall|i: int, j: int| 0 <= i < j < after.len() implies (#[trigger] after[i]).client != (
    #[trigger] after[j]).client by {
        if j == entries.len() {
            assert(entry_at(entries, entries[i].client, i));
        }
    }
    lemma_session_at(after, entries.len() as int);
    assert forall|client: SocketAddress|
        sessions_of(after).contains_key(client) == sessions_of(entries).insert(
            entry.client,
            entry.session,
        ).contains_key(client) by {
        if sessions_of(after).contains_key(client) {
            let i = choose|i: int| entry_at(after, client, i);
            if i < entries.len() {
                assert(entry_at(entries, client, i));
            }
        }
        if sessions_of(entries).contains_key(client) {
            let i = choose|i: int| entry_at(entries, client, i);
            assert(entry_at(after, client, i));
        }
    }
    assert forall|client: SocketAddress| sessions_of(after).contains_key(client) implies sessions_of(
        after,
    )[client] == sessions_of(entries).insert(entry.client, entry.session)[client] by {
        if client != entry.client {
            let i = choose|i: int| entry_at(entries, client, i);
            lemma_session_at(entries, i);
            lemma_session_at(after, i);
        }
    }
}

/// Taking the entry at place `i` away takes its client's session away.
proof fn lemma_sessions_remove<S>(entries: Seq<SessionEntry<S>>, i: int)
    requires
        clients_distinct(entries),
        0 <= i < entries.len(),
    ensures
        clients_distinct(entries.remove(i)),
        sessions_of(entries.remove(i)) == sessions_of(entries).remove(entries[i].client),
{
    let after = entries.remove(i);
    let gone = entries[i].client;
    assert forall|a: int, b: int| 0 <= a < b < after.len() implies (#[trigger] after[a]).client != (
    #[trigger] after[b]).client by {
        assert(after[a] == entries[if a < i { a } else { a + 1 }]);
        assert(after[b] == entries[if b < i { b } else { b + 1 }]);
    }
    assert forall|client: SocketAddress|
        sessions_of(after).contains_key(client) == sessions_of(entries).remove(gone).contains_key(
            client,
        ) by {
        if sessions_of(after).contains_key(client) {
            let a = choose|a: int| entry_at(after, client, a);
            let a0 = if a < i { a } else { a + 1 };
            assert(entry_at(entries, client, a0));
        }
        if sessions_of(entries).contains_key(client) && client != gone {
            let a0 = choose|a0: int| entry_at(entries, client, a0);
            let a = if a0 < i { a0 } else { a0 - 1 };
            assert(entry_at(after, client, a));
        }
    }
    assert forall|client: SocketAddress| sessions_of(after).contains_key(client) implies sessions_of(
        after,
    )[client] == sessions_of(entries).remove(gone)[client] by {
        let a = choose|a: int| entry_at(after, client, a);
        let a0 = if a < i { a } else { a + 1 };
        lemma_session_at(after, a);
        lemma_session_at(entries, a0);
    }
}

/// No entry for a client means no session for it.
proof fn lemma_session_absent<S>(entries: Seq<SessionEntry<S>>, client: SocketAddress)
    requires
        forall|i: int| 0 <= i < entries.len() ==> (#[trigger] entries[i]).client != client,
    ensures
        !sessions_of(entries).contains_key(client),
{
}

/// The table after a datagram for `client` at `now`: the client's session,
/// if it has one, is marked active at `now` and is otherwise as it was.
pub open spec fn refreshed<S>(
    sessions: Map<SocketAddress, UdpSession<S>>,
    client: SocketAddress,
    now: u128,
) -> Map<SocketAddress, UdpSession<S>> {
    if sessions.contains_key(client) {
        sessions.insert(
            client,
            UdpSession {
                id: sessions[client].id,
                target_socket: sessions[client].target_socket,
                last_activity: now,
            },
        )
    } else {
        sessions
    }
}

/// The table after the session numbered `id` is opened for `client` on
/// `socket` at `now`.
pub open spec fn opened<S>(
    sessions: Map<SocketAddress, UdpSession<S>>,
    client: SocketAddress,
    socket: S,
    now: u128,
    id: u64,
) -> Map<SocketAddress, UdpSession<S>> {
    sessions.insert(client, UdpSession { id, target_socket: socket, last_activity: now })
}

/// Whether the session that `client` has is the one numbered `id`.
pub open spec fn is_session<S>(
    sessions: Map<SocketAddress, UdpSession<S>>,
    client: SocketAddress,
    id: u64,
) -> bool {
    sessions.contains_key(client) && sessions[client].id == id
}

/// The table after the session numbered `id` of `client` is ended: that
/// session is gone if the client still had it; a later session of the same
/// client, and every other client's, is as it was.
pub open spec fn ended<S>(
    sessions: Map<SocketAddress, UdpSession<S>>,
    client: SocketAddress,
    id: u64,
) -> Map<SocketAddress, UdpSession<S>> {
    if is_session(sessions, client, id) {
        sessions.remove(client)
    } else {
        sessions
    }
}

/// Whether every session of the table has a number below `next_id`, as
/// every session has whose table numbers its next session `next_id`.
pub open spec fn numbered_below<S>(
    sessions: Map<SocketAddress, UdpSession<S>>,
    next_id: u64,
) -> bool {
    forall|client: SocketAddress|
        sessions.contains_key(client) ==> (#[trigger] sessions[client]).id < next_id
}

/// Whether a table whose next number is `next_id` can still open a
/// session.
pub open spec fn can_open(next_id: u64) -> bool {
    next_id < u64::MAX
}

/// The clients whose sessions have at `now` been idle for more than
/// `timeout_secs` seconds.
pub open spec fn expired_set<S>(
    sessions: Map<SocketAddress, UdpSession<S>>,
    now: u128,
    timeout_secs: u64,
) -> Set<SocketAddress> {
    Set::new(
        |client: SocketAddress|
            sessions.contains_key(client) && is_expired(
                sessions[client].last_activity,
                now,
                timeout_secs,
            ),
    )
}

/// The table after a sweep at `now`: every expired session is gone, every
/// other session is as it was.
pub open spec fn swept<S>(
    sessions: Map<SocketAddress, UdpSession<S>>,
    now: u128,
    timeout_secs: u64,
) -> Map<SocketAddress, UdpSession<S>> {
    sessions.remove_keys(expired_set(sessions, now, timeout_secs))
}

impl<S> View for SessionTable<S> {
    type V = Map<SocketAddress, UdpSession<S>>;

    closed spec fn view(&self) -> Map<SocketAddress, UdpSession<S>> {
        sessions_of(self.entries@)
    }
}

impl<S> SessionTable<S> {
    #[verifier::type_invariant]
    spec fn well_formed(self) -> bool {
        &&& clients_distinct(self.entries@)
        &&& forall|i: int|
            0 <= i < self.entries@.len() ==> (#[trigger] self.entries@[i]).session.id
                < self.next_id
    }

    /// The number that the next session opened will have. It never goes
    /// down, so every number handed out before is below it.
    pub closed spec fn spec_next_id(&self) -> u64 {
        self.next_id
    }

    /// A table without sessions, which numbers its sessions from zero.
    pub fn new() -> (table: Self)
        ensures
            table@ == Map::<SocketAddress, UdpSession<S>>::empty(),
            table.next_id() == 0,
    {
        let table = SessionTable { entries: Vec::new(), next_id: 0 };
        assert(table@ =~= Map::<SocketAddress, UdpSession<S>>::empty()) by {
            lemma_session_absent_all(table.entries@);
        }
        table
    }

    /// The place of the client's entry.
    fn position(&self, client: &SocketAddress) -> (r: Option<usize>)
        ensures
            match r {
                Some(i) => entry_at(self.entries@, *client, i as int),
                None => !self@.contains_key(*client),
            },
    {
        let mut i: usize = 0;
        while i < self.entries.len()
            invariant
                i <= self.entries@.len(),
                forall|k: int| 0 <= k < i ==> (#[trigger] self.entries@[k]).client != *client,
            decreases self.entries@.len() - i,
        {
            if self.entries[i].client == *client {
                return Some(i);
            }
            i = i + 1;
        }
        proof {
            lemma_session_absent(self.entries@, *client);
        }
        None
    }

    /// Whether the client has a session.
    pub fn contains_key(&self, client: &SocketAddress) -> (found: bool)
        ensures
            found == self@.contains_key(*client),
    {
        match self.position(client) {
            Some(i) => {
                proof {
                    use_type_invariant(self);
                    lemma_session_at(self.entries@, i as int);
                }
                true
            },
            None => false,
        }
    }

    /// The number of sessions.
    pub fn len(&self) -> (n: usize)
        ensures
            self@.dom().finite(),
            n == self@.len(),
    {
        proof {
            use_type_invariant(self);
            lemma_sessions_count(self.entries@);
        }
        self.entries.len()
    }

    /// The number that the next session opened will have. Every session
    /// in the table has a lower one.
    #[verifier::when_used_as_spec(spec_next_id)]
    pub fn next_id(&self) -> (id: u64)
        ensures
            id == self.spec_next_id(),
            numbered_below(self@, id),
    {
        proof {
            use_type_invariant(self);
            assert forall|client: SocketAddress| self@.contains_key(client) implies (
            #[trigger] self@[client]).id < self.next_id by {
                let i = choose|i: int| entry_at(self.entries@, client, i);
                lemma_session_at(self.entries@, i);
            }
        }
        self.next_id
    }

    /// Whether the session that `client` has is the one numbered `id`.
    pub fn is_session(&self, client: &SocketAddress, id: u64) -> (own: bool)
        ensures
            own == is_session(self@, *client, id),
    {
        match self.get(client) {
            Some(session) => session.id == id,
            None => false,
        }
    }

    /// The client's session, if it has one.
    pub fn get(&self, client: &SocketAddress) -> (r: Option<&UdpSession<S>>)
        ensures
            r is Some <==> self@.contains_key(*client),
            r matches Some(session) ==> *session == self@[*client],
    {
        match self.position(client) {
            Some(i) => {
                proof {
                    use_type_invariant(self);
                    lemma_session_at(self.entries@, i as int);
                }
                Some(&self.entries[i].session)
            },
            None => None,
        }
    }

    /// Opens a session for `client` on `socket`, active at `now`, and hands
    /// out its number. A session that the client already had is replaced.
    /// Nothing is opened, and nothing changed, once the numbers have run
    /// out.
    pub fn insert(&mut self, client: SocketAddress, socket: S, now: u128) -> (id: Option<u64>)
        ensures
            can_open(old(self).next_id()) ==> {
                &&& id == Some(old(self).next_id())
                &&& final(self)@ == opened(old(self)@, client, socket, now, old(self).next_id())
                &&& final(self).next_id() == old(self).next_id() + 1
            },
            !can_open(old(self).next_id()) ==> {
                &&& id is None
                &&& final(self)@ == old(self)@
                &&& final(self).next_id() == old(self).next_id()
            },
    {
        proof {
            use_type_invariant(&*self);
        }
        let id = self.next_id;
        if id == u64::MAX {
            return None;
        }
        let found = self.position(&client);
        let mut entries: Vec<SessionEntry<S>> = Vec::new();
        core::mem::swap(&mut entries, &mut self.entries);
        match found {
            Some(i) => {
                proof {
                    lemma_session_at(entries@, i as int);
                    lemma_sessions_remove(entries@, i as int);
                }
                let _ = entries.remove(i);
            },
            None => {},
        }
        let entry = SessionEntry {
            client,
            session: UdpSession { id, target_socket: socket, last_activity: now },
        };
        proof {
            lemma_sessions_push(entries@, entry);
        }
        entries.push(entry);
        self.next_id = id + 1;
        self.entries = entries;
        assert(self@ =~= opened(old(self)@, client, socket, now, id));
        Some(id)
    }

    /// Ends the client's session, if it has one, and hands it back.
    pub fn remove(&mut self, client: &SocketAddress) -> (removed: Option<UdpSession<S>>)
        ensures
            final(self)@ == old(self)@.remove(*client),
            removed == old(self)@.get(*client),
            final(self).next_id() == old(self).next_id(),
    {
        proof {
            use_type_invariant(&*self);
        }
        match self.position(client) {
            Some(i) => {
                let mut entries: Vec<SessionEntry<S>> = Vec::new();
                core::mem::swap(&mut entries, &mut self.entries);
                proof {
                    lemma_session_at(entries@, i as int);
                    lemma_sessions_remove(entries@, i as int);
                }
                let entry = entries.remove(i);
                self.entries = entries;
                Some(entry.session)
            },
            None => None,
        }
    }

    /// Ends the session numbered `id` of `client`, if the client still has
    /// it, and hands it back. A later session of the same client is left
    /// alone.
    pub fn end_session(&mut self, client: &SocketAddress, id: u64) -> (removed: Option<
        UdpSession<S>,
    >)
        ensures
            final(self)@ == ended(old(self)@, *client, id),
            removed is Some <==> is_session(old(self)@, *client, id),
            removed matches Some(session) ==> session == old(self)@[*client],
            final(self).next_id() == old(self).next_id(),
    {
        if self.is_session(client, id) {
            self.remove(client)
        } else {
            None
        }
    }

    /// Marks the client's session active at `now` and hands it out. `None`,
    /// and nothing changed, where the client has no session.
    pub fn refresh(&mut self, client: &SocketAddress, now: u128) -> (session: Option<
        &UdpSession<S>,
    >)
        ensures
            final(self)@ == refreshed(old(self)@, *client, now),
            final(self).next_id() == old(self).next_id(),
            session is Some <==> old(self)@.contains_key(*client),
            session matches Some(s) ==> *s == final(self)@[*client],
    {
        proof {
            use_type_invariant(&*self);
        }
        match self.position(client) {
            Some(i) => {
                let mut entries: Vec<SessionEntry<S>> = Vec::new();
                core::mem::swap(&mut entries, &mut self.entries);
                proof {
                    lemma_session_at(entries@, i as int);
                    lemma_sessions_remove(entries@, i as int);
                }
                let entry = entries.remove(i);
                let renewed = SessionEntry {
                    client: entry.client,
                    session: UdpSession {
                        id: entry.session.id,
                        target_socket: entry.session.target_socket,
                        last_activity: now,
                    },
                };
                proof {
                    lemma_sessions_push(entries@, renewed);
                }
                entries.push(renewed);
                let last = entries.len() - 1;
                proof {
                    lemma_session_at(entries@, last as int);
                }
                self.entries = entries;
                assert(self@ =~= refreshed(old(self)@, *client, now));
                Some(&self.entries[last].session)
            },
            None => None,
        }
    }

    /// The clients whose sessions have at `now` been idle for more than
    /// `timeout_secs` seconds, each once.
    pub fn expired_clients(&self, now: u128, timeout_secs: u64) -> (clients: Vec<SocketAddress>)
        ensures
            clients@.to_set() == expired_set(self@, now, timeout_secs),
            clients@.no_duplicates(),
    {
        proof {
            use_type_invariant(self);
        }
        let mut clients: Vec<SocketAddress> = Vec::new();
        let ghost mut origin: Seq<int> = Seq::empty();
        let mut i: usize = 0;
        while i < self.entries.len()
            invariant
                i <= self.entries@.len(),
                clients_distinct(self.entries@),
                origin.len() == clients@.len(),
                forall|k: int|
                    0 <= k < clients@.len() ==> 0 <= #[trigger] origin[k] < i && clients@[k]
                        == self.entries@[origin[k]].client && is_expired(
                        self.entries@[origin[k]].session.last_activity,
                        now,
                        timeout_secs,
                    ),
                forall|k: int, l: int| 0 <= k < l < clients@.len() ==> origin[k] < origin[l],
                forall|j: int|
                    0 <= j < i && is_expired(
                        (#[trigger] self.entries@[j]).session.last_activity,
                        now,
                        timeout_secs,
                    ) ==> clients@.contains(self.entries@[j].client),
            decreases self.entries@.len() - i,
        {
            if expired(self.entries[i].session.last_activity, now, timeout_secs) {
                let ghost before = clients@;
                clients.push(self.entries[i].client);
                proof {
                    origin = origin.push(i as int);
                    assert forall|j: int|
                        0 <= j < i + 1 && is_expired(
                            (#[trigger] self.entries@[j]).session.last_activity,
                            now,
                            timeout_secs,
                        ) implies clients@.contains(self.entries@[j].client) by {
                        if j < i {
                            let k = choose|k: int|
                                0 <= k < before.len() && before[k] == self.entries@[j].client;
                            assert(clients@[k] == self.entries@[j].client);
                        } else {
                            assert(clients@[clients@.len() - 1] == self.entries@[j].client);
                        }
                    }
                }
            }
            i = i + 1;
        }
        proof {
            let entries = self.entries@;
            assert forall|k: int, l: int| 0 <= k < l < clients@.len() implies clients@[k]
                != clients@[l] by {
                assert(entries[origin[k]].client != entries[origin[l]].client);
            }
            assert forall|client: SocketAddress|
                clients@.to_set().contains(client) == expired_set(
                    self@,
                    now,
                    timeout_secs,
                ).contains(client) by {
                if clients@.to_set().contains(client) {
                    let k = choose|k: int| 0 <= k < clients@.len() && clients@[k] == client;
                    lemma_session_at(entries, origin[k]);
                }
                if expired_set(self@, now, timeout_secs).contains(client) {
                    let j = choose|j: int| entry_at(entries, client, j);
                    lemma_session_at(entries, j);
                }
            }
        }
        clients
    }

    /// Ends the sessions of all the given clients; a client without a
    /// session is passed over.
    pub fn remove_all(&mut self, clients: &Vec<SocketAddress>)
        ensures
            final(self)@ == old(self)@.remove_keys(clients@.to_set()),
            final(self).next_id() == old(self).next_id(),
    {
        let ghost start = self@;
        let mut i: usize = 0;
        assert(self@ =~= start.remove_keys(clients@.take(0).to_set()));
        while i < clients.len()
            invariant
                i <= clients@.len(),
                self@ == start.remove_keys(clients@.take(i as int).to_set()),
                self.next_id() == old(self).next_id(),
            decreases clients@.len() - i,
        {
            let _ = self.remove(&clients[i]);
            proof {
                let done = clients@.take(i as int);
                let next = clients@.take(i as int + 1);
                assert forall|c: SocketAddress|
                    next.to_set().contains(c) == (done.to_set().contains(c) || c == clients@[i as int]) by {
                    if done.to_set().contains(c) {
                        let k = choose|k: int| 0 <= k < done.len() && done[k] == c;
                        assert(next[k] == c);
                    }
                    if c == clients@[i as int] {
                        assert(next[i as int] == c);
                    }
                }
                assert(self@ =~= start.remove_keys(next.to_set()));
            }
            i = i + 1;
        }
        assert(clients@.take(i as int) =~= clients@);
    }

    /// One sweep at `now`: ends every session that has been idle for more
    /// than `timeout_secs` seconds, leaves every other session as it was,
    /// and hands back the clients whose sessions it ended, each once.
    pub fn sweep(&mut self, now: u128, timeout_secs: u64) -> (removed: Vec<SocketAddress>)
        ensures
            final(self)@ == swept(old(self)@, now, timeout_secs),
            removed@.to_set() == expired_set(old(self)@, now, timeout_secs),
            removed@.no_duplicates(),
            final(self).next_id() == old(self).next_id(),
    {
        let removed = self.expired_clients(now, timeout_secs);
        self.remove_all(&removed);
        removed
    }
}

/// With distinct clients there are as many sessions as entries.
proof fn lemma_sessions_count<S>(entries: Seq<SessionEntry<S>>)
    requires
        clients_distinct(entries),
    ensures
        sessions_of(entries).dom().finite(),
        sessions_of(entries).dom().len() == entries.len(),
    decreases entries.len(),
{
    if entries.len() == 0 {
        lemma_session_absent_all(entries);
        assert(sessions_of(entries).dom() =~= Set::<SocketAddress>::empty());
    } else {
        let front = entries.drop_last();
        let last = entries.last();
        assert(clients_distinct(front));
        lemma_session_absent(front, last.client);
        lemma_sessions_count(front);
        lemma_sessions_push(front, last);
        assert(front.push(last) =~= entries);
    }
}

/// A list without entries has no sessions.
proof fn lemma_session_absent_all<S>(entries: Seq<SessionEntry<S>>)
    requires
        entries.len() == 0,
    ensures
        forall|client: SocketAddress| !sessions_of(entries).contains_key(client),
{
    assert forall|client: SocketAddress| !sessions_of(entries).contains_key(client) by {
        lemma_session_absent(entries, client);
    }
}

/// What the handling of one client datagram meets.
#[derive(Debug)]
pub enum DispatchEvent<S> {
    /// The datagram has come in.
    Datagram,
    /// The socket asked for was opened.
    SocketOpened(S),
    /// The datagram could not be sent to the target through the socket of
    /// the session with this number.
    TargetSendFailed(u64),
}

/// What the handling of one client datagram does next.
#[derive(Debug)]
pub enum DispatchAction<'a, S> {
    /// Send the datagram to the target through this socket, the one of the
    /// client's session, which has this number.
    Forward { socket: &'a S, id: u64 },
    /// The client has no session: open a socket for it, and report it.
    OpenSocket,
    /// A session with this number was opened on this socket: start its
    /// relay task, then send the datagram to the target through it.
    Relay { socket: &'a S, id: u64 },
    /// No session can be opened any more: the datagram is not forwarded.
    Refuse,
    /// Nothing is left to do.
    Done,
}

/// Mathematical value of a [`DispatchAction`].
pub enum DispatchPlan<S> {
    Forward { socket: S, id: u64 },
    OpenSocket,
    Relay { socket: S, id: u64 },
    Refuse,
    Done,
}

impl<'a, S> View for DispatchAction<'a, S> {
    type V = DispatchPlan<S>;

    open spec fn view(&self) -> DispatchPlan<S> {
        match *self {
            DispatchAction::Forward { socket, id } => DispatchPlan::Forward { socket: *socket, id },
            DispatchAction::OpenSocket => DispatchPlan::OpenSocket,
            DispatchAction::Relay { socket, id } => DispatchPlan::Relay { socket: *socket, id },
            DispatchAction::Refuse => DispatchPlan::Refuse,
            DispatchAction::Done => DispatchPlan::Done,
        }
    }
}

/// What is done on an event in the handling of a datagram from `client`,
/// in a table whose next number is `next_id`. A datagram goes out through
/// the socket of the client's session, or has a socket opened where the
/// client has none; an opened socket becomes the session numbered
/// `next_id` and gets its relay; a failed send needs nothing further.
/// Once the numbers have run out no session is opened.
pub open spec fn dispatch_plan<S>(
    sessions: Map<SocketAddress, UdpSession<S>>,
    next_id: u64,
    client: SocketAddress,
    event: DispatchEvent<S>,
) -> DispatchPlan<S> {
    match event {
        DispatchEvent::Datagram => if sessions.contains_key(client) {
            DispatchPlan::Forward {
                socket: sessions[client].target_socket,
                id: sessions[client].id,
            }
        } else if can_open(next_id) {
            DispatchPlan::OpenSocket
        } else {
            DispatchPlan::Refuse
        },
        DispatchEvent::SocketOpened(socket) => if can_open(next_id) {
            DispatchPlan::Relay { socket, id: next_id }
        } else {
            DispatchPlan::Refuse
        },
        DispatchEvent::TargetSendFailed(id) => DispatchPlan::Done,
    }
}

/// The table after an event at `now` in the handling of a datagram from
/// `client`: the datagram refreshes the client's session, the opened
/// socket becomes its session, and a failed send ends the session through
/// which it was made, if the client still has that one.
pub open spec fn after_dispatch_event<S>(
    sessions: Map<SocketAddress, UdpSession<S>>,
    next_id: u64,
    client: SocketAddress,
    event: DispatchEvent<S>,
    now: u128,
) -> Map<SocketAddress, UdpSession<S>> {
    match event {
        DispatchEvent::Datagram => refreshed(sessions, client, now),
        DispatchEvent::SocketOpened(socket) => if can_open(next_id) {
            opened(sessions, client, socket, now, next_id)
        } else {
            sessions
        },
        DispatchEvent::TargetSendFailed(id) => ended(sessions, client, id),
    }
}

/// The table's next number after an event in the handling of a datagram:
/// one more once a session was opened.
pub open spec fn next_id_after_dispatch<S>(next_id: u64, event: DispatchEvent<S>) -> u64 {
    match event {
        DispatchEvent::SocketOpened(socket) => if can_open(next_id) {
            (next_id + 1) as u64
        } else {
            next_id
        },
        _ => next_id,
    }
}

impl<S> SessionTable<S> {
    /// One step in the handling of a datagram from `client`: takes what
    /// was met at `now`, brings the table up to date and says what is done
    /// next. From the datagram to the report of the opened socket nothing
    /// else may use the table, so that a client never has two sockets
    /// opened for it.
    pub fn dispatch_step(&mut self, client: &SocketAddress, event: DispatchEvent<S>, now: u128) -> (action:
        DispatchAction<'_, S>)
        ensures
            action@ == dispatch_plan(old(self)@, old(self).next_id(), *client, event),
            final(self)@ == after_dispatch_event(
                old(self)@,
                old(self).next_id(),
                *client,
                event,
                now,
            ),
            final(self).next_id() == next_id_after_dispatch(old(self).next_id(), event),
    {
        match event {
            DispatchEvent::Datagram => {
                let open = self.next_id < u64::MAX;
                match self.refresh(client, now) {
                    Some(session) => DispatchAction::Forward {
                        socket: &session.target_socket,
                        id: session.id,
                    },
                    None => if open {
                        DispatchAction::OpenSocket
                    } else {
                        DispatchAction::Refuse
                    },
                }
            },
            DispatchEvent::SocketOpened(socket) => {
                match self.insert(*client, socket, now) {
                    Some(id) => match self.get(client) {
                        Some(session) => DispatchAction::Relay {
                            socket: &session.target_socket,
                            id,
                        },
                        None => DispatchAction::Refuse,
                    },
                    None => DispatchAction::Refuse,
                }
            },
            DispatchEvent::TargetSendFailed(id) => {
                let _ = self.end_session(client, id);
                DispatchAction::Done
            },
        }
    }
}

/// What a relay task meets while it waits on its session's socket.
#[derive(Debug, Clone, Copy, PartialEq, Eq, Structural)]
pub enum RelayEvent {
    /// A datagram came from the target.
    Datagram,
    /// The socket failed.
    SocketFailed,
    /// The wait ran out with nothing received.
    WaitElapsed,
    /// The datagram could not be sent on to the client.
    ClientSendFailed,
}

/// What a relay task does next.
#[derive(Debug, Clone, Copy, PartialEq, Eq, Structural)]
pub enum RelayAction {
    /// Send the datagram to the client, then wait again.
    Forward,
    /// Wait again.
    Wait,
    /// End the task; its own session is there no more.
    Stop,
}

/// What the relay of the session numbered `id` of `client` does on an
/// event. A reply is forwarded, and a quiet wait goes on, only while the
/// client still has that very session; everything else ends the relay,
/// and so does a session of the same client that was opened later.
pub open spec fn relay_action<S>(
    sessions: Map<SocketAddress, UdpSession<S>>,
    client: SocketAddress,
    id: u64,
    event: RelayEvent,
) -> RelayAction {
    match event {
        RelayEvent::Datagram => if is_session(sessions, client, id) {
            RelayAction::Forward
        } else {
            RelayAction::Stop
        },
        RelayEvent::WaitElapsed => if is_session(sessions, client, id) {
            RelayAction::Wait
        } else {
            RelayAction::Stop
        },
        RelayEvent::SocketFailed => RelayAction::Stop,
        RelayEvent::ClientSendFailed => RelayAction::Stop,
    }
}

/// The table after an event at `now` of the relay of the session numbered
/// `id` of `client`: a reply refreshes that session, a quiet wait changes
/// nothing, a failure ends that session. Where the client has no session
/// or a later one, the table is as it was.
pub open spec fn after_relay_event<S>(
    sessions: Map<SocketAddress, UdpSession<S>>,
    client: SocketAddress,
    id: u64,
    event: RelayEvent,
    now: u128,
) -> Map<SocketAddress, UdpSession<S>> {
    match event {
        RelayEvent::Datagram => if is_session(sessions, client, id) {
            refreshed(sessions, client, now)
        } else {
            sessions
        },
        RelayEvent::WaitElapsed => sessions,
        RelayEvent::SocketFailed => ended(sessions, client, id),
        RelayEvent::ClientSendFailed => ended(sessions, client, id),
    }
}

impl<S> SessionTable<S> {
    /// One step of the task that relays the target's replies for the
    /// session numbered `id` of `client`: takes what the task met at
    /// `now`, brings the table up to date and says what the task does
    /// next. A task that is told to stop leaves its own session behind no
    /// more; a session of another number is never touched.
    pub fn relay_step(&mut self, client: &SocketAddress, id: u64, event: RelayEvent, now: u128) -> (action:
        RelayAction)
        ensures
            action == relay_action(old(self)@, *client, id, event),
            final(self)@ == after_relay_event(old(self)@, *client, id, event, now),
            final(self).next_id() == old(self).next_id(),
            action == RelayAction::Stop ==> !is_session(final(self)@, *client, id),
            !is_session(old(self)@, *client, id) ==> final(self)@ == old(self)@ && action
                == RelayAction::Stop,
    {
        match event {
            RelayEvent::Datagram => {
                if self.is_session(client, id) {
                    let _ = self.refresh(client, now);
                    RelayAction::Forward
                } else {
                    RelayAction::Stop
                }
            },
            RelayEvent::WaitElapsed => {
                if self.is_session(client, id) {
                    RelayAction::Wait
                } else {
                    RelayAction::Stop
                }
            },
            RelayEvent::SocketFailed => {
                let _ = self.end_session(client, id);
                RelayAction::Stop
            },
            RelayEvent::ClientSendFailed => {
                let _ = self.end_session(client, id);
                RelayAction::Stop
            },
        }
    }
}

/// Every event that stops a relay leaves its own session behind no more,
/// and leaves a session of another number, of the same client or of any
/// other, exactly as it was.
pub proof fn lemma_stopped_relay_ends_its_own_session_only<S>(
    sessions: Map<SocketAddress, UdpSession<S>>,
    client: SocketAddress,
    id: u64,
    event: RelayEvent,
    now: u128,
)
    requires
        relay_action(sessions, client, id, event) == RelayAction::Stop,
    ensures
        !is_session(after_relay_event(sessions, client, id, event, now), client, id),
        after_relay_event(sessions, client, id, event, now) == ended(sessions, client, id),
        forall|other: SocketAddress|
            other != client && sessions.contains_key(other) ==> #[trigger] after_relay_event(
                sessions,
                client,
                id,
                event,
                now,
            ).contains_key(other) && after_relay_event(sessions, client, id, event, now)[other]
                == sessions[other],
        !is_session(sessions, client, id) ==> after_relay_event(sessions, client, id, event, now)
            == sessions,
{
}

/// A relay whose session was ended, by a sweep or otherwise, does no harm
/// to the session that is opened for the same client afterwards: the
/// later session has another number, so whatever the old relay meets, it
/// is told to stop and the table stays as it is.
pub proof fn lemma_stale_relay_leaves_the_later_session<S>(
    sessions: Map<SocketAddress, UdpSession<S>>,
    next_id: u64,
    client: SocketAddress,
    stale_id: u64,
    socket: S,
    opened_at: u128,
    event: RelayEvent,
    now: u128,
)
    requires
        stale_id < next_id,
        can_open(next_id),
    ensures
        ({
            let later = after_dispatch_event(
                sessions,
                next_id,
                client,
                DispatchEvent::SocketOpened(socket),
                opened_at,
            );
            &&& is_session(later, client, next_id)
            &&& !is_session(later, client, stale_id)
            &&& relay_action(later, client, stale_id, event) == RelayAction::Stop
            &&& after_relay_event(later, client, stale_id, event, now) == later
            &&& after_dispatch_event(
                later,
                (next_id + 1) as u64,
                client,
                DispatchEvent::<S>::TargetSendFailed(stale_id),
                now,
            ) == later
        }),
{
}

/// Mathematical value of a [`UdpForwarder`].
pub struct UdpForwarderView {
    pub rule: UdpRuleView,
    pub buffer_size: usize,
}

/// The forwarder of one UDP rule.
#[derive(Debug, Clone)]
pub struct UdpForwarder {
    rule: UdpRule,
    buffer_size: usize,
}

impl View for UdpForwarder {
    type V = UdpForwarderView;

    closed spec fn view(&self) -> UdpForwarderView {
        UdpForwarderView { rule: self.rule@, buffer_size: self.buffer_size }
    }
}

impl UdpForwarder {
    /// The forwarder of `rule`, which receives into buffers of
    /// `buffer_size` bytes.
    pub fn new(rule: UdpRule, buffer_size: usize) -> (forwarder: Self)
        ensures
            forwarder@ == (UdpForwarderView { rule: rule@, buffer_size }),
    {
        UdpForwarder { rule, buffer_size }
    }

    /// The rule that is forwarded.
    pub fn rule(&self) -> (rule: &UdpRule)
        ensures
            rule@ == self@.rule,
    {
        &self.rule
    }

    /// The size of the receive buffers, in bytes.
    pub fn buffer_size(&self) -> (size: usize)
        ensures
            size == self@.buffer_size,
    {
        self.buffer_size
    }
}

/// A session that is not expired at a sweep is still there after it, as
/// it was, so the client's next datagram goes out through the same socket
/// of the same session.
pub proof fn lemma_active_session_keeps_socket<S>(
    sessions: Map<SocketAddress, UdpSession<S>>,
    next_id: u64,
    client: SocketAddress,
    sweep_at: u128,
    timeout_secs: u64,
    next_at: u128,
)
    requires
        sessions.contains_key(client),
        !is_expired(sessions[client].last_activity, sweep_at, timeout_secs),
    ensures
        swept(sessions, sweep_at, timeout_secs).contains_key(client),
        swept(sessions, sweep_at, timeout_secs)[client] == sessions[client],
        refreshed(sessions, client, next_at)[client].target_socket
            == sessions[client].target_socket,
        refreshed(sessions, client, next_at)[client].id == sessions[client].id,
        dispatch_plan(
            swept(sessions, sweep_at, timeout_secs),
            next_id,
            client,
            DispatchEvent::<S>::Datagram,
        ) == (DispatchPlan::Forward {
            socket: sessions[client].target_socket,
            id: sessions[client].id,
        }),
{
}

/// A session that is expired at a sweep is gone after it: the client's
/// next datagram finds no session, and the session then opened for it is
/// a new one, with a number of its own, on the socket that was opened
/// then.
pub proof fn lemma_idle_session_is_swept<S>(
    sessions: Map<SocketAddress, UdpSession<S>>,
    next_id: u64,
    client: SocketAddress,
    sweep_at: u128,
    timeout_secs: u64,
    next_at: u128,
    fresh: S,
)
    requires
        sessions.contains_key(client),
        is_expired(sessions[client].last_activity, sweep_at, timeout_secs),
        numbered_below(sessions, next_id),
        can_open(next_id),
    ensures
        !swept(sessions, sweep_at, timeout_secs).contains_key(client),
        refreshed(swept(sessions, sweep_at, timeout_secs), client, next_at) == swept(
            sessions,
            sweep_at,
            timeout_secs,
        ),
        dispatch_plan(
            swept(sessions, sweep_at, timeout_secs),
            next_id,
            client,
            DispatchEvent::<S>::Datagram,
        ) == DispatchPlan::<S>::OpenSocket,
        ({
            let later = after_dispatch_event(
                swept(sessions, sweep_at, timeout_secs),
                next_id,
                client,
                DispatchEvent::SocketOpened(fresh),
                next_at,
            );
            &&& later[client] == (UdpSession {
                id: next_id,
                target_socket: fresh,
                last_activity: next_at,
            })
            &&& later[client].id != sessions[client].id
            &&& dispatch_plan(later, (next_id + 1) as u64, client, DispatchEvent::<S>::Datagram)
                == (DispatchPlan::Forward { socket: fresh, id: next_id })
        }),
{
}

/// A sweep touches no session but the expired ones.
pub proof fn lemma_sweep_keeps_the_rest<S>(
    sessions: Map<SocketAddress, UdpSession<S>>,
    sweep_at: u128,
    timeout_secs: u64,
)
    ensures
        forall|client: SocketAddress|
            #![trigger swept(sessions, sweep_at, timeout_secs).contains_key(client)]
            swept(sessions, sweep_at, timeout_secs).contains_key(client) <==> sessions.contains_key(
                client,
            ) && !is_expired(sessions[client].last_activity, sweep_at, timeout_secs),
        forall|client: SocketAddress|
            swept(sessions, sweep_at, timeout_secs).contains_key(client) ==> #[trigger] swept(
                sessions,
                sweep_at,
                timeout_secs,
            )[client] == sessions[client],
{
}

/// Once a session is opened for a client that had none, the table holds
/// one session more, and every further datagram of that client finds this
/// session and its socket: none of them opens a second one.
pub proof fn lemma_one_session_per_client<S>(
    sessions: Map<SocketAddress, UdpSession<S>>,
    next_id: u64,
    client: SocketAddress,
    socket: S,
    first_at: u128,
    next_at: u128,
)
    requires
        !sessions.contains_key(client),
        can_open(next_id),
    ensures
        dispatch_plan(sessions, next_id, client, DispatchEvent::<S>::Datagram)
            == DispatchPlan::<S>::OpenSocket,
        ({
            let first = after_dispatch_event(
                sessions,
                next_id,
                client,
                DispatchEvent::SocketOpened(socket),
                first_at,
            );
            let second = after_dispatch_event(
                first,
                (next_id + 1) as u64,
                client,
                DispatchEvent::<S>::Datagram,
                next_at,
            );
            &&& first.dom() == sessions.dom().insert(client)
            &&& (sessions.dom().finite() ==> first.dom().len() == sessions.dom().len() + 1)
            &&& dispatch_plan(first, (next_id + 1) as u64, client, DispatchEvent::<S>::Datagram)
                == (DispatchPlan::Forward { socket, id: next_id })
            &&& second.dom() == first.dom()
            &&& second[client].target_socket == socket
            &&& second[client].id == next_id
        }),
{
    let first = opened(sessions, client, socket, first_at, next_id);
    assert(first.dom() =~= sessions.dom().insert(client));
    assert(refreshed(first, client, next_at).dom() =~= first.dom());
}

/// Ending a session twice is ending it once, and ending the session of a
/// client that has none, or has a later one, changes nothing.
pub proof fn lemma_ending_is_idempotent<S>(
    sessions: Map<SocketAddress, UdpSession<S>>,
    client: SocketAddress,
    id: u64,
)
    ensures
        !is_session(ended(sessions, client, id), client, id),
        ended(ended(sessions, client, id), client, id) == ended(sessions, client, id),
        !is_session(sessions, client, id) ==> ended(sessions, client, id) == sessions,
        !sessions.remove(client).contains_key(client),
        sessions.remove(client).remove(client) == sessions.remove(client),
{
    assert(sessions.remove(client).remove(client) =~= sessions.remove(client));
}

} // verus!
